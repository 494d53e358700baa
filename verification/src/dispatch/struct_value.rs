//! Struct construction: named values are laid out in the order of the declaration, checked field by
//! field, and gathered into a struct.

use crate::ast::ExpressionPart;
use crate::error::{raised, ErrorKindView, ErrorView, KError, KErrorKind};
use crate::function::argument_named;
use crate::ktype::{Field, KType, TypeRegistry};
use crate::region::{FieldPart, Region, RegionView};
use crate::symbol::{Labels, Symbol};
use crate::text::enclosed;
use crate::value::{Carried, Cell, KObject, ObjId, ObjectView};
use indexmap::IndexMap;
use std::hash::RandomState;
use vstd::prelude::*;

verus! {

/// An [`IndexMap`]: a hash map that keeps its keys in the order of insertion.
#[verifier::external_type_specification]
#[verifier::external_body]
#[verifier::reject_recursive_types(K)]
#[verifier::reject_recursive_types(V)]
#[verifier::reject_recursive_types(S)]
pub struct ExIndexMap<K, V, S>(IndexMap<K, V, S>);

/// The pairs of a map from symbols to objects, in order.
pub uninterp spec fn map_pairs(map: IndexMap<usize, usize, RandomState>) -> Seq<(usize, usize)>;

/// Whether a map of `count` pairs can be stored: beyond this the buffers could pass what one
/// allocation may hold.
pub open spec fn storable(count: nat) -> bool {
    count <= usize::MAX / 256
}

/// `pairs` with `key` bound to `value`: in the place it already has, or behind the others.
pub open spec fn with_pair(pairs: Seq<(usize, usize)>, key: usize, value: usize) -> Seq<
    (usize, usize),
>
    decreases pairs.len(),
{
    if pairs.len() == 0 {
        seq![(key, value)]
    } else if pairs[0].0 == key {
        pairs.update(0, (key, value))
    } else {
        seq![pairs[0]] + with_pair(pairs.drop_first(), key, value)
    }
}

/// An empty map with room for `count` pairs, by [`IndexMap::with_capacity`]. It panics only where
/// the buffers would exceed what one allocation may hold, which the bound on the count rules out.
#[verifier::external_body]
fn map_with_capacity(count: usize) -> (r: IndexMap<usize, usize, RandomState>)
    requires
        storable(count as nat),
    ensures
        map_pairs(r) == Seq::<(usize, usize)>::empty(),
{
    IndexMap::with_capacity(count)
}

/// Binds a key, by [`IndexMap::insert`]: a key that is there keeps its place and gets the new
/// value, any other goes behind the others. The value that was replaced is handed back by the
/// outside function and dropped here.
#[verifier::external_body]
fn map_insert(map: &mut IndexMap<usize, usize, RandomState>, key: usize, value: usize)
    requires
        storable(map_pairs(*old(map)).len() + 1),
    ensures
        map_pairs(*final(map)) == with_pair(map_pairs(*old(map)), key, value),
{
    map.insert(key, value);
}

/// The pairs of a map, by [`IndexMap::iter`], which yields them in order.
#[verifier::external_body]
fn map_to_pairs(map: &IndexMap<usize, usize, RandomState>) -> (r: Vec<(usize, usize)>)
    ensures
        r@ == map_pairs(*map),
{
    map.iter().map(|(key, value)| (*key, *value)).collect()
}

/// Pairs as the cells of a struct.
pub open spec fn cells_of(pairs: Seq<(usize, usize)>) -> Seq<Cell> {
    pairs.map_values(
        |pair: (usize, usize)|
            Cell { name: Symbol { id: pair.0 }, value: Carried::Object(ObjId { at: pair.1 }) },
    )
}

/// The pairs of the first `upto` fields with their values.
pub open spec fn paired_upto(fields: Seq<Field>, values: Seq<ObjId>, upto: nat) -> Seq<
    (usize, usize),
>
    decreases upto,
{
    if upto == 0 {
        Seq::empty()
    } else {
        let at = (upto - 1) as int;
        with_pair(
            paired_upto(fields, values, at as nat),
            fields[at].name.id,
            values[at].at,
        )
    }
}

/// Binding a key adds at most one pair.
proof fn binding_adds_at_most_one(pairs: Seq<(usize, usize)>, key: usize, value: usize)
    ensures
        pairs.len() <= with_pair(pairs, key, value).len() <= pairs.len() + 1,
    decreases pairs.len(),
{
    if pairs.len() > 0 && pairs[0].0 != key {
        binding_adds_at_most_one(pairs.drop_first(), key, value);
    }
}

/// `fields` without the first one under `name`.
pub open spec fn without_named(fields: Seq<FieldPart>, name: Symbol) -> Seq<FieldPart>
    decreases fields.len(),
{
    if fields.len() == 0 {
        Seq::empty()
    } else if fields[0].name == name {
        fields.drop_first()
    } else {
        seq![fields[0]] + without_named(fields.drop_first(), name)
    }
}

/// Taking the first field under a name out of a run that begins with others.
proof fn taken_behind(front: Seq<FieldPart>, back: Seq<FieldPart>, name: Symbol)
    requires
        forall|k: int| 0 <= k < front.len() ==> front[k].name != name,
    ensures
        without_named(front + back, name) == front + without_named(back, name),
        argument_named(front + back, name) == argument_named(back, name),
    decreases front.len(),
{
    if front.len() == 0 {
        assert(front + back =~= back);
        assert(front + without_named(back, name) =~= without_named(back, name));
    } else {
        let rest = front.drop_first();
        assert((front + back).drop_first() =~= rest + back);
        assert((front + back)[0] == front[0]);
        taken_behind(rest, back, name);
        assert(seq![front[0]] + (rest + without_named(back, name)) =~= front + without_named(
            back,
            name,
        ));
    }
}

/// Takes the first field under `name` out of a run.
fn take(fields: &mut Vec<FieldPart>, name: Symbol) -> (r: Option<ExpressionPart>)
    ensures
        r == argument_named(old(fields)@, name),
        final(fields)@ == without_named(old(fields)@, name),
{
    let ghost before = fields@;
    let mut i: usize = 0;
    while i < fields.len()
        invariant
            i <= fields.len(),
            fields@ == before,
            before == old(fields)@,
            forall|k: int| 0 <= k < i ==> before[k].name != name,
        decreases fields.len() - i,
    {
        if fields[i].name == name {
            let found = fields[i].value;
            fields.remove(i);
            proof {
                let front = before.take(i as int);
                let back = before.skip(i as int);
                assert(front + back =~= before);
                taken_behind(front, back, name);
                assert(back[0] == before[i as int]);
                assert(fields@ =~= front + back.drop_first());
            }
            return Some(found);
        }
        i = i + 1;
    }
    proof {
        taken_behind(before, Seq::empty(), name);
        assert(before + Seq::<FieldPart>::empty() =~= before);
    }
    None
}

/// What laying the values of `named` out in the order of `fields` comes to, from field `from` on:
/// the values, and what is left over.
pub open spec fn laid_out(fields: Seq<Field>, named: Seq<FieldPart>, from: int) -> Result<
    (Seq<ExpressionPart>, Seq<FieldPart>),
    Symbol,
>
    decreases fields.len() - from,
{
    if from < 0 || from >= fields.len() {
        Ok((Seq::empty(), named))
    } else {
        match argument_named(named, fields[from].name) {
            None => Err(fields[from].name),
            Some(part) => match laid_out(
                fields,
                without_named(named, fields[from].name),
                from + 1,
            ) {
                Ok((rest, left)) => Ok((seq![part] + rest, left)),
                Err(missing) => Err(missing),
            },
        }
    }
}

/// The values of a struct construction in the order of the declaration. A field that is missing is
/// reported before one that is unknown.
pub open spec fn prepared(
    labels: &Labels,
    fields: Seq<Field>,
    named: Result<Seq<FieldPart>, Seq<char>>,
) -> Result<Seq<ExpressionPart>, ErrorView> {
    match named {
        Err(text) => Err(raised(ErrorKindView::shape_error(text))),
        Ok(pairs) => match laid_out(fields, pairs, 0) {
            Err(missing) => Err(raised(ErrorKindView::MissingArg(labels.text_of(missing)))),
            Ok((ordered, left)) => if left.len() > 0 {
                Err(
                    raised(
                        ErrorKindView::shape_error(
                            "unknown field `"@ + labels.text_of(left[0].name)
                                + "` in struct construction"@,
                        ),
                    ),
                )
            } else {
                Ok(ordered)
            },
        },
    }
}

/// The content of what reading a record literal as named pairs came to.
pub open spec fn named_view(named: Result<Vec<FieldPart>, String>) -> Result<
    Seq<FieldPart>,
    Seq<char>,
> {
    match named {
        Ok(pairs) => Ok(pairs@),
        Err(text) => Err(text@),
    }
}

/// Lays the named values of a struct construction out in the order of the declaration.
pub fn prepare_value_parts(
    labels: &Labels,
    fields: &Vec<Field>,
    named: Result<Vec<FieldPart>, String>,
) -> (r: Result<Vec<ExpressionPart>, KError>)
    ensures
        match r {
            Ok(ordered) => prepared(labels, fields@, named_view(named)) == Ok::<
                Seq<ExpressionPart>,
                ErrorView,
            >(ordered@),
            Err(e) => prepared(labels, fields@, named_view(named)) == Err::<
                Seq<ExpressionPart>,
                ErrorView,
            >(e@),
        },
{
    let mut pairs = match named {
        Ok(pairs) => pairs,
        Err(text) => {
            return Err(KError::new(KErrorKind::shape_error(text)));
        },
    };
    let ghost first = pairs@;
    let mut ordered: Vec<ExpressionPart> = Vec::new();
    let mut i: usize = 0;
    let ghost all = laid_out(fields@, first, 0);
    proof {
        if let Ok((rest, left)) = all {
            assert(Seq::<ExpressionPart>::empty() + rest =~= rest);
        }
        assert(ordered@ =~= Seq::<ExpressionPart>::empty());
    }
    while i < fields.len()
        invariant
            i <= fields.len(),
            first == named_view(named)->Ok_0,
            named_view(named) is Ok,
            all == laid_out(fields@, first, 0),
            all == match laid_out(fields@, pairs@, i as int) {
                Ok((rest, left)) => Ok::<(Seq<ExpressionPart>, Seq<FieldPart>), Symbol>(
                    (ordered@ + rest, left),
                ),
                Err(missing) => Err(missing),
            },
        decreases fields.len() - i,
    {
        let ghost so_far = ordered@;
        let name = fields[i].name;
        match take(&mut pairs, name) {
            Some(part) => {
                ordered.push(part);
                proof {
                    if let Ok((rest, left)) = laid_out(fields@, pairs@, i as int + 1) {
                        assert(so_far + (seq![part] + rest) =~= so_far.push(part) + rest);
                    }
                }
            },
            None => {
                return Err(KError::new(KErrorKind::MissingArg(labels.render(name))));
            },
        }
        i = i + 1;
    }
    proof {
        assert(ordered@ + Seq::<ExpressionPart>::empty() =~= ordered@);
    }
    if pairs.len() > 0 {
        let name = labels.render(pairs[0].name);
        return Err(
            KError::new(
                KErrorKind::shape_error(
                    enclosed("unknown field `", name.as_str(), "` in struct construction"),
                ),
            ),
        );
    }
    Ok(ordered)
}

/// The error of the first field from `from` on whose value its type does not take.
pub open spec fn field_error(
    types: &TypeRegistry,
    labels: &Labels,
    region: RegionView,
    fields: Seq<Field>,
    values: Seq<ObjId>,
    from: int,
) -> Option<ErrorView>
    decreases fields.len() - from,
{
    if from < 0 || from >= fields.len() {
        None
    } else if !types.inhabits(region, fields[from].ktype, values[from]) {
        Some(
            raised(
                ErrorKindView::TypeMismatch {
                    arg: labels.text_of(fields[from].name),
                    expected: types.name_text(labels, fields[from].ktype),
                    got: types.name_text(labels, region.object(values[from]).ktype()),
                },
            ),
        )
    } else {
        field_error(types, labels, region, fields, values, from + 1)
    }
}

/// What constructing a struct comes to.
pub open spec fn constructed(
    types: &TypeRegistry,
    labels: &Labels,
    region: RegionView,
    identity: KType,
    fields: Seq<Field>,
    values: Seq<ObjId>,
) -> Result<ObjectView, ErrorView> {
    if values.len() != fields.len() {
        Err(
            raised(
                ErrorKindView::ArityMismatch {
                    expected: fields.len() as usize,
                    got: values.len() as usize,
                },
            ),
        )
    } else {
        match field_error(types, labels, region, fields, values, 0) {
            Some(e) => Err(e),
            None => Ok(
                ObjectView::Struct {
                    fields: cells_of(paired_upto(fields, values, fields.len())),
                    identity,
                },
            ),
        }
    }
}

/// Checks the values of a struct, given in the order of the declaration, and builds it.
pub fn construct(
    types: &TypeRegistry,
    labels: &Labels,
    region: &Region,
    identity: KType,
    fields: &Vec<Field>,
    values: &Vec<ObjId>,
) -> (r: Result<KObject, KError>)
    requires
        storable(fields@.len()),
    ensures
        match r {
            Ok(object) => constructed(types, labels, region@, identity, fields@, values@) == Ok::<
                ObjectView,
                ErrorView,
            >(object@),
            Err(e) => constructed(types, labels, region@, identity, fields@, values@) == Err::<
                ObjectView,
                ErrorView,
            >(e@),
        },
{
    if values.len() != fields.len() {
        return Err(
            KError::new(
                KErrorKind::ArityMismatch { expected: fields.len(), got: values.len() },
            ),
        );
    }
    let mut map = map_with_capacity(fields.len());
    let mut i: usize = 0;
    while i < fields.len()
        invariant
            i <= fields.len(),
            fields.len() == values.len(),
            storable(fields@.len()),
            map_pairs(map) == paired_upto(fields@, values@, i as nat),
            map_pairs(map).len() <= i,
            field_error(types, labels, region@, fields@, values@, 0) == field_error(
                types,
                labels,
                region@,
                fields@,
                values@,
                i as int,
            ),
        decreases fields.len() - i,
    {
        let field = fields[i];
        if !types.matches_value(region, field.ktype, values[i]) {
            return Err(
                KError::new(
                    KErrorKind::TypeMismatch {
                        arg: labels.render(field.name),
                        expected: types.name(labels, field.ktype),
                        got: types.name(labels, region.object_type(values[i])),
                    },
                ),
            );
        }
        proof {
            binding_adds_at_most_one(map_pairs(map), field.name.id, values@[i as int].at);
        }
        map_insert(&mut map, field.name.id, values[i].at);
        i = i + 1;
    }
    let pairs = map_to_pairs(&map);
    let mut cells: Vec<Cell> = Vec::new();
    let mut k: usize = 0;
    while k < pairs.len()
        invariant
            k <= pairs.len(),
            cells@ == cells_of(pairs@).take(k as int),
        decreases pairs.len() - k,
    {
        let (name, value) = pairs[k];
        let cell = Cell {
            name: Symbol { id: name },
            value: Carried::Object(ObjId { at: value }),
        };
        cells.push(cell);
        assert(cells_of(pairs@).take(k as int + 1) =~= cells_of(pairs@).take(k as int).push(cell));
        k = k + 1;
    }
    assert(cells_of(pairs@).take(k as int) =~= cells_of(pairs@));
    Ok(KObject::Struct { fields: cells, identity })
}

/// A run of distinct keys keeps its order.
proof fn fresh_keys_go_behind(pairs: Seq<(usize, usize)>, key: usize, value: usize)
    requires
        forall|k: int| 0 <= k < pairs.len() ==> pairs[k].0 != key,
    ensures
        with_pair(pairs, key, value) == pairs.push((key, value)),
    decreases pairs.len(),
{
    if pairs.len() == 0 {
        assert(with_pair(pairs, key, value) =~= pairs.push((key, value)));
    } else {
        let rest = pairs.drop_first();
        fresh_keys_go_behind(rest, key, value);
        assert(seq![pairs[0]] + rest.push((key, value)) =~= pairs.push((key, value)));
    }
}

/// A struct holds its values in the order of the declaration: where the declared names are
/// distinct, field number `i` is the `i`-th name with the `i`-th value.
pub proof fn structs_keep_declaration_order(fields: Seq<Field>, values: Seq<ObjId>, upto: nat)
    requires
        upto <= fields.len(),
        fields.len() == values.len(),
        forall|i: int, j: int| 0 <= i < j < fields.len() ==> fields[i].name != fields[j].name,
    ensures
        paired_upto(fields, values, upto) == Seq::new(
            upto,
            |i: int| (fields[i].name.id, values[i].at),
        ),
    decreases upto,
{
    if upto > 0 {
        let at = (upto - 1) as nat;
        structs_keep_declaration_order(fields, values, at);
        let earlier = paired_upto(fields, values, at);
        assert forall|k: int| 0 <= k < earlier.len() implies earlier[k].0 != fields[at as int].name.id by {
            assert(fields[k].name != fields[at as int].name);
        }
        fresh_keys_go_behind(earlier, fields[at as int].name.id, values[at as int].at);
        assert(paired_upto(fields, values, upto) =~= Seq::new(
            upto,
            |i: int| (fields[i].name.id, values[i].at),
        ));
    } else {
        assert(paired_upto(fields, values, upto) =~= Seq::new(
            upto,
            |i: int| (fields[i].name.id, values[i].at),
        ));
    }
}

} // verus!
