//! Laws of type matching: what a type takes is decided by what it is made of.

use crate::ast::{ExpressionPart, KLiteral};
use crate::ktype::{children, precedes, rank, Field, KKind, KType, TypeNode, TypeRegistry};
use crate::matching::cell_named;
use crate::region::RegionView;
use crate::value::{Carried, Cell, Entry, KKey, ObjId, ObjectView};
use vstd::prelude::*;

verus! {

/// The top type takes everything but a name that stands for no type yet; a kind takes exactly the
/// types of that kind, and the kind of all types takes every type.
pub proof fn tops_take_everything_of_their_sort(
    types: &TypeRegistry,
    region: RegionView,
    carried: Carried,
    kind: KKind,
)
    ensures
        types.accepts(region, KType::Any, carried) <==> carried is Object || carried is Type,
        types.accepts(region, KType::OfKind(KKind::ProperType), carried) <==> carried is Type,
        kind != KKind::ProperType ==> (types.accepts(region, KType::OfKind(kind), carried)
            <==> carried is Type && types.kind(carried->Type_0) == kind),
{
}

/// A scalar type takes exactly the scalars of its own kind.
pub proof fn scalars_take_their_own_values(types: &TypeRegistry, region: RegionView, id: ObjId)
    ensures
        region.object(id) is Number ==> types.inhabits(region, KType::Number, id)
            && !types.inhabits(region, KType::Str, id) && !types.inhabits(region, KType::Bool, id)
            && !types.inhabits(region, KType::Null, id) && !types.inhabits(
            region,
            KType::KExpression,
            id,
        ),
        region.object(id) is Str ==> types.inhabits(region, KType::Str, id) && !types.inhabits(
            region,
            KType::Number,
            id,
        ) && !types.inhabits(region, KType::Bool, id) && !types.inhabits(region, KType::Null, id)
            && !types.inhabits(region, KType::KExpression, id),
        region.object(id) is Bool ==> types.inhabits(region, KType::Bool, id) && !types.inhabits(
            region,
            KType::Number,
            id,
        ) && !types.inhabits(region, KType::Str, id) && !types.inhabits(region, KType::Null, id)
            && !types.inhabits(region, KType::KExpression, id),
        region.object(id) is Null ==> types.inhabits(region, KType::Null, id) && !types.inhabits(
            region,
            KType::Number,
            id,
        ) && !types.inhabits(region, KType::Str, id) && !types.inhabits(region, KType::Bool, id)
            && !types.inhabits(region, KType::KExpression, id),
        region.object(id) is KExpression ==> types.inhabits(region, KType::KExpression, id)
            && !types.inhabits(region, KType::Number, id) && !types.inhabits(region, KType::Str, id)
            && !types.inhabits(region, KType::Bool, id) && !types.inhabits(region, KType::Null, id),
        forall|carried: Carried|
            !(carried is Object) ==> !(#[trigger] types.accepts(region, KType::Number, carried)),
        forall|carried: Carried|
            !(carried is Object) ==> !(#[trigger] types.accepts(region, KType::Str, carried)),
        forall|carried: Carried|
            !(carried is Object) ==> !(#[trigger] types.accepts(region, KType::Bool, carried)),
{
}

proof fn some_member(
    types: &TypeRegistry,
    region: RegionView,
    members: Seq<KType>,
    below: nat,
    carried: Carried,
)
    requires
        forall|k: int| 0 <= k < members.len() ==> rank(#[trigger] members[k]) < below,
    ensures
        types.any_accepts(region, members, below, carried) <==> exists|k: int|
            0 <= k < members.len() && types.accepts(region, #[trigger] members[k], carried),
    decreases members.len(),
{
    if members.len() > 0 {
        let rest = members.drop_last();
        assert forall|k: int| 0 <= k < rest.len() implies rank(#[trigger] rest[k]) < below by {
            assert(rest[k] == members[k]);
        }
        some_member(types, region, rest, below, carried);
        let last = members.len() - 1;
        assert(rank(members[last]) < below);
        if types.any_accepts(region, rest, below, carried) {
            let k = choose|k: int|
                0 <= k < rest.len() && types.accepts(region, #[trigger] rest[k], carried);
            assert(types.accepts(region, members[k], carried));
        } else if types.accepts(region, members.last(), carried) {
            assert(types.accepts(region, members[last], carried));
        } else {
            assert forall|k: int| 0 <= k < members.len() implies !types.accepts(
                region,
                #[trigger] members[k],
                carried,
            ) by {
                if k < last {
                    assert(rest[k] == members[k]);
                }
            }
        }
    }
}

/// A union takes exactly what one of its members takes.
pub proof fn unions_take_what_a_member_takes(
    types: &TypeRegistry,
    region: RegionView,
    kt: KType,
    members: Seq<KType>,
    carried: Carried,
)
    requires
        types.wf(),
        types.node_of(kt) matches Some(TypeNode::Union { members: own }) && own@ == members,
    ensures
        types.accepts(region, kt, carried) <==> exists|k: int|
            0 <= k < members.len() && types.accepts(region, #[trigger] members[k], carried),
{
    let at = kt->Node_0 as int;
    assert forall|k: int| 0 <= k < members.len() implies rank(#[trigger] members[k]) < rank(
        kt,
    ) by {
        assert(precedes(children(types.nodes@[at])[k], at));
    }
    some_member(types, region, members, rank(kt), carried);
}

proof fn every_item(
    types: &TypeRegistry,
    region: RegionView,
    element: KType,
    below: nat,
    items: Seq<Carried>,
)
    requires
        rank(element) < below,
    ensures
        types.accepts_all(region, element, below, items) <==> forall|k: int|
            0 <= k < items.len() ==> types.accepts(region, element, #[trigger] items[k]),
    decreases items.len(),
{
    if items.len() > 0 {
        let rest = items.drop_last();
        every_item(types, region, element, below, rest);
        let last = items.len() - 1;
        if types.accepts_all(region, element, below, rest) {
            assert forall|k: int| 0 <= k < last implies types.accepts(
                region,
                element,
                #[trigger] items[k],
            ) by {
                assert(rest[k] == items[k]);
            }
            assert(items[last] == items.last());
        } else {
            let k = choose|k: int|
                0 <= k < rest.len() && !types.accepts(region, element, #[trigger] rest[k]);
            assert(!types.accepts(region, element, items[k]));
        }
    }
}

/// A list type takes exactly the lists all of whose items its element type takes.
pub proof fn list_types_take_every_item(
    types: &TypeRegistry,
    region: RegionView,
    kt: KType,
    element: KType,
    carried: Carried,
)
    requires
        types.wf(),
        types.node_of(kt) == Some(TypeNode::List { element }),
    ensures
        types.accepts(region, kt, carried) <==> carried is Object && (region.object(
            carried->Object_0,
        ) matches ObjectView::List { items, .. } && forall|k: int|
            0 <= k < items.len() ==> types.accepts(region, element, #[trigger] items[k])),
{
    let at = kt->Node_0 as int;
    assert(children(types.nodes@[at])[0] == element);
    assert(precedes(children(types.nodes@[at])[0], at));
    if let Carried::Object(id) = carried {
        if let ObjectView::List { items, .. } = region.object(id) {
            every_item(types, region, element, rank(kt), items);
        }
    }
}

/// Whether a type of keys takes a key.
pub open spec fn takes_key(kt: KType, key: KKey) -> bool {
    kt == KType::Any || match key {
        KKey::String(_) => kt == KType::Str,
        KKey::Number(_) => kt == KType::Number,
        KKey::Bool(_) => kt == KType::Bool,
    }
}

proof fn every_entry(
    types: &TypeRegistry,
    region: RegionView,
    key: KType,
    value: KType,
    below: nat,
    entries: Seq<Entry>,
)
    requires
        rank(value) < below,
    ensures
        types.accepts_entries(region, key, value, below, entries) <==> forall|k: int|
            0 <= k < entries.len() ==> takes_key(key, (#[trigger] entries[k]).key) && types.accepts(
                region,
                value,
                entries[k].value,
            ),
    decreases entries.len(),
{
    if entries.len() > 0 {
        let rest = entries.drop_last();
        every_entry(types, region, key, value, below, rest);
        let last = entries.len() - 1;
        if types.accepts_entries(region, key, value, below, rest) {
            assert forall|k: int| 0 <= k < last implies takes_key(key, (#[trigger] entries[k]).key)
                && types.accepts(region, value, entries[k].value) by {
                assert(rest[k] == entries[k]);
            }
            assert(entries[last] == entries.last());
        } else {
            let k = choose|k: int|
                0 <= k < rest.len() && !(takes_key(key, (#[trigger] rest[k]).key) && types.accepts(
                    region,
                    value,
                    rest[k].value,
                ));
            assert(entries[k] == rest[k]);
        }
    }
}

/// A dict type takes exactly the dicts all of whose keys and values its two types take.
pub proof fn dict_types_take_every_entry(
    types: &TypeRegistry,
    region: RegionView,
    kt: KType,
    key: KType,
    value: KType,
    carried: Carried,
)
    requires
        types.wf(),
        types.node_of(kt) == Some(TypeNode::Dict { key, value }),
    ensures
        types.accepts(region, kt, carried) <==> carried is Object && (region.object(
            carried->Object_0,
        ) matches ObjectView::Dict { entries, .. } && forall|k: int|
            0 <= k < entries.len() ==> takes_key(key, (#[trigger] entries[k]).key) && types.accepts(
                region,
                value,
                entries[k].value,
            )),
{
    let at = kt->Node_0 as int;
    assert(children(types.nodes@[at])[1] == value);
    assert(precedes(children(types.nodes@[at])[1], at));
    if let Carried::Object(id) = carried {
        if let ObjectView::Dict { entries, .. } = region.object(id) {
            every_entry(types, region, key, value, rank(kt), entries);
        }
    }
}

/// Whether the first cell under the name of a field holds what the field takes.
pub open spec fn field_is_met(
    types: &TypeRegistry,
    region: RegionView,
    field: Field,
    cells: Seq<Cell>,
) -> bool {
    exists|c: int|
        {
            &&& 0 <= c < cells.len()
            &&& (#[trigger] cells[c]).name == field.name
            &&& forall|j: int| 0 <= j < c ==> (#[trigger] cells[j]).name != field.name
            &&& types.accepts(region, field.ktype, cells[c].value)
        }
}

proof fn first_cell(cells: Seq<Cell>, field: Field)
    ensures
        match cell_named(cells, field.name) {
            Some(value) => exists|c: int|
                {
                    &&& 0 <= c < cells.len()
                    &&& (#[trigger] cells[c]).name == field.name
                    &&& cells[c].value == value
                    &&& forall|j: int| 0 <= j < c ==> (#[trigger] cells[j]).name != field.name
                },
            None => forall|j: int|
                0 <= j < cells.len() ==> (#[trigger] cells[j]).name != field.name,
        },
    decreases cells.len(),
{
    if cells.len() > 0 && cells[0].name != field.name {
        let rest = cells.drop_first();
        first_cell(rest, field);
        match cell_named(rest, field.name) {
            Some(value) => {
                let c = choose|c: int|
                    {
                        &&& 0 <= c < rest.len()
                        &&& (#[trigger] rest[c]).name == field.name
                        &&& rest[c].value == value
                        &&& forall|j: int|
                            0 <= j < c ==> (#[trigger] rest[j]).name != field.name
                    };
                assert(cells[c + 1] == rest[c]);
                assert forall|j: int| 0 <= j < c + 1 implies (#[trigger] cells[j]).name
                    != field.name by {
                    if j > 0 {
                        assert(cells[j] == rest[j - 1]);
                    }
                }
            },
            None => {
                assert forall|j: int| 0 <= j < cells.len() implies (#[trigger] cells[j]).name
                    != field.name by {
                    if j > 0 {
                        assert(cells[j] == rest[j - 1]);
                    }
                }
            },
        }
    }
}

proof fn every_field(
    types: &TypeRegistry,
    region: RegionView,
    fields: Seq<Field>,
    below: nat,
    cells: Seq<Cell>,
)
    requires
        forall|f: int| 0 <= f < fields.len() ==> rank((#[trigger] fields[f]).ktype) < below,
    ensures
        types.accepts_fields(region, fields, below, cells) <==> forall|f: int|
            0 <= f < fields.len() ==> field_is_met(types, region, #[trigger] fields[f], cells),
    decreases fields.len(),
{
    if fields.len() > 0 {
        let rest = fields.drop_last();
        assert forall|f: int| 0 <= f < rest.len() implies rank((#[trigger] rest[f]).ktype)
            < below by {
            assert(rest[f] == fields[f]);
        }
        every_field(types, region, rest, below, cells);
        let last = fields.len() - 1;
        first_cell(cells, fields[last]);
        let own = match cell_named(cells, fields[last].name) {
            Some(value) => types.accepts(region, fields[last].ktype, value),
            None => false,
        };
        assert(own == field_is_met(types, region, fields[last], cells)) by {
            if field_is_met(types, region, fields[last], cells) {
                let c = choose|c: int|
                    {
                        &&& 0 <= c < cells.len()
                        &&& (#[trigger] cells[c]).name == fields[last].name
                        &&& forall|j: int|
                            0 <= j < c ==> (#[trigger] cells[j]).name != fields[last].name
                        &&& types.accepts(region, fields[last].ktype, cells[c].value)
                    };
                let d = choose|d: int|
                    {
                        &&& 0 <= d < cells.len()
                        &&& (#[trigger] cells[d]).name == fields[last].name
                        &&& Some(cells[d].value) == cell_named(cells, fields[last].name)
                        &&& forall|j: int|
                            0 <= j < d ==> (#[trigger] cells[j]).name != fields[last].name
                    };
                if c < d {
                    assert(cells[c].name != fields[last].name);
                } else if d < c {
                    assert(cells[d].name != fields[last].name);
                }
            }
        }
        if types.accepts_fields(region, rest, below, cells) {
            assert forall|f: int| 0 <= f < last implies field_is_met(
                types,
                region,
                #[trigger] fields[f],
                cells,
            ) by {
                assert(rest[f] == fields[f]);
            }
        } else {
            let f = choose|f: int|
                0 <= f < rest.len() && !field_is_met(types, region, #[trigger] rest[f], cells);
            assert(!field_is_met(types, region, fields[f], cells));
        }
    }
}

/// A record type takes exactly the records that hold, under the name of each of its fields, a value
/// that the field takes. Further cells are no matter.
pub proof fn record_types_take_every_field(
    types: &TypeRegistry,
    region: RegionView,
    kt: KType,
    fields: Seq<Field>,
    carried: Carried,
)
    requires
        types.wf(),
        types.node_of(kt) matches Some(TypeNode::Record { fields: own }) && own@ == fields,
    ensures
        types.accepts(region, kt, carried) <==> carried is Object && (region.object(
            carried->Object_0,
        ) matches ObjectView::Record { fields: cells, .. } && forall|f: int|
            0 <= f < fields.len() ==> field_is_met(types, region, #[trigger] fields[f], cells)),
{
    let at = kt->Node_0 as int;
    assert forall|f: int| 0 <= f < fields.len() implies rank((#[trigger] fields[f]).ktype) < rank(
        kt,
    ) by {
        assert(children(types.nodes@[at])[f] == fields[f].ktype);
        assert(precedes(children(types.nodes@[at])[f], at));
    }
    if let Carried::Object(id) = carried {
        if let ObjectView::Record { fields: cells, .. } = region.object(id) {
            every_field(types, region, fields, rank(kt), cells);
        }
    }
}

/// A nominal type takes exactly the objects that carry it as their own type.
pub proof fn nominal_types_take_their_own_values(
    types: &TypeRegistry,
    region: RegionView,
    kt: KType,
    id: ObjId,
)
    requires
        types.node_of(kt) is Some,
        types.node_of(kt)->0 is SetMember,
    ensures
        region.object(id) matches ObjectView::Wrapped { type_id, .. } ==> (types.inhabits(
            region,
            kt,
            id,
        ) <==> type_id == kt),
        region.object(id) matches ObjectView::Struct { identity, .. } ==> (types.inhabits(
            region,
            kt,
            id,
        ) <==> identity == kt),
        region.object(id) is Number ==> !types.inhabits(region, kt, id),
        region.object(id) is Str ==> !types.inhabits(region, kt, id),
        forall|held: KType| !(#[trigger] types.accepts(region, kt, Carried::Type(held))),
{
}

proof fn some_member_takes(
    types: &TypeRegistry,
    members: Seq<KType>,
    below: nat,
    part: ExpressionPart,
)
    requires
        forall|k: int| 0 <= k < members.len() ==> rank(#[trigger] members[k]) < below,
    ensures
        types.any_takes_part(members, below, part) <==> exists|k: int|
            0 <= k < members.len() && types.takes_part(#[trigger] members[k], part),
    decreases members.len(),
{
    if members.len() > 0 {
        let rest = members.drop_last();
        assert forall|k: int| 0 <= k < rest.len() implies rank(#[trigger] rest[k]) < below by {
            assert(rest[k] == members[k]);
        }
        some_member_takes(types, rest, below, part);
        let last = members.len() - 1;
        assert(rank(members[last]) < below);
        if types.any_takes_part(rest, below, part) {
            let k = choose|k: int|
                0 <= k < rest.len() && types.takes_part(#[trigger] rest[k], part);
            assert(types.takes_part(members[k], part));
        } else if types.takes_part(members.last(), part) {
            assert(types.takes_part(members[last], part));
        } else {
            assert forall|k: int| 0 <= k < members.len() implies !types.takes_part(
                #[trigger] members[k],
                part,
            ) by {
                if k < last {
                    assert(rest[k] == members[k]);
                }
            }
        }
    }
}

/// A part that is not evaluated yet is taken by its shape: a literal by the type of that literal, a
/// name by the types of names, code by the type of code, an aggregate by the types of such
/// aggregates, and by a union exactly when a member takes it. The top type takes every part but
/// keywords and type expressions.
pub proof fn parts_are_taken_by_their_shape(
    types: &TypeRegistry,
    kt: KType,
    members: Seq<KType>,
    part: ExpressionPart,
)
    requires
        types.wf(),
    ensures
        types.takes_part(KType::Number, part) <==> (part matches ExpressionPart::Literal(
            KLiteral::Number(_),
        )),
        types.takes_part(KType::Str, part) <==> (part matches ExpressionPart::Literal(
            KLiteral::Str(_),
        )),
        types.takes_part(KType::Bool, part) <==> (part matches ExpressionPart::Literal(
            KLiteral::Bool(_),
        )),
        types.takes_part(KType::Null, part) <==> part == ExpressionPart::Literal(KLiteral::Null),
        types.takes_part(KType::Identifier, part) <==> part is Identifier,
        types.takes_part(KType::TypeNameToken, part) <==> part is Type,
        types.takes_part(KType::NameToken, part) <==> part is Identifier || part is Type,
        types.takes_part(KType::OfKind(KKind::ProperType), part) <==> part is Type,
        types.takes_part(KType::KExpression, part) <==> part is Expression
            || part is QuotedExpression,
        types.takes_part(KType::SigiledTypeExpr, part) <==> part is SigiledTypeExpr,
        types.takes_part(KType::RecordType, part) <==> part is RecordType,
        types.takes_part(KType::Any, part) <==> !(part is Keyword || part is SigiledTypeExpr
            || part is RecordType),
        types.node_of(kt) matches Some(TypeNode::List { .. }) ==> (types.takes_part(kt, part)
            <==> part is ListLiteral),
        types.node_of(kt) matches Some(TypeNode::Dict { .. }) ==> (types.takes_part(kt, part)
            <==> part is DictLiteral),
        types.node_of(kt) matches Some(TypeNode::Record { .. }) ==> (types.takes_part(kt, part)
            <==> part is RecordLiteral),
        types.node_of(kt) matches Some(TypeNode::SetMember { .. }) ==> !types.takes_part(kt, part),
        types.node_of(kt) matches Some(TypeNode::Union { members: own }) ==> (own@ == members ==> (
        types.takes_part(kt, part) <==> exists|k: int|
            0 <= k < members.len() && types.takes_part(#[trigger] members[k], part))),
{
    if let Some(TypeNode::Union { members: own }) = types.node_of(kt) {
        if own@ == members {
            let at = kt->Node_0 as int;
            assert forall|k: int| 0 <= k < members.len() implies rank(#[trigger] members[k])
                < rank(kt) by {
                assert(precedes(children(types.nodes@[at])[k], at));
            }
            some_member_takes(types, members, rank(kt), part);
        }
    }
}

/// Whether a type is `member`, or a union with that member.
pub open spec fn is_or_holds(types: &TypeRegistry, kt: KType, member: KType) -> bool {
    kt == member || (types.node_of(kt) matches Some(TypeNode::Union { members })
        && members@.contains(member))
}

/// A name is captured as it stands exactly by a type that is, or has for a member, the type of such
/// names, and the narrower of the two types of names goes first. A type expression is captured by
/// the type of such expressions, and nothing else is captured.
pub proof fn names_are_captured_by_types_of_names(
    types: &TypeRegistry,
    kt: KType,
    part: ExpressionPart,
)
    ensures
        part is Identifier ==> types.capturing_member(kt, part) == if is_or_holds(
            types,
            kt,
            KType::Identifier,
        ) {
            Some(KType::Identifier)
        } else if is_or_holds(types, kt, KType::NameToken) {
            Some(KType::NameToken)
        } else {
            None
        },
        part is Type ==> types.capturing_member(kt, part) == if is_or_holds(
            types,
            kt,
            KType::TypeNameToken,
        ) {
            Some(KType::TypeNameToken)
        } else if is_or_holds(types, kt, KType::NameToken) {
            Some(KType::NameToken)
        } else {
            None
        },
        part is SigiledTypeExpr ==> (types.capturing_member(kt, part) is Some <==> is_or_holds(
            types,
            kt,
            KType::SigiledTypeExpr,
        )),
        part is RecordType ==> (types.capturing_member(kt, part) is Some <==> is_or_holds(
            types,
            kt,
            KType::RecordType,
        )),
        !(part is Identifier || part is Type || part is SigiledTypeExpr || part is RecordType)
            ==> types.capturing_member(kt, part) is None,
{
}

} // verus!
