//! Laws of construction: what is built holds the very values that were supplied, each under its own
//! name, and carries the identity that was asked for.

use crate::decide::constructors::{constructed, fills_field, paired};
use crate::error::{ErrorKindView, ErrorView};
use crate::ktype::{Field, KType, TypeNode, TypeRegistry};
use crate::matching::{cell_named, field_named};
use crate::outcome::CtorView;
use crate::region::RegionView;
use crate::symbol::{Labels, Symbol};
use crate::value::{Carried, Cell, ObjId, ObjectView};
use vstd::prelude::*;

verus! {

/// Whether `carried` is an object of `after` that was not one of `before`, all of whose objects are
/// kept.
pub open spec fn newly_stored(before: RegionView, after: RegionView, carried: Carried) -> bool {
    carried matches Carried::Object(id) && before.objects.len() <= id.at < after.objects.len()
        && before.objects.is_prefix_of(after.objects) && after.nodes == before.nodes
}

/// Whether `carried` is a wrapper of `type_id` around `inner`.
pub open spec fn is_wrapper(
    region: RegionView,
    carried: Carried,
    inner: ObjId,
    type_id: KType,
) -> bool {
    carried matches Carried::Object(id) && region.object(id) == ObjectView::Wrapped {
        inner,
        type_id,
    }
}

/// A record that is built holds one cell per supplied value, in the order they were supplied, each
/// under the name at its own place; the value around it carries the identity that was asked for.
/// Looking up a name that stands once gives the value at its place.
pub proof fn records_hold_each_value_under_its_name(
    before: &TypeRegistry,
    after: &TypeRegistry,
    labels: &Labels,
    region: RegionView,
    identity: KType,
    names: Seq<Symbol>,
    values: Seq<Carried>,
    result: (Result<Carried, ErrorView>, RegionView),
)
    requires
        constructed(
            before,
            after,
            labels,
            region,
            CtorView::RecordNewType { identity, field_names: names },
            values,
            result,
        ),
        names.len() == values.len(),
        region.objects.len() + 2 <= usize::MAX,
        result.0 is Ok,
    ensures
        newly_stored(region, result.1, result.0->Ok_0),
        exists|inner: ObjId|
            {
                &&& #[trigger] is_wrapper(result.1, result.0->Ok_0, inner, identity)
                &&& result.1.object(inner) is Record
                &&& result.1.object(inner)->Record_fields.len() == names.len()
                &&& forall|i: int|
                    0 <= i < names.len() ==> (
                    #[trigger] result.1.object(inner)->Record_fields[i]).name == names[i]
                        && result.1.object(inner)->Record_fields[i].value == values[i]
                &&& names.no_duplicates() ==> forall|i: int|
                    0 <= i < names.len() ==> cell_named(
                        result.1.object(inner)->Record_fields,
                        #[trigger] names[i],
                    ) == Some(values[i])
            },
{
    let inner = region.next_object();
    assert(region.objects =~= result.1.objects.take(region.objects.len() as int));
    assert(is_wrapper(result.1, result.0->Ok_0, inner, identity));
    let fields = result.1.object(inner)->Record_fields;
    assert forall|i: int| names.no_duplicates() && 0 <= i < names.len() implies cell_named(
        fields,
        #[trigger] names[i],
    ) == Some(values[i]) by {
        cells_are_found_by_name(fields, i);
    }
}

proof fn cells_are_found_by_name(cells: Seq<Cell>, i: int)
    requires
        0 <= i < cells.len(),
        forall|a: int, b: int|
            0 <= a < b < cells.len() ==> (#[trigger] cells[a]).name != (#[trigger] cells[b]).name,
    ensures
        cell_named(cells, cells[i].name) == Some(cells[i].value),
    decreases cells.len(),
{
    if i > 0 {
        assert(cells[0].name != cells[i].name);
        let rest = cells.drop_first();
        assert forall|a: int, b: int| 0 <= a < b < rest.len() implies (#[trigger] rest[a]).name != (
        #[trigger] rest[b]).name by {
            assert(cells[a + 1].name != cells[b + 1].name);
        }
        cells_are_found_by_name(rest, i - 1);
    }
}

/// A record is refused exactly when some field of the representation has no supplied value that its
/// type takes, and nothing is stored then.
pub proof fn records_fill_their_representation(
    before: &TypeRegistry,
    after: &TypeRegistry,
    labels: &Labels,
    region: RegionView,
    identity: KType,
    names: Seq<Symbol>,
    values: Seq<Carried>,
    result: (Result<Carried, ErrorView>, RegionView),
    fields: Seq<Field>,
)
    requires
        constructed(
            before,
            after,
            labels,
            region,
            CtorView::RecordNewType { identity, field_names: names },
            values,
            result,
        ),
        names.len() == values.len(),
        names.no_duplicates(),
        after.repr_of(identity) is Some,
        after.node_of(after.repr_of(identity)->0) matches Some(TypeNode::Record { fields: own })
            && own@ == fields,
    ensures
        result.0 is Ok <==> forall|f: int|
            0 <= f < fields.len() ==> #[trigger] is_supplied(
                after,
                region,
                fields[f],
                names,
                values,
            ),
        result.0 is Err ==> result.1 == region && result.0->Err_0.kind is TypeMismatch,
{
    let cells = Seq::new(names.len(), |i: int| Cell { name: names[i], value: values[i] });
    assert(cells =~= paired(names, values));
    assert forall|f: int|
        #![trigger is_supplied(after, region, fields[f], names, values)]
        #![trigger fills_field(after, region, fields[f], cells)]
        0 <= f < fields.len() implies is_supplied(after, region, fields[f], names, values)
        == fills_field(after, region, fields[f], cells) by {
        found_among(cells, fields[f].name);
        if is_supplied(after, region, fields[f], names, values) {
            let i = choose|i: int|
                0 <= i < names.len() && #[trigger] names[i] == fields[f].name && after.accepts(
                    region,
                    fields[f].ktype,
                    values[i],
                );
            cells_are_found_by_name(cells, i);
        }
        if let Some(value) = cell_named(cells, fields[f].name) {
            let i = choose|i: int|
                0 <= i < cells.len() && (#[trigger] cells[i]).name == fields[f].name
                    && cells[i].value == value;
            assert(names[i] == fields[f].name);
        }
    }
}

/// Whether a value is supplied under the name of `field` that its type takes.
pub open spec fn is_supplied(
    types: &TypeRegistry,
    region: RegionView,
    field: Field,
    names: Seq<Symbol>,
    values: Seq<Carried>,
) -> bool {
    exists|i: int|
        0 <= i < names.len() && #[trigger] names[i] == field.name && types.accepts(
            region,
            field.ktype,
            values[i],
        )
}

proof fn found_among(cells: Seq<Cell>, name: Symbol)
    ensures
        match cell_named(cells, name) {
            Some(value) => exists|i: int|
                0 <= i < cells.len() && (#[trigger] cells[i]).name == name && cells[i].value
                    == value,
            None => forall|i: int| 0 <= i < cells.len() ==> (#[trigger] cells[i]).name != name,
        },
    decreases cells.len(),
{
    if cells.len() > 0 && cells[0].name != name {
        let rest = cells.drop_first();
        found_among(rest, name);
        match cell_named(rest, name) {
            Some(value) => {
                let i = choose|i: int|
                    0 <= i < rest.len() && (#[trigger] rest[i]).name == name && rest[i].value
                        == value;
                assert(cells[i + 1].name == name);
            },
            None => {
                assert forall|i: int| 0 <= i < cells.len() implies (#[trigger] cells[i]).name
                    != name by {
                    if i > 0 {
                        assert(cells[i] == rest[i - 1]);
                    }
                }
            },
        }
    }
}

/// A wrapper of a new type is built exactly from a value of its representation. It holds that very
/// value; where the representation is itself a wrapper type, what that wrapper holds.
pub proof fn new_types_wrap_what_they_are_given(
    before: &TypeRegistry,
    after: &TypeRegistry,
    labels: &Labels,
    region: RegionView,
    identity: KType,
    value: ObjId,
    result: (Result<Carried, ErrorView>, RegionView),
)
    requires
        constructed(
            before,
            after,
            labels,
            region,
            CtorView::NewType { identity },
            seq![Carried::Object(value)],
            result,
        ),
        before.repr_of(identity) is Some,
        region.objects.len() < usize::MAX,
    ensures
        after.nodes@ == before.nodes@,
        result.0 is Ok <==> before.inhabits(region, before.repr_of(identity)->0, value),
        result.0 is Err ==> result.1 == region && result.0->Err_0.kind == (
        ErrorKindView::TypeMismatch {
            arg: "value"@,
            expected: before.name_text(labels, before.repr_of(identity)->0),
            got: before.name_text(labels, region.object(value).ktype()),
        }),
        result.0 is Ok ==> newly_stored(region, result.1, result.0->Ok_0),
        result.0 is Ok && !(region.object(value) matches ObjectView::Wrapped { type_id, .. }
            && type_id == before.repr_of(identity)->0) ==> is_wrapper(
            result.1,
            result.0->Ok_0,
            value,
            identity,
        ),
        result.0 is Ok ==> (region.object(value) matches ObjectView::Wrapped { inner, type_id }
            ==> (type_id == before.repr_of(identity)->0 ==> is_wrapper(
            result.1,
            result.0->Ok_0,
            inner,
            identity,
        ))),
{
    assert(seq![Carried::Object(value)][0] == Carried::Object(value));
    if result.0 is Ok {
        assert(region.objects =~= result.1.objects.take(region.objects.len() as int));
    }
}

/// A tagged value is built exactly when the schema has the tag and the type under it takes the
/// value. It carries that tag, that very value and the member that was asked for.
pub proof fn tagged_values_carry_their_own_tag(
    before: &TypeRegistry,
    after: &TypeRegistry,
    labels: &Labels,
    region: RegionView,
    schema: Seq<Field>,
    member: KType,
    tag: Symbol,
    value: ObjId,
    result: (Result<Carried, ErrorView>, RegionView),
)
    requires
        constructed(
            before,
            after,
            labels,
            region,
            CtorView::Tagged { schema, member, tag },
            seq![Carried::Object(value)],
            result,
        ),
        region.objects.len() < usize::MAX,
    ensures
        after.nodes@ == before.nodes@,
        (forall|i: int| 0 <= i < schema.len() ==> (#[trigger] schema[i]).name != tag)
            ==> result.0 is Err && result.0->Err_0.kind is ShapeError,
        forall|i: int|
            0 <= i < schema.len() && (#[trigger] schema[i]).name == tag && (forall|j: int|
                0 <= j < i ==> (#[trigger] schema[j]).name != tag) ==> (result.0 is Ok
                <==> before.inhabits(region, schema[i].ktype, value)) && (result.0 is Err
                ==> result.0->Err_0.kind == (ErrorKindView::TypeMismatch {
                arg: "value"@,
                expected: before.name_text(labels, schema[i].ktype),
                got: before.name_text(labels, region.object(value).ktype()),
            })),
        result.0 is Err ==> result.1 == region,
        result.0 is Ok ==> newly_stored(region, result.1, result.0->Ok_0) && (
        result.0->Ok_0 matches Carried::Object(id) && result.1.object(id) == (ObjectView::Tagged {
            tag,
            value,
            identity: member,
        })),
{
    assert(seq![Carried::Object(value)][0] == Carried::Object(value));
    fields_are_found_in_order(schema, tag);
    if result.0 is Ok {
        assert(region.objects =~= result.1.objects.take(region.objects.len() as int));
    }
}

/// Looking up a name among fields gives the type of the first field under it.
pub proof fn fields_are_found_in_order(fields: Seq<Field>, name: Symbol)
    ensures
        field_named(fields, name) is None <==> forall|i: int|
            0 <= i < fields.len() ==> (#[trigger] fields[i]).name != name,
        forall|i: int|
            0 <= i < fields.len() && (#[trigger] fields[i]).name == name && (forall|j: int|
                0 <= j < i ==> (#[trigger] fields[j]).name != name) ==> field_named(fields, name)
                == Some(fields[i].ktype),
    decreases fields.len(),
{
    if fields.len() > 0 {
        let rest = fields.drop_first();
        fields_are_found_in_order(rest, name);
        assert forall|i: int|
            0 <= i < fields.len() && (#[trigger] fields[i]).name == name && (forall|j: int|
                0 <= j < i ==> (#[trigger] fields[j]).name != name) implies field_named(
            fields,
            name,
        ) == Some(fields[i].ktype) by {
            if i > 0 {
                assert(fields[0].name != name);
                assert(rest[i - 1] == fields[i]);
                assert forall|j: int| 0 <= j < i - 1 implies (#[trigger] rest[j]).name != name by {
                    assert(fields[j + 1].name != name);
                }
            }
        }
        if fields[0].name != name {
            if field_named(rest, name) is None {
                assert forall|i: int| 0 <= i < fields.len() implies (#[trigger] fields[i]).name
                    != name by {
                    if i > 0 {
                        assert(fields[i] == rest[i - 1]);
                    }
                }
            } else {
                let k = choose|k: int| 0 <= k < rest.len() && (#[trigger] rest[k]).name == name;
                assert(fields[k + 1].name == name);
            }
        }
    }
}

/// A constructor that is applied wraps what it was given, under a type made of that constructor and
/// the type of the value for its sole argument.
pub proof fn applied_constructors_wrap_what_they_are_given(
    before: &TypeRegistry,
    after: &TypeRegistry,
    labels: &Labels,
    region: RegionView,
    constructor: KType,
    value: ObjId,
    result: (Result<Carried, ErrorView>, RegionView),
)
    requires
        constructed(
            before,
            after,
            labels,
            region,
            CtorView::ApplyConstructor { constructor },
            seq![Carried::Object(value)],
            result,
        ),
        region.objects.len() < usize::MAX,
    ensures
        result.0 is Ok,
        newly_stored(region, result.1, result.0->Ok_0),
        exists|applied: KType|
            {
                &&& is_wrapper(
                    result.1,
                    result.0->Ok_0,
                    match region.object(value) {
                        ObjectView::Wrapped { inner, .. } => inner,
                        _ => value,
                    },
                    applied,
                )
                &&& #[trigger] after.node_of(applied) matches Some(
                    TypeNode::ConstructorApply { constructor: head, arguments },
                ) && head == constructor && arguments@.len() == 1 && arguments@[0].ktype
                    == region.object(value).ktype()
            },
{
    assert(seq![Carried::Object(value)][0] == Carried::Object(value));
    assert(region.objects =~= result.1.objects.take(region.objects.len() as int));
}

} // verus!
