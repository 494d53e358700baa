//! Laws of structs, unions and declarations as slots build them: values go to the field of their
//! name, variants are built by the payload they declare, and a statement claims what it declares.

use crate::ast::{ExpressionPart, KeyElement, WorkingPart};
use crate::decide::constructors::ValueCell;
use crate::decide::resolve::Resolution;
use crate::dispatch::apply_callable::{
    distinct_members, schema_asks_for_the_variants_payload, union_applied, variant_schema,
};
use crate::dispatch::bare_name::{DispositionView, Standings};
use crate::dispatch::harness::Bodies;
use crate::dispatch::outcome::{ContinuationView, DepView, OutcomeView, Resume, Work};
use crate::dispatch::single_poll::{type_head_outcome, type_leaf_outcome, TypeHeadView};
use crate::dispatch::struct_value::{
    constructed, field_error, laid_out, prepared, structs_keep_declaration_order, without_named,
};
use crate::dispatch::submit::{
    all_overload_claims, all_type_claims, all_value_claims, binder_installs, chained_installs,
    submitted, SubmitContext, SubmittedWorkView,
};
use crate::error::ErrorKindView;
use crate::function::argument_named;
use crate::ktype::{Field, KType, TypeRegistry};
use crate::laws::application::{
    awaits_each, body_behind, first_of_name, first_of_variant, is_named, is_variant, payload_of,
};
use crate::laws::types::sealed;
use crate::matching::field_named;
use crate::outcome::{CtorView, FinishView, Obligation};
use crate::region::{BindKind, FieldPart, PlanId, RegionView};
use crate::scope::{
    overload_claim, type_in, LexicalFrame, OverloadState, OverloadView, ScopeLevel, TypeLookup, TypeState,
    ValueState,
};
use crate::symbol::{Labels, Symbol};
use crate::value::{Carried, ExprId, NodeId, ObjId, ProducerId};
use vstd::prelude::*;

verus! {

/// Whether no two fields of a declaration go under one name.
pub open spec fn declared_apart(fields: Seq<Field>) -> bool {
    forall|i: int, j: int|
        0 <= i < j < fields.len() ==> (#[trigger] fields[i]).name != (#[trigger] fields[j]).name
}

/// Whether no two supplied values go under one name.
pub open spec fn supplied_apart(named: Seq<FieldPart>) -> bool {
    forall|i: int, j: int|
        0 <= i < j < named.len() ==> (#[trigger] named[i]).name != (#[trigger] named[j]).name
}

proof fn removing_one(named: Seq<FieldPart>, name: Symbol)
    requires
        supplied_apart(named),
    ensures
        ({
            let left = without_named(named, name);
            &&& supplied_apart(left)
            &&& forall|k: int|
                0 <= k < left.len() ==> (#[trigger] left[k]).name != name && named.contains(left[k])
            &&& forall|k: int|
                0 <= k < named.len() && (#[trigger] named[k]).name != name ==> left.contains(
                    named[k],
                )
        }),
    decreases named.len(),
{
    let left = without_named(named, name);
    if named.len() > 0 {
        let rest = named.drop_first();
        assert forall|i: int, j: int| 0 <= i < j < rest.len() implies (#[trigger] rest[i]).name != (
        #[trigger] rest[j]).name by {
            assert(named[i + 1].name != named[j + 1].name);
        }
        removing_one(rest, name);
        if named[0].name == name {
            assert forall|k: int| 0 <= k < left.len() implies (#[trigger] left[k]).name != name
                && named.contains(left[k]) by {
                assert(named[k + 1] == left[k]);
                assert(named[0].name != named[k + 1].name);
            }
            assert forall|k: int|
                0 <= k < named.len() && (#[trigger] named[k]).name != name implies left.contains(
                named[k],
            ) by {
                assert(left[k - 1] == named[k]);
            }
        } else {
            let inner = without_named(rest, name);
            assert(left == seq![named[0]] + inner);
            assert forall|k: int| 0 <= k < left.len() implies (#[trigger] left[k]).name != name
                && named.contains(left[k]) by {
                if k == 0 {
                    assert(left[0] == named[0]);
                } else {
                    assert(left[k] == inner[k - 1]);
                    let m = choose|m: int| 0 <= m < rest.len() && rest[m] == inner[k - 1];
                    assert(named[m + 1] == left[k]);
                }
            }
            assert forall|k: int|
                0 <= k < named.len() && (#[trigger] named[k]).name != name implies left.contains(
                named[k],
            ) by {
                if k == 0 {
                    assert(left[0] == named[0]);
                } else {
                    assert(rest[k - 1] == named[k]);
                    let m = choose|m: int| 0 <= m < inner.len() && inner[m] == named[k];
                    assert(left[m + 1] == named[k]);
                }
            }
            assert forall|i: int, j: int| 0 <= i < j < left.len() implies (
            #[trigger] left[i]).name != (#[trigger] left[j]).name by {
                assert(left[j] == inner[j - 1]);
                if i > 0 {
                    assert(left[i] == inner[i - 1]);
                } else {
                    let m = choose|m: int| 0 <= m < rest.len() && rest[m] == inner[j - 1];
                    assert(named[0].name != named[m + 1].name);
                }
            }
        }
    }
}

proof fn argument_is_found(named: Seq<FieldPart>, name: Symbol)
    requires
        supplied_apart(named),
    ensures
        argument_named(named, name) is None <==> forall|k: int|
            0 <= k < named.len() ==> (#[trigger] named[k]).name != name,
        forall|k: int|
            0 <= k < named.len() && (#[trigger] named[k]).name == name ==> argument_named(
                named,
                name,
            ) == Some(named[k].value),
    decreases named.len(),
{
    if named.len() > 0 {
        let rest = named.drop_first();
        assert forall|i: int, j: int| 0 <= i < j < rest.len() implies (#[trigger] rest[i]).name != (
        #[trigger] rest[j]).name by {
            assert(named[i + 1].name != named[j + 1].name);
        }
        argument_is_found(rest, name);
        assert forall|k: int|
            0 <= k < named.len() && (#[trigger] named[k]).name == name implies argument_named(
            named,
            name,
        ) == Some(named[k].value) by {
            if k > 0 {
                assert(named[0].name != named[k].name);
                assert(rest[k - 1] == named[k]);
            }
        }
        if named[0].name != name {
            if argument_named(rest, name) is None {
                assert forall|k: int| 0 <= k < named.len() implies (#[trigger] named[k]).name
                    != name by {
                    if k > 0 {
                        assert(rest[k - 1] == named[k]);
                    }
                }
            } else {
                let k = choose|k: int| 0 <= k < rest.len() && (#[trigger] rest[k]).name == name;
                assert(named[k + 1].name == name);
            }
        }
    }
}

/// Whether some supplied value is called `name`.
pub open spec fn is_supplied(named: Seq<FieldPart>, name: Symbol) -> bool {
    exists|k: int| 0 <= k < named.len() && (#[trigger] named[k]).name == name
}

proof fn layout_follows_the_names(fields: Seq<Field>, named: Seq<FieldPart>, from: int)
    requires
        0 <= from <= fields.len(),
        declared_apart(fields),
        supplied_apart(named),
    ensures
        match laid_out(fields, named, from) {
            Ok((rest, left)) => {
                &&& rest.len() == fields.len() - from
                &&& forall|f: int, k: int|
                    from <= f < fields.len() && 0 <= k < named.len() && (
                    #[trigger] fields[f]).name == (#[trigger] named[k]).name ==> rest[f - from]
                        == named[k].value
                &&& forall|f: int|
                    from <= f < fields.len() ==> is_supplied(named, (#[trigger] fields[f]).name)
                &&& forall|k: int|
                    0 <= k < left.len() ==> named.contains(#[trigger] left[k]) && forall|f: int|
                        from <= f < fields.len() ==> (#[trigger] fields[f]).name != left[k].name
                &&& forall|k: int|
                    0 <= k < named.len() && (forall|f: int|
                        from <= f < fields.len() ==> (#[trigger] fields[f]).name != named[k].name)
                        ==> left.contains(#[trigger] named[k])
            },
            Err(missing) => exists|f: int|
                {
                    &&& from <= f < fields.len()
                    &&& (#[trigger] fields[f]).name == missing
                    &&& !is_supplied(named, missing)
                    &&& forall|g: int|
                        from <= g < f ==> is_supplied(named, (#[trigger] fields[g]).name)
                },
        },
    decreases fields.len() - from,
{
    if from < fields.len() {
        let name = fields[from].name;
        argument_is_found(named, name);
        if argument_named(named, name) is Some {
            let own = choose|k: int| 0 <= k < named.len() && (#[trigger] named[k]).name == name;
            let fewer = without_named(named, name);
            removing_one(named, name);
            layout_follows_the_names(fields, fewer, from + 1);
            assert forall|f: int| from + 1 <= f < fields.len() implies is_supplied(
                named,
                (#[trigger] fields[f]).name,
            ) == is_supplied(fewer, fields[f].name) by {
                assert(fields[from].name != fields[f].name);
                if is_supplied(named, fields[f].name) {
                    let k = choose|k: int|
                        0 <= k < named.len() && (#[trigger] named[k]).name == fields[f].name;
                    assert(fewer.contains(named[k]));
                    let m = choose|m: int| 0 <= m < fewer.len() && fewer[m] == named[k];
                    assert(fewer[m].name == fields[f].name);
                }
                if is_supplied(fewer, fields[f].name) {
                    let m = choose|m: int|
                        0 <= m < fewer.len() && (#[trigger] fewer[m]).name == fields[f].name;
                    assert(named.contains(fewer[m]));
                    let k = choose|k: int| 0 <= k < named.len() && named[k] == fewer[m];
                    assert(named[k].name == fields[f].name);
                }
            }
            match laid_out(fields, fewer, from + 1) {
                Ok((later, left)) => {
                    let rest = seq![named[own].value] + later;
                    assert(laid_out(fields, named, from) == Ok::<
                        (Seq<ExpressionPart>, Seq<FieldPart>),
                        Symbol,
                    >((rest, left)));
                    assert forall|f: int, k: int|
                        from <= f < fields.len() && 0 <= k < named.len() && (
                        #[trigger] fields[f]).name == (#[trigger] named[k]).name implies rest[f
                        - from] == named[k].value by {
                        if f == from {
                            if k < own {
                                assert(named[k].name != named[own].name);
                            } else if own < k {
                                assert(named[own].name != named[k].name);
                            }
                        } else {
                            assert(fields[from].name != fields[f].name);
                            assert(fewer.contains(named[k]));
                            let m = choose|m: int| 0 <= m < fewer.len() && fewer[m] == named[k];
                            assert(fields[f].name == fewer[m].name);
                            assert(rest[f - from] == later[f - (from + 1)]);
                        }
                    }
                    assert forall|f: int| from <= f < fields.len() implies is_supplied(
                        named,
                        (#[trigger] fields[f]).name,
                    ) by {
                        if f == from {
                            assert(named[own].name == fields[f].name);
                        }
                    }
                    assert forall|k: int| 0 <= k < left.len() implies named.contains(
                        #[trigger] left[k],
                    ) && forall|f: int|
                        from <= f < fields.len() ==> (#[trigger] fields[f]).name
                            != left[k].name by {
                        let m = choose|m: int| 0 <= m < fewer.len() && fewer[m] == left[k];
                        assert(fewer[m].name != name);
                    }
                    assert forall|k: int|
                        0 <= k < named.len() && (forall|f: int|
                            from <= f < fields.len() ==> (#[trigger] fields[f]).name
                                != named[k].name) implies left.contains(#[trigger] named[k]) by {
                        assert(fields[from].name != named[k].name);
                        assert(fewer.contains(named[k]));
                        let m = choose|m: int| 0 <= m < fewer.len() && fewer[m] == named[k];
                        assert(left.contains(fewer[m]));
                    }
                },
                Err(missing) => {
                    let f = choose|f: int|
                        {
                            &&& from + 1 <= f < fields.len()
                            &&& (#[trigger] fields[f]).name == missing
                            &&& !is_supplied(fewer, missing)
                            &&& forall|g: int|
                                from + 1 <= g < f ==> is_supplied(
                                    fewer,
                                    (#[trigger] fields[g]).name,
                                )
                        };
                    assert(!is_supplied(named, fields[f].name));
                    assert forall|g: int| from <= g < f implies is_supplied(
                        named,
                        (#[trigger] fields[g]).name,
                    ) by {
                        if g == from {
                            assert(named[own].name == fields[g].name);
                        }
                    }
                },
            }
        } else {
            assert(!is_supplied(named, name)) by {
                if is_supplied(named, name) {
                    let k = choose|k: int|
                        0 <= k < named.len() && (#[trigger] named[k]).name == name;
                    assert(named[k].name != name);
                }
            }
            assert(fields[from].name == name);
        }
    }
}

/// The values of a struct construction are laid out in the order of the declaration, each at the
/// field of its own name. It is refused exactly when a declared field has no value, the first such
/// by its name, or a value no declared field.
pub proof fn struct_values_go_to_the_field_of_their_name(
    labels: &Labels,
    fields: Seq<Field>,
    named: Seq<FieldPart>,
)
    requires
        declared_apart(fields),
        supplied_apart(named),
    ensures
        match prepared(labels, fields, Ok(named)) {
            Ok(ordered) => {
                &&& ordered.len() == fields.len()
                &&& forall|f: int, k: int|
                    0 <= f < fields.len() && 0 <= k < named.len() && (#[trigger] fields[f]).name
                        == (#[trigger] named[k]).name ==> ordered[f] == named[k].value
                &&& forall|f: int|
                    0 <= f < fields.len() ==> is_supplied(named, (#[trigger] fields[f]).name)
                &&& forall|k: int|
                    0 <= k < named.len() ==> exists|f: int|
                        0 <= f < fields.len() && (#[trigger] fields[f]).name == (
                        #[trigger] named[k]).name
            },
            Err(error) => if forall|f: int|
                0 <= f < fields.len() ==> is_supplied(named, (#[trigger] fields[f]).name) {
                error.kind is ShapeError && exists|k: int|
                    0 <= k < named.len() && forall|f: int|
                        0 <= f < fields.len() ==> (#[trigger] fields[f]).name != (
                        #[trigger] named[k]).name
            } else {
                exists|f: int|
                    {
                        &&& 0 <= f < fields.len()
                        &&& !is_supplied(named, (#[trigger] fields[f]).name)
                        &&& forall|g: int|
                            0 <= g < f ==> is_supplied(named, (#[trigger] fields[g]).name)
                        &&& error.kind == ErrorKindView::MissingArg(labels.text_of(fields[f].name))
                    }
            },
        },
{
    layout_follows_the_names(fields, named, 0);
    if let Ok((ordered, left)) = laid_out(fields, named, 0) {
        if left.len() > 0 {
            assert(named.contains(left[0]));
            let k = choose|k: int| 0 <= k < named.len() && named[k] == left[0];
            assert(forall|f: int|
                0 <= f < fields.len() ==> (#[trigger] fields[f]).name != named[k].name);
        } else {
            assert forall|k: int| 0 <= k < named.len() implies exists|f: int|
                0 <= f < fields.len() && (#[trigger] fields[f]).name == (
                #[trigger] named[k]).name by {
                if forall|f: int|
                    0 <= f < fields.len() ==> (#[trigger] fields[f]).name != named[k].name {
                    assert(left.contains(named[k]));
                }
            }
        }
    }
}

/// Whether the type of field `f` does not take its value.
pub open spec fn misfits(
    types: &TypeRegistry,
    region: RegionView,
    fields: Seq<Field>,
    values: Seq<ObjId>,
    f: int,
) -> bool {
    !types.inhabits(region, fields[f].ktype, values[f])
}

proof fn first_misfit(
    types: &TypeRegistry,
    labels: &Labels,
    region: RegionView,
    fields: Seq<Field>,
    values: Seq<ObjId>,
    from: int,
)
    requires
        0 <= from <= fields.len(),
    ensures
        match field_error(types, labels, region, fields, values, from) {
            Some(error) => exists|f: int|
                {
                    &&& from <= f < fields.len()
                    &&& #[trigger] misfits(types, region, fields, values, f)
                    &&& forall|g: int|
                        from <= g < f ==> !#[trigger] misfits(types, region, fields, values, g)
                    &&& error.kind == (ErrorKindView::TypeMismatch {
                        arg: labels.text_of(fields[f].name),
                        expected: types.name_text(labels, fields[f].ktype),
                        got: types.name_text(labels, region.object(values[f]).ktype()),
                    })
                },
            None => forall|f: int|
                from <= f < fields.len() ==> !#[trigger] misfits(types, region, fields, values, f),
        },
    decreases fields.len() - from,
{
    if from < fields.len() {
        first_misfit(types, labels, region, fields, values, from + 1);
        if types.inhabits(region, fields[from].ktype, values[from]) {
            assert(!misfits(types, region, fields, values, from));
            if let Some(error) = field_error(types, labels, region, fields, values, from + 1) {
                let f = choose|f: int|
                    {
                        &&& from + 1 <= f < fields.len()
                        &&& #[trigger] misfits(types, region, fields, values, f)
                        &&& forall|g: int|
                            from + 1 <= g < f ==> !#[trigger] misfits(
                                types,
                                region,
                                fields,
                                values,
                                g,
                            )
                        &&& error.kind == (ErrorKindView::TypeMismatch {
                            arg: labels.text_of(fields[f].name),
                            expected: types.name_text(labels, fields[f].ktype),
                            got: types.name_text(labels, region.object(values[f]).ktype()),
                        })
                    };
                assert(misfits(types, region, fields, values, f));
            }
        } else {
            assert(misfits(types, region, fields, values, from));
        }
    }
}

/// A struct is built exactly when it is given one value per field and the type of each field takes
/// its value; the error names the first that does not. It carries the identity that was asked for
/// and holds each value under the field at its own place.
pub proof fn structs_hold_each_value_under_its_field(
    types: &TypeRegistry,
    labels: &Labels,
    region: RegionView,
    identity: KType,
    fields: Seq<Field>,
    values: Seq<ObjId>,
)
    requires
        declared_apart(fields),
        fields.len() <= usize::MAX,
        values.len() <= usize::MAX,
    ensures
        match constructed(types, labels, region, identity, fields, values) {
            Ok(object) => {
                &&& values.len() == fields.len()
                &&& forall|f: int|
                    0 <= f < fields.len() ==> !#[trigger] misfits(
                        types,
                        region,
                        fields,
                        values,
                        f,
                    )
                &&& object is Struct
                &&& object->Struct_identity == identity
                &&& object->Struct_fields.len() == fields.len()
                &&& forall|f: int|
                    0 <= f < fields.len() ==> (#[trigger] object->Struct_fields[f]).name
                        == fields[f].name && object->Struct_fields[f].value == Carried::Object(
                        values[f],
                    )
            },
            Err(error) => if values.len() != fields.len() {
                error.kind matches ErrorKindView::ArityMismatch { expected, got } && expected
                    == fields.len() && got == values.len()
            } else {
                exists|f: int|
                    {
                        &&& 0 <= f < fields.len()
                        &&& #[trigger] misfits(types, region, fields, values, f)
                        &&& forall|g: int|
                            0 <= g < f ==> !#[trigger] misfits(types, region, fields, values, g)
                        &&& error.kind == (ErrorKindView::TypeMismatch {
                            arg: labels.text_of(fields[f].name),
                            expected: types.name_text(labels, fields[f].ktype),
                            got: types.name_text(labels, region.object(values[f]).ktype()),
                        })
                    }
            },
        },
{
    if values.len() == fields.len() {
        first_misfit(types, labels, region, fields, values, 0);
        structs_keep_declaration_order(fields, values, fields.len());
    }
}

/// A union in head position is given a tag alone, and is then the member of that name; or a group of
/// a tag and a value, and then a value of the member of that name is built from that very value,
/// under a schema that asks of each variant what that variant declares.
pub proof fn unions_are_built_by_the_member_that_is_named(
    types: &TypeRegistry,
    labels: &Labels,
    region: RegionView,
    members: Seq<KType>,
    expr: ExprId,
    tag: Symbol,
    inner: ExprId,
)
    requires
        distinct_members(types, members),
        region.nodes.len() < usize::MAX,
    ensures
        ({
            let body = body_behind(region.parts(expr));
            let (outcome, after) = union_applied(types, labels, region, members, expr);
            let known = exists|m: int|
                0 <= m < members.len() && #[trigger] is_named(types, members[m], tag);
            &&& body.len() == 1 && body[0].value == WorkingPart::Ast(ExpressionPart::Type(tag))
                ==> after == region && if known {
                exists|m: int|
                    {
                        &&& 0 <= m < members.len()
                        &&& #[trigger] is_named(types, members[m], tag)
                        &&& outcome == crate::outcome::OutcomeView::Done(
                            Ok(Carried::Type(members[m])),
                        )
                    }
            } else {
                outcome is Done && outcome->Done_0 is Err && outcome->Done_0->Err_0.kind
                    is ShapeError
            }
            &&& body.len() == 1 && body[0].value == WorkingPart::Ast(
                ExpressionPart::Expression(inner),
            ) && region.parts(inner).len() == 2 && region.parts(inner)[0].value == WorkingPart::Ast(
                ExpressionPart::Type(tag),
            ) ==> if known {
                exists|m: int, schema: Seq<Field>|
                    {
                        &&& 0 <= m < members.len()
                        &&& is_named(types, members[m], tag)
                        &&& forall|v: int|
                            0 <= v < members.len() && #[trigger] is_variant(
                                types,
                                members[v],
                                tag,
                            ) ==> field_named(schema, tag) == Some(payload_of(types, members[v]))
                        &&& #[trigger] awaits_each(
                            after,
                            outcome,
                            seq![region.parts(inner)[1].value],
                            FinishView::Construct(
                                CtorView::Tagged { schema, member: members[m], tag },
                            ),
                        )
                    }
            } else {
                outcome is Done && outcome->Done_0 is Err && outcome->Done_0->Err_0.kind
                    is ShapeError
            }
        }),
{
    let parts = region.parts(expr);
    let body = body_behind(parts);
    crate::laws::application::bodies_agree(parts);
    first_of_name(types, members, tag);
    first_of_variant(types, members, tag);
    schema_asks_for_the_variants_payload(types, members, tag);
    let (outcome, after) = union_applied(types, labels, region, members, expr);
    if body.len() == 1 && body[0].value == WorkingPart::Ast(ExpressionPart::Expression(inner))
        && region.parts(inner).len() == 2 && region.parts(inner)[0].value == WorkingPart::Ast(
        ExpressionPart::Type(tag),
    ) {
        let value = region.parts(inner)[1].value;
        crate::laws::application::cells_are_requested(region, seq![ValueCell::Part(value)]);
        if types.first_named(members, tag) is Some {
            let m = choose|m: int|
                {
                    &&& 0 <= m < members.len()
                    &&& #[trigger] is_named(types, members[m], tag)
                    &&& forall|j: int| 0 <= j < m ==> !#[trigger] is_named(types, members[j], tag)
                    &&& Some(members[m]) == types.first_named(members, tag)
                };
            let schema = variant_schema(types, members);
            assert forall|v: int|
                0 <= v < members.len() && #[trigger] is_variant(
                    types,
                    members[v],
                    tag,
                ) implies field_named(schema, tag) == Some(payload_of(types, members[v])) by {
                let w = choose|w: int|
                    {
                        &&& 0 <= w < members.len()
                        &&& #[trigger] is_variant(types, members[w], tag)
                        &&& Some((members[w], payload_of(types, members[w])))
                            == types.first_variant(members, tag)
                    };
                if v < w {
                    assert(types.is_member_named(members[v], tag));
                    assert(types.is_member_named(members[w], tag));
                } else if w < v {
                    assert(types.is_member_named(members[w], tag));
                    assert(types.is_member_named(members[v], tag));
                }
            }
            assert(awaits_each(
                after,
                outcome,
                seq![value],
                FinishView::Construct(CtorView::Tagged { schema, member: members[m], tag }),
            ));
        }
    }
}

/// A bare type name is its sealed type. Where it waits for a binder, a failed one hands on its error,
/// a landed one has the name tried again at once, and any other is waited for.
pub proof fn type_leaves_are_their_type(
    types: &TypeRegistry,
    levels: Seq<ScopeLevel>,
    lexical: Option<&LexicalFrame>,
    standings: &Standings,
    labels: &Labels,
    obligation: Option<Obligation>,
    name: Symbol,
)
    ensures
        ({
            let outcome = type_leaf_outcome(
                types,
                levels,
                lexical,
                standings,
                labels,
                obligation,
                name,
            );
            match sealed(types, levels, name, lexical) {
                Resolution::Resolved(cell) => outcome == OutcomeView::Done(Ok(cell)),
                Resolution::Unbound(missing) => outcome is Done && outcome->Done_0 is Err
                    && outcome->Done_0->Err_0.kind == ErrorKindView::UnboundName(
                    labels.text_of(missing),
                ),
                Resolution::Parked(source) => match standings.disposition(source, None) {
                    DispositionView::Errored(error) => outcome == OutcomeView::Done(Err(error)),
                    DispositionView::Ready => outcome is Continue && outcome->work
                        == Work::TypeLeaf(name) && outcome->obligation == obligation
                        && outcome->frame is Inherit && outcome->block_entry is Stay,
                    _ => waits_on(outcome, source, None, Resume::TypeLeaf(name)),
                },
            }
        }),
{
}

/// Whether a slot parks on one producer and then resumes.
pub open spec fn waits_on(
    outcome: OutcomeView,
    source: ProducerId,
    carrier: Option<ExprId>,
    resume: Resume,
) -> bool {
    &&& outcome is ParkThenContinue
    &&& outcome->deps.len() == 1
    &&& outcome->deps[0] == DepView::Existing(NodeId { at: source.edge })
    &&& outcome->park_count == 1
    &&& outcome->continuation == (ContinuationView::Resume { carrier, resume })
}

/// A type name in head position is applied as the type it is bound to, waits for its binder, or is
/// unbound.
pub proof fn type_heads_apply_their_type(
    levels: Seq<ScopeLevel>,
    lexical: Option<&LexicalFrame>,
    standings: &Standings,
    labels: &Labels,
    name: Symbol,
    expr: ExprId,
)
    ensures
        match type_in(levels, name, lexical) {
            Some(TypeLookup::Bound(identity)) => type_head_outcome(
                levels,
                lexical,
                standings,
                labels,
                name,
                expr,
            ) == TypeHeadView::Apply(identity),
            found => type_head_outcome(
                levels,
                lexical,
                standings,
                labels,
                name,
                expr,
            ) matches TypeHeadView::Settled(outcome) && if found matches Some(
                TypeLookup::Parked(source),
            ) && standings.disposition(source, None) is Park {
                waits_on(outcome, found->0->Parked_0, Some(expr), Resume::TypeCall(expr))
            } else {
                outcome is Done && outcome->Done_0 is Err && outcome->Done_0->Err_0.kind
                    == ErrorKindView::UnboundName(labels.text_of(name))
            },
        },
{
}

/// A statement declares the plan of its own binder first, and then whatever the binders chained to it
/// declare, at any depth; a group around it changes nothing. What is no statement declares nothing,
/// and is refused where it would, unless a binder around it declares for it.
pub proof fn statements_declare_their_chain(
    region: RegionView,
    bodies: &Bodies,
    expr: ExprId,
    child: ExprId,
    slot: int,
)
    requires
        region.nested_in_order(),
    ensures
        ({
            let parts = region.parts(expr);
            let installs = submitted(region, bodies, expr, SubmitContext::Statement).installs;
            let grouped = parts.len() == 1 && (parts[0].value matches WorkingPart::Ast(
                ExpressionPart::Expression(_),
            ));
            &&& submitted(region, bodies, expr, SubmitContext::Statement).work
                == SubmittedWorkView::Dispatch(expr)
            &&& grouped ==> installs == submitted(
                region,
                bodies,
                parts[0].value->Ast_0->Expression_0,
                SubmitContext::Statement,
            ).installs
            &&& !grouped && region.meta(expr).plan is None ==> installs.len() == 0
            &&& !grouped ==> (region.meta(expr).plan matches Some(plan) ==> installs.len() > 0
                && installs[0] == plan && (0 <= slot < parts.len() && parts[slot].value
                == WorkingPart::Ast(ExpressionPart::Expression(child)) && region.in_chain(plan, slot)
                && !bodies.is_block(child) ==> forall|own: PlanId| #[trigger]
                submitted(region, bodies, child, SubmitContext::Statement).installs.contains(own)
                    ==> installs.contains(own)))
            &&& submitted(
                region,
                bodies,
                expr,
                SubmitContext::SubDispatch { binder_covered: true },
            ).work == SubmittedWorkView::Dispatch(expr)
            &&& installs.len() == 0 ==> submitted(
                region,
                bodies,
                expr,
                SubmitContext::SubDispatch { binder_covered: false },
            ).work == SubmittedWorkView::Dispatch(expr)
            &&& installs.len() > 0 ==> (submitted(
                region,
                bodies,
                expr,
                SubmitContext::SubDispatch { binder_covered: false },
            ).work matches SubmittedWorkView::Fail(error) && error.kind == (
            ErrorKindView::NestedBinder { expr, suggest_flat: false }))
            &&& submitted(
                region,
                bodies,
                expr,
                SubmitContext::SubDispatch { binder_covered: true },
            ).installs.len() == 0
            &&& submitted(
                region,
                bodies,
                expr,
                SubmitContext::SubDispatch { binder_covered: false },
            ).installs.len() == 0
        }),
{
    let parts = region.parts(expr);
    let grouped = parts.len() == 1 && (parts[0].value matches WorkingPart::Ast(
        ExpressionPart::Expression(_),
    ));
    if !grouped {
        if let Some(plan) = region.meta(expr).plan {
            let installs = binder_installs(region, bodies, expr);
            let chained = chained_installs(region, bodies, expr, plan, parts.len());
            assert(installs == seq![plan] + chained);
            if 0 <= slot < parts.len() && parts[slot].value == WorkingPart::Ast(
                ExpressionPart::Expression(child),
            ) && region.in_chain(plan, slot) && !bodies.is_block(child) {
                chain_holds_child(region, bodies, expr, plan, parts.len(), child, slot);
                assert forall|own: PlanId| #[trigger]
                    binder_installs(region, bodies, child).contains(own) implies installs.contains(
                    own,
                ) by {
                    assert(chained.contains(own));
                    let k = choose|k: int| 0 <= k < chained.len() && chained[k] == own;
                    assert(installs[k + 1] == own);
                }
            }
        }
    }
}

proof fn chain_holds_child(
    region: RegionView,
    bodies: &Bodies,
    expr: ExprId,
    plan: PlanId,
    count: nat,
    child: ExprId,
    slot: int,
)
    requires
        region.nested_in_order(),
        0 <= slot < count <= region.parts(expr).len(),
        region.parts(expr)[slot].value == WorkingPart::Ast(ExpressionPart::Expression(child)),
        region.in_chain(plan, slot),
        !bodies.is_block(child),
    ensures
        forall|own: PlanId| #[trigger]
            binder_installs(region, bodies, child).contains(own) ==> chained_installs(
                region,
                bodies,
                expr,
                plan,
                count,
            ).contains(own),
    decreases count,
{
    let all = chained_installs(region, bodies, expr, plan, count);
    let earlier = chained_installs(region, bodies, expr, plan, (count - 1) as nat);
    if slot < count - 1 {
        chain_holds_child(region, bodies, expr, plan, (count - 1) as nat, child, slot);
        assert forall|own: PlanId| #[trigger]
            binder_installs(region, bodies, child).contains(own) implies all.contains(own) by {
            let k = choose|k: int| 0 <= k < earlier.len() && earlier[k] == own;
            assert(all[k] == own);
        }
    } else {
        let inner = binder_installs(region, bodies, child);
        assert(all == earlier + inner);
        assert forall|own: PlanId| #[trigger] inner.contains(own) implies all.contains(own) by {
            let k = choose|k: int| 0 <= k < inner.len() && inner[k] == own;
            assert(all[earlier.len() + k] == own);
        }
    }
}

/// What a statement declares is claimed for its own producer at its own position, and nothing else
/// is: every declared name in the channel it binds in, and every key that an overload is to be
/// registered under.
pub proof fn statements_claim_what_they_declare(
    region: RegionView,
    installs: Seq<PlanId>,
    index: usize,
    source: ProducerId,
    name: Symbol,
)
    ensures
        ({
            let values = all_value_claims(region, installs, index, source);
            &&& forall|k: int|
                0 <= k < values.len() ==> (#[trigger] values[k]).index == index && values[k].state
                    == ValueState::Claimed(source)
            &&& (exists|k: int| 0 <= k < values.len() && (#[trigger] values[k]).name == name) <==> (
            exists|p: int|
                0 <= p < installs.len() && region.plan_name(#[trigger] installs[p]) == Some(
                    (name, BindKind::Value),
                ))
        }),
        ({
            let types = all_type_claims(region, installs, index, source);
            &&& forall|k: int|
                0 <= k < types.len() ==> (#[trigger] types[k]).index == index && types[k].state
                    == TypeState::Claimed(source)
            &&& (exists|k: int| 0 <= k < types.len() && (#[trigger] types[k]).name == name) <==> (
            exists|p: int|
                0 <= p < installs.len() && region.plan_name(#[trigger] installs[p]) == Some(
                    (name, BindKind::Type),
                ))
        }),
    decreases installs.len(),
{
    if installs.len() > 0 {
        let rest = installs.drop_last();
        let last = installs.len() - 1;
        assert(installs[last] == installs.last());
        statements_claim_what_they_declare(region, rest, index, source, name);
        let plan = installs.last();
        let edges = crate::dispatch::submit::same_edge(source, region.claim_count(plan));
        let values = all_value_claims(region, installs, index, source);
        let earlier = all_value_claims(region, rest, index, source);
        let own = crate::decide::submit::value_claims(region.plan_name(plan), index, edges);
        assert(values == earlier + own);
        assert forall|k: int| 0 <= k < values.len() implies (#[trigger] values[k]).index == index
            && values[k].state == ValueState::Claimed(source) by {
            if k < earlier.len() {
                assert(values[k] == earlier[k]);
            } else {
                assert(values[k] == own[k - earlier.len()]);
                assert(edges[0] == source);
            }
        }
        if exists|k: int| 0 <= k < values.len() && (#[trigger] values[k]).name == name {
            let k = choose|k: int| 0 <= k < values.len() && (#[trigger] values[k]).name == name;
            if k < earlier.len() {
                assert(earlier[k].name == name);
                let p = choose|p: int|
                    0 <= p < rest.len() && region.plan_name(#[trigger] rest[p]) == Some(
                        (name, BindKind::Value),
                    );
                assert(installs[p] == rest[p]);
            } else {
                assert(values[k] == own[k - earlier.len()]);
                assert(region.plan_name(installs[last]) == Some((name, BindKind::Value)));
            }
        }
        if exists|p: int|
            0 <= p < installs.len() && region.plan_name(#[trigger] installs[p]) == Some(
                (name, BindKind::Value),
            ) {
            let p = choose|p: int|
                0 <= p < installs.len() && region.plan_name(#[trigger] installs[p]) == Some(
                    (name, BindKind::Value),
                );
            if p < last {
                assert(rest[p] == installs[p]);
                let k = choose|k: int|
                    0 <= k < earlier.len() && (#[trigger] earlier[k]).name == name;
                assert(values[k] == earlier[k]);
            } else {
                assert(values[earlier.len() as int] == own[0]);
            }
        }
        let types = all_type_claims(region, installs, index, source);
        let before = all_type_claims(region, rest, index, source);
        let mine = crate::decide::submit::type_claims(region.plan_name(plan), index, edges);
        assert(types == before + mine);
        assert forall|k: int| 0 <= k < types.len() implies (#[trigger] types[k]).index == index
            && types[k].state == TypeState::Claimed(source) by {
            if k < before.len() {
                assert(types[k] == before[k]);
            } else {
                assert(types[k] == mine[k - before.len()]);
                assert(edges[0] == source);
            }
        }
        if exists|k: int| 0 <= k < types.len() && (#[trigger] types[k]).name == name {
            let k = choose|k: int| 0 <= k < types.len() && (#[trigger] types[k]).name == name;
            if k < before.len() {
                assert(before[k].name == name);
                let p = choose|p: int|
                    0 <= p < rest.len() && region.plan_name(#[trigger] rest[p]) == Some(
                        (name, BindKind::Type),
                    );
                assert(installs[p] == rest[p]);
            } else {
                assert(types[k] == mine[k - before.len()]);
                assert(region.plan_name(installs[last]) == Some((name, BindKind::Type)));
            }
        }
        if exists|p: int|
            0 <= p < installs.len() && region.plan_name(#[trigger] installs[p]) == Some(
                (name, BindKind::Type),
            ) {
            let p = choose|p: int|
                0 <= p < installs.len() && region.plan_name(#[trigger] installs[p]) == Some(
                    (name, BindKind::Type),
                );
            if p < last {
                assert(rest[p] == installs[p]);
                let k = choose|k: int| 0 <= k < before.len() && (#[trigger] before[k]).name == name;
                assert(types[k] == before[k]);
            } else {
                assert(types[before.len() as int] == mine[0]);
            }
        }
    }
}

/// Whether some declared plan registers an overload under `key`.
pub open spec fn declares_key(
    region: RegionView,
    installs: Seq<PlanId>,
    key: Seq<KeyElement>,
) -> bool {
    exists|p: int|
        0 <= p < installs.len() && region.plan_buckets(#[trigger] installs[p]).contains(key)
}

/// Whether a run of claims holds one on `key`.
pub open spec fn holds_key(claims: Seq<OverloadView>, key: Seq<KeyElement>) -> bool {
    exists|k: int| 0 <= k < claims.len() && (#[trigger] claims[k]).key == key
}

/// Every key that a declared plan registers an overload under is claimed, for the producer and at
/// the position of the statement, and no other key is.
pub proof fn statements_claim_the_keys_they_declare(
    region: RegionView,
    installs: Seq<PlanId>,
    index: usize,
    source: ProducerId,
    key: Seq<KeyElement>,
)
    ensures
        forall|k: int|
            0 <= k < all_overload_claims(region, installs, index, source).len() ==> (
            #[trigger] all_overload_claims(region, installs, index, source)[k]).index == index
                && !all_overload_claims(region, installs, index, source)[k].builtin
                && all_overload_claims(region, installs, index, source)[k].state
                == OverloadState::Claimed(source),
        holds_key(all_overload_claims(region, installs, index, source), key) <==> declares_key(
            region,
            installs,
            key,
        ),
    decreases installs.len(),
{
    if installs.len() > 0 {
        let rest = installs.drop_last();
        let last = installs.len() - 1;
        assert(installs[last] == installs.last());
        statements_claim_the_keys_they_declare(region, rest, index, source, key);
        let claims = all_overload_claims(region, installs, index, source);
        let earlier = all_overload_claims(region, rest, index, source);
        let buckets = region.plan_buckets(installs.last());
        let own = Seq::new(buckets.len(), |k: int| overload_claim(buckets[k], index, source));
        assert(claims =~= earlier + own);
        assert forall|k: int| 0 <= k < claims.len() implies (#[trigger] claims[k]).index == index
            && !claims[k].builtin && claims[k].state == OverloadState::Claimed(source) by {
            if k < earlier.len() {
                assert(claims[k] == earlier[k]);
            } else {
                assert(claims[k] == own[k - earlier.len()]);
            }
        }
        if holds_key(claims, key) {
            let k = choose|k: int| 0 <= k < claims.len() && (#[trigger] claims[k]).key == key;
            if k < earlier.len() {
                assert(earlier[k].key == key);
                let p = choose|p: int|
                    0 <= p < rest.len() && region.plan_buckets(#[trigger] rest[p]).contains(key);
                assert(installs[p] == rest[p]);
            } else {
                assert(claims[k] == own[k - earlier.len()]);
                assert(buckets[k - earlier.len()] == key);
                assert(region.plan_buckets(installs[last]).contains(key));
            }
        }
        if declares_key(region, installs, key) {
            let p = choose|p: int|
                0 <= p < installs.len() && region.plan_buckets(#[trigger] installs[p]).contains(
                    key,
                );
            if p < last {
                assert(rest[p] == installs[p]);
                assert(declares_key(region, rest, key));
                let k = choose|k: int| 0 <= k < earlier.len() && (#[trigger] earlier[k]).key == key;
                assert(claims[k] == earlier[k]);
            } else {
                let b = choose|b: int| 0 <= b < buckets.len() && buckets[b] == key;
                assert(claims[earlier.len() + b] == own[b]);
            }
        }
    }
}

} // verus!
