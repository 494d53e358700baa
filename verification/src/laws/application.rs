//! Laws of application: what a callable in head position is applied to is what stands behind it, and
//! each part goes where its name or its place says.

use crate::ast::{ExpressionPart, Spanned, WorkingPart};
use crate::decide::apply_callable::{
    applied, bound_args, committed_call, missing_params, supplied_type, supplied_types,
    type_application, unknown_args, ResolvedCallable,
};
use crate::decide::constructors::{cell_requests, ValueCell};
use crate::decide::exec::invoked;
use crate::decide::resolve_dispatch::parked_flags;
use crate::decide::staging::walk;
use crate::decide::DecideCtx;
use crate::error::ErrorKindView;
use crate::function::{named_call_error, named_slots, wrap_slots, SignatureElement};
use crate::ktype::{Field, KType, NodeSchema, TypeNode, TypeRegistry};
use crate::laws::overloads::{picks_take_bare_names_by_value, takes_by_value};
use crate::laws::staging::{
    evaluates, is_lone, is_open, kept_raw, stages, walks_stage_each_slot_by_its_own_work,
};
use crate::outcome::{
    ContinuationView, CtorView, Dep, DepPlacement, DepRequest, FinishView, OutcomeView,
    ParkDepsView,
};
use crate::region::{FieldPart, RegionView};
use crate::symbol::{Labels, Symbol};
use crate::value::{Carried, ExprId, FnId};
use vstd::prelude::*;

verus! {

/// Whether a slot waits for the given parts, each evaluated on its own and in order, and then runs
/// `finish`.
pub open spec fn awaits_each(
    after: RegionView,
    outcome: OutcomeView,
    parts: Seq<WorkingPart>,
    finish: FinishView,
) -> bool {
    &&& outcome is Park
    &&& outcome->continuation == ContinuationView::Finish(finish)
    &&& outcome->deps matches ParkDepsView::List(deps) && deps.len() == parts.len() && forall|i: int|
        0 <= i < parts.len() ==> dispatches_alone(after, #[trigger] deps[i], parts[i])
}

/// Whether a dependency evaluates an expression made of this part alone.
pub open spec fn dispatches_alone(region: RegionView, dep: Dep, part: WorkingPart) -> bool {
    dep matches Dep::Request(
        DepRequest::Dispatch { expr, placement: DepPlacement::OwnScope },
    ) && expr.at < region.nodes.len() && region.parts(expr).len() == 1
        && region.parts(expr)[0].value == part
}

/// Whether a region is `before` with further nodes behind its own.
pub open spec fn only_grows(before: RegionView, after: RegionView) -> bool {
    &&& before.nodes.is_prefix_of(after.nodes)
    &&& after == RegionView { nodes: after.nodes, ..before }
}

/// Parts that are evaluated for a construction are each evaluated on their own, in order.
pub proof fn cells_are_requested(region: RegionView, cells: Seq<ValueCell>)
    requires
        region.nodes.len() + cells.len() <= usize::MAX,
        forall|i: int| 0 <= i < cells.len() ==> #[trigger] cells[i] is Part,
    ensures
        ({
            let (requests, grown) = cell_requests(region, cells);
            &&& requests.len() == cells.len()
            &&& grown.nodes.len() == region.nodes.len() + cells.len()
            &&& only_grows(region, grown)
            &&& forall|i: int|
                0 <= i < cells.len() ==> dispatches_alone(
                    grown,
                    Dep::Request(#[trigger] requests[i]),
                    cells[i]->Part_0,
                )
        }),
    decreases cells.len(),
{
    let (requests, grown) = cell_requests(region, cells);
    if cells.len() > 0 {
        let rest = cells.drop_last();
        assert forall|i: int| 0 <= i < rest.len() implies #[trigger] rest[i] is Part by {
            assert(rest[i] == cells[i]);
        }
        cells_are_requested(region, rest);
        let (earlier, before) = cell_requests(region, rest);
        let last = cells.len() - 1;
        assert(cells[last] is Part);
        assert(region.nodes =~= grown.nodes.take(region.nodes.len() as int));
        assert forall|i: int| 0 <= i < cells.len() implies dispatches_alone(
            grown,
            Dep::Request(#[trigger] requests[i]),
            cells[i]->Part_0,
        ) by {
            if i < last {
                assert(requests[i] == earlier[i]);
                assert(cells[i] == rest[i]);
                let expr = earlier[i]->Dispatch_expr;
                assert(grown.nodes[expr.at as int] == before.nodes[expr.at as int]);
            }
        }
    } else {
        assert(region.nodes =~= grown.nodes.take(region.nodes.len() as int));
    }
}

/// The parts behind the head of a call.
pub open spec fn body_behind(parts: Seq<Spanned>) -> Seq<Spanned> {
    Seq::new(
        if parts.len() == 0 {
            0
        } else {
            (parts.len() - 1) as nat
        },
        |i: int| parts[i + 1],
    )
}

/// The field values of a record literal, as parts.
pub open spec fn field_parts(fields: Seq<FieldPart>) -> Seq<WorkingPart> {
    Seq::new(fields.len(), |i: int| WorkingPart::Ast(fields[i].value))
}

/// The field names of a record literal.
pub open spec fn names_in(fields: Seq<FieldPart>) -> Seq<Symbol> {
    Seq::new(fields.len(), |i: int| fields[i].name)
}

/// What stands behind the head of a call is its body.
pub proof fn bodies_agree(parts: Seq<Spanned>)
    ensures
        crate::decide::apply_callable::behind_head(parts) == body_behind(parts),
{
    assert(crate::decide::apply_callable::behind_head(parts) =~= body_behind(parts));
}

/// A record type that stands in head position is built from the record literal behind it: each field
/// is evaluated on its own, in order, and the record is built under the names of the literal. With
/// one part behind it, that part is evaluated and wrapped.
pub proof fn new_types_are_built_from_what_stands_behind_them(
    ctx: &DecideCtx,
    before: &TypeRegistry,
    after: &TypeRegistry,
    region: RegionView,
    identity: KType,
    expr: ExprId,
    result: (OutcomeView, RegionView),
)
    requires
        applied(
            ctx,
            before,
            after,
            region,
            ResolvedCallable::Constructor { identity },
            expr,
            result,
        ),
        before.node_of(identity) matches Some(
            TypeNode::SetMember { schema: NodeSchema::NewType(_), .. },
        ),
    ensures
        ({
            let body = body_behind(region.parts(expr));
            &&& after.nodes@ == before.nodes@
            &&& body.len() == 1 ==> match body[0].value {
                WorkingPart::Ast(ExpressionPart::RecordLiteral(record)) => {
                    let fields = region.record(record);
                    region.nodes.len() + fields.len() <= usize::MAX ==> awaits_each(
                        result.1,
                        result.0,
                        field_parts(fields),
                        FinishView::Construct(
                            CtorView::RecordNewType { identity, field_names: names_in(fields) },
                        ),
                    ) && only_grows(region, result.1)
                },
                WorkingPart::Ast(ExpressionPart::Expression(inner)) => {
                    let own = region.parts(inner);
                    &&& own.len() == 0 ==> result.0 is Done && result.0->Done_0 is Err
                        && result.0->Done_0->Err_0.kind == (ErrorKindView::ArityMismatch {
                        expected: 1,
                        got: 0,
                    })
                    &&& own.len() == 1 && region.nodes.len() < usize::MAX ==> awaits_each(
                        result.1,
                        result.0,
                        seq![own[0].value],
                        FinishView::Construct(CtorView::NewType { identity }),
                    ) && only_grows(region, result.1)
                    &&& own.len() > 1 && region.nodes.len() < usize::MAX ==> awaits_group(
                        result.1,
                        result.0,
                        own,
                        FinishView::Construct(CtorView::NewType { identity }),
                    )
                },
                value => region.nodes.len() < usize::MAX ==> awaits_each(
                    result.1,
                    result.0,
                    seq![value],
                    FinishView::Construct(CtorView::NewType { identity }),
                ) && only_grows(region, result.1),
            }
            &&& body.len() == 0 ==> result.0 is Done && result.0->Done_0 is Err
                && result.0->Done_0->Err_0.kind == (ErrorKindView::ArityMismatch {
                expected: 1,
                got: 0,
            })
            &&& body.len() > 1 && region.nodes.len() < usize::MAX ==> awaits_group(
                result.1,
                result.0,
                body,
                FinishView::Construct(CtorView::NewType { identity }),
            )
        }),
{
    let parts = region.parts(expr);
    let body = body_behind(parts);
    bodies_agree(parts);
    if body.len() == 1 {
        match body[0].value {
            WorkingPart::Ast(ExpressionPart::RecordLiteral(record)) => {
                let fields = region.record(record);
                let cells = crate::decide::constructors::literal_cells(fields);
                if region.nodes.len() + fields.len() <= usize::MAX {
                    cells_are_requested(region, cells);
                    assert(names_in(fields) =~= crate::decide::constructors::literal_names(fields));
                }
            },
            WorkingPart::Ast(ExpressionPart::Expression(inner)) => {
                let own = region.parts(inner);
                if own.len() == 1 && region.nodes.len() < usize::MAX {
                    cells_are_requested(region, seq![ValueCell::Part(own[0].value)]);
                } else if own.len() > 1 {
                    group_is_requested(region.with_node(own, crate::region::no_meta()), region.next_node());
                }
            },
            value => {
                if region.nodes.len() < usize::MAX {
                    cells_are_requested(region, seq![ValueCell::Part(value)]);
                }
            },
        }
    } else if body.len() > 1 {
        group_is_requested(region.with_node(body, crate::region::no_meta()), region.next_node());
    }
}

proof fn group_is_requested(region: RegionView, expr: ExprId)
    ensures
        cell_requests(region, seq![ValueCell::Synthesized(expr)]).0.len() == 1,
        cell_requests(region, seq![ValueCell::Synthesized(expr)]).0[0] == (DepRequest::Dispatch {
            expr,
            placement: DepPlacement::OwnScope,
        }),
        cell_requests(region, seq![ValueCell::Synthesized(expr)]).1 == region,
{
    let cells = seq![ValueCell::Synthesized(expr)];
    assert(cells.drop_last() =~= Seq::<ValueCell>::empty());
    reveal_with_fuel(cell_requests, 2);
}

/// Whether a slot waits for one expression made of the given parts, and then runs `finish`.
pub open spec fn awaits_group(
    after: RegionView,
    outcome: OutcomeView,
    parts: Seq<Spanned>,
    finish: FinishView,
) -> bool {
    &&& outcome is Park
    &&& outcome->continuation == ContinuationView::Finish(finish)
    &&& outcome->deps matches ParkDepsView::List(deps) && deps.len() == 1 && (
    deps[0] matches Dep::Request(
        DepRequest::Dispatch { expr, placement: DepPlacement::OwnScope },
    ) && after.parts(expr) == parts)
}

/// A union in head position is given a tag alone, and is then the member of that name; or a group of
/// a tag and a value, and then a value of the variant of that name is built from that very value.
/// Anything else is refused.
pub proof fn unions_are_built_by_the_variant_that_is_named(
    ctx: &DecideCtx,
    before: &TypeRegistry,
    after: &TypeRegistry,
    region: RegionView,
    identity: KType,
    members: Seq<KType>,
    expr: ExprId,
    tag: Symbol,
    inner: ExprId,
    result: (OutcomeView, RegionView),
)
    requires
        applied(
            ctx,
            before,
            after,
            region,
            ResolvedCallable::Constructor { identity },
            expr,
            result,
        ),
        before.node_of(identity) matches Some(TypeNode::Union { members: own }) && own@ == members,
        region.nodes.len() < usize::MAX,
    ensures
        ({
            let body = body_behind(region.parts(expr));
            &&& after.nodes@ == before.nodes@
            &&& body.len() == 1 && body[0].value == WorkingPart::Ast(ExpressionPart::Type(tag))
                ==> result.1 == region && if exists|m: int|
                0 <= m < members.len() && #[trigger] is_named(before, members[m], tag) {
                exists|m: int|
                    {
                        &&& 0 <= m < members.len()
                        &&& #[trigger] is_named(before, members[m], tag)
                        &&& forall|j: int|
                            0 <= j < m ==> !#[trigger] is_named(before, members[j], tag)
                        &&& result.0 == OutcomeView::Done(Ok(Carried::Type(members[m])))
                    }
            } else {
                result.0 is Done && result.0->Done_0 is Err && result.0->Done_0->Err_0.kind
                    is ShapeError
            }
            &&& body.len() == 1 && body[0].value == WorkingPart::Ast(
                ExpressionPart::Expression(inner),
            ) && region.parts(inner).len() == 2 && region.parts(inner)[0].value == WorkingPart::Ast(
                ExpressionPart::Type(tag),
            ) ==> if exists|m: int|
                0 <= m < members.len() && #[trigger] is_variant(before, members[m], tag) {
                exists|m: int|
                    {
                        &&& 0 <= m < members.len()
                        &&& #[trigger] is_variant(before, members[m], tag)
                        &&& forall|j: int|
                            0 <= j < m ==> !#[trigger] is_variant(before, members[j], tag)
                        &&& awaits_each(
                            result.1,
                            result.0,
                            seq![region.parts(inner)[1].value],
                            FinishView::Construct(
                                CtorView::Tagged {
                                    schema: seq![
                                        Field { name: tag, ktype: payload_of(before, members[m]) },
                                    ],
                                    member: members[m],
                                    tag,
                                },
                            ),
                        )
                    }
            } else {
                result.0 is Done && result.0->Done_0 is Err && result.0->Done_0->Err_0.kind
                    is ShapeError
            }
            &&& body.len() != 1 ==> result.0 is Done && result.0->Done_0 is Err
                && result.0->Done_0->Err_0.kind is DispatchFailed && result.1 == region
            &&& body.len() == 1 && !(body[0].value matches WorkingPart::Ast(
                ExpressionPart::Type(_),
            )) && !(body[0].value matches WorkingPart::Ast(ExpressionPart::Expression(_)))
                ==> result.0 is Done && result.0->Done_0 is Err && result.0->Done_0->Err_0.kind
                is DispatchFailed && result.1 == region
        }),
{
    let body = body_behind(region.parts(expr));
    bodies_agree(region.parts(expr));
    first_of_name(before, members, tag);
    first_of_variant(before, members, tag);
    assert(before.members(identity) == members);
    if body.len() == 1 && body[0].value == WorkingPart::Ast(ExpressionPart::Expression(inner))
        && region.parts(inner).len() == 2 {
        cells_are_requested(region, seq![ValueCell::Part(region.parts(inner)[1].value)]);
    }
}

/// Whether a type is a declared one of this name.
pub open spec fn is_named(types: &TypeRegistry, kt: KType, name: Symbol) -> bool {
    types.node_of(kt) matches Some(TypeNode::SetMember { name: own, .. }) && own == name
}

/// Whether a type is a declared wrapper of this name.
pub open spec fn is_variant(types: &TypeRegistry, kt: KType, name: Symbol) -> bool {
    types.node_of(kt) matches Some(
        TypeNode::SetMember { name: own, schema: NodeSchema::NewType(_), .. },
    ) && own == name
}

/// What a declared wrapper wraps.
pub open spec fn payload_of(types: &TypeRegistry, kt: KType) -> KType {
    match types.node_of(kt) {
        Some(TypeNode::SetMember { schema: NodeSchema::NewType(repr), .. }) => repr,
        _ => kt,
    }
}

/// The member of a union under a name is the first that is declared under it.
pub proof fn first_of_name(types: &TypeRegistry, members: Seq<KType>, name: Symbol)
    ensures
        match types.first_named(members, name) {
            Some(found) => exists|m: int|
                {
                    &&& 0 <= m < members.len()
                    &&& #[trigger] is_named(types, members[m], name)
                    &&& forall|j: int| 0 <= j < m ==> !#[trigger] is_named(types, members[j], name)
                    &&& members[m] == found
                },
            None => forall|m: int|
                0 <= m < members.len() ==> !#[trigger] is_named(types, members[m], name),
        },
    decreases members.len(),
{
    if members.len() > 0 {
        if types.is_member_named(members[0], name) {
            assert(is_named(types, members[0], name));
        } else {
            let rest = members.drop_first();
            first_of_name(types, rest, name);
            match types.first_named(rest, name) {
                Some(found) => {
                    let m = choose|m: int|
                        {
                            &&& 0 <= m < rest.len()
                            &&& #[trigger] is_named(types, rest[m], name)
                            &&& forall|j: int|
                                0 <= j < m ==> !#[trigger] is_named(types, rest[j], name)
                            &&& rest[m] == found
                        };
                    assert(members[m + 1] == rest[m]);
                    assert(is_named(types, members[m + 1], name));
                    assert forall|j: int| 0 <= j < m + 1 implies !#[trigger] is_named(
                        types,
                        members[j],
                        name,
                    ) by {
                        if j > 0 {
                            assert(!is_named(types, rest[j - 1], name));
                            assert(members[j] == rest[j - 1]);
                        }
                    }
                },
                None => {
                    assert forall|m: int| 0 <= m < members.len() implies !#[trigger] is_named(
                        types,
                        members[m],
                        name,
                    ) by {
                        if m > 0 {
                            assert(!is_named(types, rest[m - 1], name));
                            assert(members[m] == rest[m - 1]);
                        }
                    }
                },
            }
        }
    }
}

/// The variant of a union under a name is the first wrapper that is declared under it.
pub proof fn first_of_variant(types: &TypeRegistry, members: Seq<KType>, name: Symbol)
    ensures
        match types.first_variant(members, name) {
            Some((found, payload)) => exists|m: int|
                {
                    &&& 0 <= m < members.len()
                    &&& #[trigger] is_variant(types, members[m], name)
                    &&& forall|j: int|
                        0 <= j < m ==> !#[trigger] is_variant(types, members[j], name)
                    &&& members[m] == found
                    &&& payload_of(types, members[m]) == payload
                },
            None => forall|m: int|
                0 <= m < members.len() ==> !#[trigger] is_variant(types, members[m], name),
        },
    decreases members.len(),
{
    if members.len() > 0 {
        if types.is_member_named(members[0], name) && types.repr_of(members[0]) is Some {
            assert(is_variant(types, members[0], name));
        } else {
            assert(!is_variant(types, members[0], name));
            let rest = members.drop_first();
            first_of_variant(types, rest, name);
            match types.first_variant(rest, name) {
                Some((found, payload)) => {
                    let m = choose|m: int|
                        {
                            &&& 0 <= m < rest.len()
                            &&& #[trigger] is_variant(types, rest[m], name)
                            &&& forall|j: int|
                                0 <= j < m ==> !#[trigger] is_variant(types, rest[j], name)
                            &&& rest[m] == found
                            &&& payload_of(types, rest[m]) == payload
                        };
                    assert(members[m + 1] == rest[m]);
                    assert(is_variant(types, members[m + 1], name));
                    assert forall|j: int| 0 <= j < m + 1 implies !#[trigger] is_variant(
                        types,
                        members[j],
                        name,
                    ) by {
                        if j > 0 {
                            assert(!is_variant(types, rest[j - 1], name));
                            assert(members[j] == rest[j - 1]);
                        }
                    }
                },
                None => {
                    assert forall|m: int| 0 <= m < members.len() implies !#[trigger] is_variant(
                        types,
                        members[m],
                        name,
                    ) by {
                        if m > 0 {
                            assert(!is_variant(types, rest[m - 1], name));
                            assert(members[m] == rest[m - 1]);
                        }
                    }
                },
            }
        }
    }
}

proof fn supplied_is_found(supplied: Seq<Field>, name: Symbol)
    ensures
        match supplied_type(supplied, name) {
            Some(kt) => exists|k: int|
                {
                    &&& 0 <= k < supplied.len()
                    &&& (#[trigger] supplied[k]).name == name
                    &&& supplied[k].ktype == kt
                    &&& forall|j: int|
                        k < j < supplied.len() ==> (#[trigger] supplied[j]).name != name
                },
            None => forall|k: int|
                0 <= k < supplied.len() ==> (#[trigger] supplied[k]).name != name,
        },
    decreases supplied.len(),
{
    if supplied.len() > 0 {
        let last = supplied.len() - 1;
        assert(supplied[last] == supplied.last());
        if supplied.last().name != name {
            let rest = supplied.drop_last();
            supplied_is_found(rest, name);
            match supplied_type(rest, name) {
                Some(kt) => {
                    let k = choose|k: int|
                        {
                            &&& 0 <= k < rest.len()
                            &&& (#[trigger] rest[k]).name == name
                            &&& rest[k].ktype == kt
                            &&& forall|j: int|
                                k < j < rest.len() ==> (#[trigger] rest[j]).name != name
                        };
                    assert(supplied[k] == rest[k]);
                    assert forall|j: int| k < j < supplied.len() implies (
                    #[trigger] supplied[j]).name != name by {
                        if j < last {
                            assert(rest[j] == supplied[j]);
                        }
                    }
                },
                None => {
                    assert forall|k: int| 0 <= k < supplied.len() implies (
                    #[trigger] supplied[k]).name != name by {
                        if k < last {
                            assert(rest[k] == supplied[k]);
                        }
                    }
                },
            }
        }
    }
}

/// Whether some supplied argument is called `name`.
pub open spec fn is_given(supplied: Seq<Field>, name: Symbol) -> bool {
    exists|k: int| 0 <= k < supplied.len() && (#[trigger] supplied[k]).name == name
}

proof fn missing_are_not_given(params: Seq<Symbol>, supplied: Seq<Field>)
    ensures
        missing_params(params, supplied).len() == 0 <==> forall|p: int|
            0 <= p < params.len() ==> is_given(supplied, #[trigger] params[p]),
    decreases params.len(),
{
    if params.len() > 0 {
        let rest = params.drop_last();
        let last = params.len() - 1;
        missing_are_not_given(rest, supplied);
        supplied_is_found(supplied, params[last]);
        if missing_params(rest, supplied).len() == 0 {
            assert forall|p: int| 0 <= p < last implies is_given(
                supplied,
                #[trigger] params[p],
            ) by {
                assert(rest[p] == params[p]);
            }
        } else {
            let p = choose|p: int| 0 <= p < rest.len() && !is_given(supplied, #[trigger] rest[p]);
            assert(!is_given(supplied, params[p]));
        }
    }
}

proof fn unknown_are_no_params(params: Seq<Symbol>, supplied: Seq<Field>)
    ensures
        unknown_args(params, supplied).len() == 0 <==> forall|k: int|
            0 <= k < supplied.len() ==> params.contains((#[trigger] supplied[k]).name),
    decreases supplied.len(),
{
    if supplied.len() > 0 {
        let rest = supplied.drop_last();
        let last = supplied.len() - 1;
        assert(supplied[last] == supplied.last());
        unknown_are_no_params(params, rest);
        if unknown_args(params, rest).len() == 0 {
            assert forall|k: int| 0 <= k < last implies params.contains(
                (#[trigger] supplied[k]).name,
            ) by {
                assert(rest[k] == supplied[k]);
            }
        } else {
            let k = choose|k: int|
                0 <= k < rest.len() && !params.contains((#[trigger] rest[k]).name);
            assert(supplied[k] == rest[k]);
        }
    }
}

/// A type constructor that is applied to arguments by name gives the application of that very
/// constructor, with its parameters in their declared order and each bound to the type that was
/// supplied under its own name. It is refused exactly when some parameter is not supplied or some
/// argument is no parameter.
pub proof fn type_arguments_go_to_the_parameter_of_their_name(
    before: &TypeRegistry,
    after: &TypeRegistry,
    labels: &Labels,
    identity: KType,
    params: Seq<Symbol>,
    supplied: Seq<Field>,
    outcome: OutcomeView,
)
    requires
        type_application(before, after, labels, identity, params, Ok(supplied), outcome),
    ensures
        ({
            let complete = (forall|p: int|
                0 <= p < params.len() ==> is_given(supplied, #[trigger] params[p])) && (forall|
                k: int,
            |
                0 <= k < supplied.len() ==> params.contains((#[trigger] supplied[k]).name));
            &&& !complete ==> outcome is Done && outcome->Done_0 is Err
                && outcome->Done_0->Err_0.kind is ShapeError && after.nodes@ == before.nodes@
            &&& complete ==> outcome is Done && outcome->Done_0 is Ok && (
            outcome->Done_0->Ok_0 matches Carried::Type(own) && (after.node_of(own) matches Some(
                TypeNode::ConstructorApply { constructor, arguments },
            ) && constructor == identity && arguments@.len() == params.len() && forall|p: int|
                0 <= p < params.len() ==> (#[trigger] arguments@[p]).name == params[p] && (forall|
                    k: int,
                |
                    0 <= k < supplied.len() && (#[trigger] supplied[k]).name == params[p] && (
                    forall|j: int|
                        k < j < supplied.len() ==> (#[trigger] supplied[j]).name != params[p])
                        ==> arguments@[p].ktype == supplied[k].ktype)))
        }),
{
    missing_are_not_given(params, supplied);
    unknown_are_no_params(params, supplied);
    if missing_params(params, supplied).len() == 0 && unknown_args(params, supplied).len() == 0 {
        let own = outcome->Done_0->Ok_0->Type_0;
        let args = bound_args(params, supplied);
        assert forall|p: int| 0 <= p < params.len() implies (#[trigger] args[p]).name == params[p]
            && (forall|k: int|
            0 <= k < supplied.len() && (#[trigger] supplied[k]).name == params[p] && (forall|j: int|
                k < j < supplied.len() ==> (#[trigger] supplied[j]).name != params[p])
                ==> args[p].ktype == supplied[k].ktype) by {
            supplied_is_found(supplied, params[p]);
            assert(is_given(supplied, params[p]));
            let f = choose|f: int|
                {
                    &&& 0 <= f < supplied.len()
                    &&& (#[trigger] supplied[f]).name == params[p]
                    &&& Some(supplied[f].ktype) == supplied_type(supplied, params[p])
                    &&& forall|j: int|
                        f < j < supplied.len() ==> (#[trigger] supplied[j]).name != params[p]
                };
            assert forall|k: int|
                0 <= k < supplied.len() && (#[trigger] supplied[k]).name == params[p] && (forall|
                    j: int,
                |
                    k < j < supplied.len() ==> (#[trigger] supplied[j]).name
                        != params[p]) implies args[p].ktype == supplied[k].ktype by {
                if k < f {
                    assert(supplied[f].name != params[p]);
                } else if f < k {
                    assert(supplied[k].name != params[p]);
                }
            }
        }
        assert(crate::decide::apply_callable::applies(after, identity, args, own));
    }
}

/// Evaluated type arguments are supplied under the name at their own place; one that is no type is
/// refused, the first such by its name.
pub proof fn evaluated_types_keep_their_names(
    types: &TypeRegistry,
    labels: &Labels,
    region: RegionView,
    names: Seq<Symbol>,
    results: Seq<Carried>,
    upto: nat,
)
    requires
        upto <= names.len(),
        names.len() == results.len(),
    ensures
        match supplied_types(types, labels, region, names, results, upto) {
            Ok(supplied) => supplied.len() == upto && forall|i: int|
                0 <= i < upto ==> (#[trigger] supplied[i]).name == names[i] && results[i]
                    == Carried::Type(supplied[i].ktype),
            Err(error) => exists|i: int|
                {
                    &&& 0 <= i < upto
                    &&& forall|j: int| 0 <= j < i ==> #[trigger] results[j] is Type
                    &&& match #[trigger] results[i] {
                        Carried::Type(_) => false,
                        Carried::Object(object) => error.kind == (ErrorKindView::TypeMismatch {
                            arg: labels.text_of(names[i]),
                            expected: "Type"@,
                            got: types.name_text(labels, region.object(object).ktype()),
                        }),
                        Carried::UnresolvedType(name) => error.kind == ErrorKindView::UnboundName(
                            labels.text_of(name),
                        ),
                    }
                },
        },
    decreases upto,
{
    if upto > 0 {
        let at = (upto - 1) as int;
        evaluated_types_keep_their_names(types, labels, region, names, results, at as nat);
        if let Ok(earlier) = supplied_types(types, labels, region, names, results, at as nat) {
            assert forall|j: int| 0 <= j < at implies #[trigger] results[j] is Type by {
                assert(earlier[j].name == names[j]);
            }
            assert(results[at] == results[at]);
        }
    }
}

/// A function in head position is called over the record literal behind it, laid out in the order of
/// its signature; arguments that do not fit it are refused with what is wrong with them, and a body
/// without names is refused.
pub proof fn functions_are_called_over_named_arguments(
    ctx: &DecideCtx,
    before: &TypeRegistry,
    after: &TypeRegistry,
    region: RegionView,
    function: FnId,
    expr: ExprId,
    result: (OutcomeView, RegionView),
)
    requires
        applied(
            ctx,
            before,
            after,
            region,
            ResolvedCallable::Function(function),
            expr,
            result,
        ),
    ensures
        ({
            let body = body_behind(region.parts(expr));
            let elements = ctx.functions.signature(function);
            &&& after.nodes@ == before.nodes@
            &&& body.len() == 1 ==> match body[0].value {
                WorkingPart::Ast(ExpressionPart::RecordLiteral(record)) => match named_call_error(
                    ctx.labels,
                    elements,
                    region.record(record),
                ) {
                    Some(error) => result == (OutcomeView::Done(Err(error)), region),
                    None => result == committed_call(
                        ctx,
                        before,
                        region.with_node(
                            named_slots(elements, region.record(record)),
                            crate::region::NodeMeta {
                                span: region.meta(expr).span,
                                plan: None,
                                raw: None,
                            },
                        ),
                        ExprId { at: region.nodes.len() as usize },
                        function,
                    ),
                },
                _ => result.1 == region && result.0 is Done && result.0->Done_0 is Err
                    && result.0->Done_0->Err_0.kind is DispatchFailed,
            }
            &&& body.len() != 1 ==> result.1 == region && result.0 is Done && result.0->Done_0
                is Err && result.0->Done_0->Err_0.kind is DispatchFailed
        }),
{
    bodies_agree(region.parts(expr));
}

proof fn unparked_slots_agree(
    types: &TypeRegistry,
    elements: Seq<SignatureElement>,
    parts: Seq<Spanned>,
    upto: nat,
)
    requires
        upto <= parts.len(),
    ensures
        wrap_slots(types, elements, parts, Seq::empty(), upto) == wrap_slots(
            types,
            elements,
            parts,
            parked_flags(Seq::empty(), parts.len()),
            upto,
        ),
    decreases upto,
{
    if upto > 0 {
        unparked_slots_agree(types, elements, parts, (upto - 1) as nat);
    }
}

/// A call whose callable is known already evaluates each of its slots that is open, or that holds a
/// bare name whose value the callable is given, by its own work, and then goes on with that callable
/// over the same call. With nothing to evaluate it is invoked at once.
pub proof fn known_callables_evaluate_their_slots(
    ctx: &DecideCtx,
    types: &TypeRegistry,
    region: RegionView,
    expr: ExprId,
    function: FnId,
)
    requires
        region.parts(expr).len() <= usize::MAX,
        region.nodes.len() + region.parts(expr).len() < usize::MAX,
    ensures
        ({
            let parts = region.parts(expr);
            let meta = region.meta(expr);
            let elements = ctx.functions.signature(function);
            let (outcome, after) = committed_call(ctx, types, region, expr, function);
            exists|named: Seq<usize>|
                {
                    &&& #[trigger] takes_by_value(types, elements, parts, Seq::empty(), named)
                    &&& (forall|i: int|
                        0 <= i < parts.len() ==> !(named.contains(i as usize) || is_open(
                            (#[trigger] parts[i]).value,
                        ) && !kept_raw(region, meta, i))) ==> (outcome, after) == invoked(
                        ctx,
                        types,
                        region,
                        function,
                        expr,
                    )
                    &&& (exists|i: int|
                        0 <= i < parts.len() && (named.contains(i as usize) || is_open(
                            (#[trigger] parts[i]).value,
                        ) && !kept_raw(region, meta, i))) ==> {
                        &&& outcome is Park
                        &&& outcome->deps matches ParkDepsView::List(deps)
                            && outcome->continuation matches ContinuationView::Finish(
                            FinishView::EagerSubs { expr: call, part_indices, picked },
                        ) && {
                            let requests = Seq::new(deps.len(), |k: int| deps[k]->Request_0);
                            &&& picked == Some(function)
                            &&& stages(
                                region,
                                after,
                                parts,
                                meta,
                                named,
                                parts.len(),
                                part_indices,
                                requests,
                            )
                            &&& after.meta(call) == meta
                            &&& after.parts(call).len() == parts.len()
                            &&& forall|i: int|
                                0 <= i < parts.len() ==> if part_indices.contains(i as usize) {
                                    (#[trigger] after.parts(call)[i]).value is StagedSlot
                                } else {
                                    after.parts(call)[i] == parts[i]
                                }
                        }
                    }
                }
        }),
{
    let parts = region.parts(expr);
    let meta = region.meta(expr);
    let elements = ctx.functions.signature(function);
    let named = wrap_slots(types, elements, parts, Seq::empty(), parts.len());
    unparked_slots_agree(types, elements, parts, parts.len());
    picks_take_bare_names_by_value(types, elements, parts, Seq::empty());
    assert(takes_by_value(types, elements, parts, Seq::empty(), named));
    walks_stage_each_slot_by_its_own_work(region, parts, meta, named, parts.len());
    let walked = walk(region, parts, meta, named, parts.len());
    let (outcome, after) = committed_call(ctx, types, region, expr, function);
    if walked.slots.len() > 0 {
        let call = walked.region.next_node();
        let first = walked.slots[0] as int;
        assert(walked.slots.contains(first as usize));
        assert(parts[first] == parts[first]);
        assert(walked.region.nodes.is_prefix_of(after.nodes)) by {
            assert(walked.region.nodes =~= after.nodes.take(walked.region.nodes.len() as int));
        }
        assert forall|k: int| 0 <= k < walked.slots.len() implies (#[trigger] walked.slots[k])
            < parts.len() && evaluates(
            after,
            parts[walked.slots[k] as int],
            named.contains(walked.slots[k]),
            walked.requests[k],
        ) by {
            let slot = parts[walked.slots[k] as int];
            if is_lone(slot, named.contains(walked.slots[k])) {
                let own = walked.requests[k]->Dispatch_expr;
                assert(own.at < walked.region.nodes.len());
                assert(after.nodes[own.at as int] == walked.region.nodes[own.at as int]);
            }
        }
        if let OutcomeView::Park { deps: ParkDepsView::List(deps), .. } = outcome {
            let requests = Seq::new(deps.len(), |k: int| deps[k]->Request_0);
            assert(requests =~= walked.requests);
            assert(stages(
                region,
                after,
                parts,
                meta,
                named,
                parts.len(),
                walked.slots,
                requests,
            ));
        }
    } else {
        assert forall|i: int| 0 <= i < parts.len() implies !(named.contains(i as usize) || is_open(
            (#[trigger] parts[i]).value,
        ) && !kept_raw(region, meta, i)) by {
            assert(!walked.slots.contains(i as usize));
        }
    }
}

/// A family of types in head position is given a group. A family with variants is built from a tag
/// and a value, by the variants it declares; one without is applied to one value. A family with
/// several parameters and no variants builds nothing.
pub proof fn families_are_built_from_a_group(
    ctx: &DecideCtx,
    before: &TypeRegistry,
    after: &TypeRegistry,
    region: RegionView,
    identity: KType,
    variants: Seq<Field>,
    params: Seq<Symbol>,
    expr: ExprId,
    inner: ExprId,
    result: (OutcomeView, RegionView),
)
    requires
        applied(
            ctx,
            before,
            after,
            region,
            ResolvedCallable::Constructor { identity },
            expr,
            result,
        ),
        before.node_of(identity) matches Some(
            TypeNode::SetMember {
                schema: NodeSchema::TypeConstructor { schema, param_names },
                ..
            },
        ) && schema@ == variants && param_names@ == params,
        body_behind(region.parts(expr)).len() == 1,
        body_behind(region.parts(expr))[0].value == WorkingPart::Ast(
            ExpressionPart::Expression(inner),
        ),
        region.nodes.len() < usize::MAX,
    ensures
        ({
            let own = region.parts(inner);
            &&& after.nodes@ == before.nodes@
            &&& variants.len() == 0 && params.len() > 1 ==> result.1 == region && result.0 is Done
                && result.0->Done_0 is Err && result.0->Done_0->Err_0.kind is ShapeError
            &&& variants.len() == 0 && params.len() <= 1 && own.len() == 1 && !(
            own[0].value matches WorkingPart::Ast(ExpressionPart::Expression(_))) ==> awaits_each(
                result.1,
                result.0,
                seq![own[0].value],
                FinishView::Construct(CtorView::ApplyConstructor { constructor: identity }),
            )
            &&& variants.len() > 0 && own.len() != 2 ==> result.1 == region && result.0 is Done
                && result.0->Done_0 is Err && result.0->Done_0->Err_0.kind is ArityMismatch
            &&& variants.len() > 0 && own.len() == 2 ==> match own[0].value {
                WorkingPart::Ast(ExpressionPart::Type(tag)) => awaits_each(
                    result.1,
                    result.0,
                    seq![own[1].value],
                    FinishView::Construct(
                        CtorView::Tagged { schema: variants, member: identity, tag },
                    ),
                ),
                _ => result.1 == region && result.0 is Done && result.0->Done_0 is Err
                    && result.0->Done_0->Err_0.kind is ShapeError,
            }
        }),
{
    let own = region.parts(inner);
    bodies_agree(region.parts(expr));
    if own.len() == 1 {
        cells_are_requested(region, seq![ValueCell::Part(own[0].value)]);
    } else if own.len() == 2 {
        cells_are_requested(region, seq![ValueCell::Part(own[1].value)]);
    }
}

} // verus!
