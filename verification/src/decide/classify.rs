//! The router: an expression goes to the lane of its shape, a parked slot back to the lane that
//! parked it.

use super::action::{finish_tail, tail_finished};
use super::apply_callable::{finish_named_type_args, supplied_types, type_application};
use super::constructors::{constructed, constructible, finish_witnessed};
use super::fn_value::function_value;
use super::head_deferred::{
    finish_head, head_awaited, head_landed, initial_expr, initial_type, nested_head,
};
use super::keyworded::{keyworded, land_eager_subs, subs_landed};
use super::operator_chain::{
    chain_decided, finish_pairwise, pairwise_landed, parsed_operands,
};
use super::resolve_dispatch::{counted, EntryCounter};
use super::single_poll::{
    bare_identifier, bare_type_leaf, finish_literal, identifier_outcome, literal_pass_through,
    passed_through, record_fields, record_type, sigiled_body, sigiled_type_expr, type_call,
    type_called, type_head, type_leaf_outcome,
};
use super::staging::{synthesized, walk};
use super::DecideCtx;
use crate::ast::{
    bare_slot, classify_dispatch_shape, is_chain, keywords_of, shape_of, DispatchShape,
    ExpressionPart, WorkingPart,
};
use crate::error::{
    propagate_dep_error, propagated, raised, ErrorKindView, ErrorView, KError, KErrorKind, Message,
    MessageView, Subject, TraceFrame,
};
use crate::ktype::TypeRegistry;
use crate::outcome::{
    becomes, fail, failed, finished, result_view, Finish, FinishView, Outcome, OutcomeView, Resume,
};
use crate::region::{Region, RegionView};
use crate::scope::group_in;
use crate::symbol::Symbol;
use crate::text::owned;
use crate::value::{Carried, ExprId};
use vstd::pervasive::unreached;
use vstd::prelude::*;

verus! {

/// The name of a lone name part.
pub open spec fn lone_name(region: RegionView, expr: ExprId) -> Symbol {
    region.parts(expr)[0].value.bare_name()->0
}

/// The head of an expression, when it has one.
pub open spec fn head_part(region: RegionView, expr: ExprId) -> Option<WorkingPart> {
    if region.parts(expr).len() == 0 {
        None
    } else {
        Some(region.parts(expr)[0].value)
    }
}

/// The text in front of a head that nothing can be applied to.
pub const NOT_CALLABLE: &'static str = "head is not callable: `";

/// The reason when there is no head at all.
pub const NO_HEAD: &'static str = "head is not callable: `<empty>`";

/// Why the head of an expression cannot be applied: the reason shows it between backticks.
pub open spec fn not_callable_reason(head: Option<WorkingPart>) -> MessageView {
    match head {
        Some(part) => MessageView::Showing {
            before: NOT_CALLABLE@,
            shown: Subject::Part(part),
            after: "`"@,
        },
        None => MessageView::Plain(NO_HEAD@),
    }
}

/// The failure of an expression whose head cannot be applied.
pub open spec fn not_callable(expr: ExprId, head: Option<WorkingPart>) -> ErrorView {
    raised(
        ErrorKindView::DispatchFailed {
            subject: Subject::Expr(expr),
            reason: not_callable_reason(head),
        },
    )
}

/// Refuses an expression whose head cannot be applied.
fn refuse_head(expr: ExprId, head: Option<WorkingPart>) -> (r: KError)
    ensures
        r@ == not_callable(expr, head),
{
    let reason = match head {
        Some(part) => Message::Showing {
            before: owned(NOT_CALLABLE),
            shown: Subject::Part(part),
            after: owned("`"),
        },
        None => Message::Plain(owned(NO_HEAD)),
    };
    KError::new(KErrorKind::DispatchFailed { subject: Subject::Expr(expr), reason })
}

/// Whether an expression is one that a slot classifies: its holes have been filled, and the
/// operands of a chain that becomes a list are parsed parts.
pub open spec fn classifiable(ctx: &DecideCtx, region: RegionView, expr: ExprId) -> bool {
    let parts = region.parts(expr);
    &&& parts.len() == 1 ==> !(parts[0].value is StagedSlot)
    &&& is_chain(parts) ==> reducible(ctx, region, expr)
}

/// Whether the operands of a chain that becomes a list are parsed parts.
pub open spec fn reducible(ctx: &DecideCtx, region: RegionView, expr: ExprId) -> bool {
    group_in(ctx.scope.levels@, keywords_of(region.parts(expr)), ctx.chain) matches Some(group) ==> (
    group.mode is Unary ==> parsed_operands(region.parts(expr)))
}

/// What the decision on an expression comes to, by its shape.
pub open spec fn dispatched(
    ctx: &DecideCtx,
    before: &TypeRegistry,
    after: &TypeRegistry,
    region: RegionView,
    expr: ExprId,
    result: (OutcomeView, RegionView),
) -> bool {
    let same = after.nodes@ == before.nodes@;
    match shape_of(region.parts(expr)) {
        DispatchShape::BareTypeLeaf => same && result == (
            type_leaf_outcome(ctx, before, lone_name(region, expr)),
            region,
        ),
        DispatchShape::BareIdentifier => same && result == (
            identifier_outcome(ctx, lone_name(region, expr)),
            region,
        ),
        DispatchShape::FunctionValueCall => function_value(
            ctx,
            before,
            after,
            region,
            expr,
            result,
        ),
        DispatchShape::TypeCall => type_called(
            ctx,
            before,
            after,
            region,
            expr,
            type_head(region, expr)->0,
            result,
        ),
        DispatchShape::HeadDeferred => same && result == (
            head_awaited(expr, nested_head(region, expr)->0, false),
            region,
        ),
        DispatchShape::TypeHeadDeferred => same && result == (
            head_awaited(expr, region.next_node(), true),
            region.with_node(
                seq![bare_slot(region.parts(expr)[0].value)],
                synthesized(region.meta(expr)),
            ),
        ),
        DispatchShape::NonCallableHead => same && result == (
            failed(not_callable(expr, head_part(region, expr))),
            region,
        ),
        DispatchShape::OperatorChain => same && result == chain_decided(ctx, region, expr),
        DispatchShape::Keyworded => same && result == keyworded(ctx, before, region, expr),
        DispatchShape::SigiledTypeExpr => same && result == (
            becomes(sigiled_body(region, expr)->0, ctx.obligation),
            region,
        ),
        DispatchShape::RecordType => same && result == (
            OutcomeView::Elaborate { fields: record_fields(region, expr)->0 },
            region,
        ),
        DispatchShape::LiteralPassThrough => same && result == passed_through(
            ctx,
            region,
            region.parts(expr)[0].value,
        ),
    }
}

/// How often overload resolution has been entered after the decision on an expression: only a
/// keyworded expression with nothing left to stage enters it.
pub open spec fn entries_after(region: RegionView, expr: ExprId, entries: usize) -> usize {
    if shape_of(region.parts(expr)) is Keyworded && !stages_work(region, expr) {
        counted(entries)
    } else {
        entries
    }
}

/// Whether an expression has parts that are evaluated before it.
pub open spec fn stages_work(region: RegionView, expr: ExprId) -> bool {
    let parts = region.parts(expr);
    walk(region, parts, region.meta(expr), Seq::empty(), parts.len()).slots.len() > 0
}

/// How often overload resolution has been entered after a parked decision is made again.
pub open spec fn entries_resumed(region: RegionView, resume: Resume, entries: usize) -> usize {
    match resume {
        Resume::Keyworded(expr) => if stages_work(region, expr) {
            entries
        } else {
            counted(entries)
        },
        _ => entries,
    }
}

/// Decides on a freshly submitted expression.
pub fn classify_dispatch(
    ctx: &DecideCtx,
    types: &mut TypeRegistry,
    region: &mut Region,
    expr: ExprId,
    counter: &mut EntryCounter,
) -> (r: Outcome)
    requires
        old(types).wf(),
        classifiable(ctx, old(region)@, expr),
    ensures
        final(types).wf(),
        final(types).extends(old(types)),
        dispatched(
            ctx,
            old(types),
            final(types),
            old(region)@,
            expr,
            (r@, final(region)@),
        ),
        final(counter).entries == entries_after(old(region)@, expr, old(counter).entries),
{
    let parts = region.parts_of(expr);
    match classify_dispatch_shape(&parts) {
        DispatchShape::BareTypeLeaf => match parts[0].value {
            WorkingPart::Ast(ExpressionPart::Type(name)) => bare_type_leaf(ctx, types, name),
            _ => unreached(),
        },
        DispatchShape::BareIdentifier => match parts[0].value {
            WorkingPart::Ast(ExpressionPart::Identifier(name)) => bare_identifier(ctx, name),
            _ => unreached(),
        },
        DispatchShape::FunctionValueCall => super::fn_value::initial(ctx, types, region, expr),
        DispatchShape::TypeCall => type_call(ctx, types, region, expr),
        DispatchShape::HeadDeferred => initial_expr(region, expr),
        DispatchShape::TypeHeadDeferred => initial_type(region, expr),
        DispatchShape::NonCallableHead => {
            let head = if parts.len() == 0 {
                None
            } else {
                Some(parts[0].value)
            };
            fail(refuse_head(expr, head))
        },
        DispatchShape::OperatorChain => super::operator_chain::run(ctx, region, expr),
        DispatchShape::Keyworded => super::keyworded::initial(ctx, types, region, expr, counter),
        DispatchShape::SigiledTypeExpr => sigiled_type_expr(ctx, region, expr),
        DispatchShape::RecordType => record_type(region, expr),
        DispatchShape::LiteralPassThrough => literal_pass_through(ctx, region, expr),
    }
}

/// Whether a parked decision can be made again.
pub open spec fn resumable(ctx: &DecideCtx, region: RegionView, resume: Resume) -> bool {
    match resume {
        Resume::FunctionValue(expr) => region.parts(expr).len() > 0,
        Resume::OperatorChain(expr) => is_chain(region.parts(expr)) && reducible(ctx, region, expr),
        Resume::TypeCall(expr) => type_head(region, expr) is Some,
        _ => true,
    }
}

/// What a parked decision comes to when it is made again.
pub open spec fn resumed(
    ctx: &DecideCtx,
    before: &TypeRegistry,
    after: &TypeRegistry,
    region: RegionView,
    resume: Resume,
    result: (OutcomeView, RegionView),
) -> bool {
    let same = after.nodes@ == before.nodes@;
    match resume {
        Resume::FunctionValue(expr) => function_value(ctx, before, after, region, expr, result),
        Resume::Keyworded(expr) => same && result == keyworded(ctx, before, region, expr),
        Resume::OperatorChain(expr) => same && result == chain_decided(ctx, region, expr),
        Resume::TypeLeaf(name) => same && result == (
            type_leaf_outcome(ctx, before, name),
            region,
        ),
        Resume::TypeCall(expr) => type_called(
            ctx,
            before,
            after,
            region,
            expr,
            type_head(region, expr)->0,
            result,
        ),
    }
}

/// Makes a parked decision again, now that what it waited for has landed.
pub fn resume_decision(
    ctx: &DecideCtx,
    types: &mut TypeRegistry,
    region: &mut Region,
    resume: Resume,
    counter: &mut EntryCounter,
) -> (r: Outcome)
    requires
        old(types).wf(),
        resumable(ctx, old(region)@, resume),
    ensures
        final(types).wf(),
        final(types).extends(old(types)),
        resumed(
            ctx,
            old(types),
            final(types),
            old(region)@,
            resume,
            (r@, final(region)@),
        ),
        final(counter).entries == entries_resumed(old(region)@, resume, old(counter).entries),
{
    match resume {
        Resume::FunctionValue(expr) => super::fn_value::initial(ctx, types, region, expr),
        Resume::Keyworded(expr) => super::keyworded::initial(ctx, types, region, expr, counter),
        Resume::OperatorChain(expr) => super::operator_chain::run(ctx, region, expr),
        Resume::TypeLeaf(name) => bare_type_leaf(ctx, types, name),
        Resume::TypeCall(expr) => type_call(ctx, types, region, expr),
    }
}

/// The first error among a run of results, and the values when there is none.
pub open spec fn settled_results(results: Seq<Result<Carried, KError>>) -> Result<
    Seq<Carried>,
    ErrorView,
>
    decreases results.len(),
{
    if results.len() == 0 {
        Ok(Seq::empty())
    } else {
        match settled_results(results.drop_last()) {
            Err(e) => Err(e),
            Ok(values) => match results.last() {
                Ok(value) => Ok(values.push(value)),
                Err(e) => Err(e@),
            },
        }
    }
}

proof fn first_error_settles(results: Seq<Result<Carried, KError>>, upto: int)
    requires
        0 <= upto <= results.len(),
        settled_results(results.take(upto)) is Err,
    ensures
        settled_results(results) == settled_results(results.take(upto)),
    decreases results.len() - upto,
{
    if upto == results.len() {
        assert(results.take(upto) =~= results);
    } else {
        assert(results.drop_last().take(upto) =~= results.take(upto));
        first_error_settles(results.drop_last(), upto);
    }
}

/// Takes the values out of a run of results. The first error is passed on instead, under the
/// consumer's frame when it has one.
pub fn settle_results(results: &Vec<Result<Carried, KError>>, frame: Option<TraceFrame>) -> (r:
    Result<Vec<Carried>, KError>)
    ensures
        match r {
            Ok(values) => settled_results(results@) == Ok::<Seq<Carried>, ErrorView>(values@),
            Err(e) => settled_results(results@) matches Err(own) && e@ == propagated(own, frame),
        },
{
    let mut values: Vec<Carried> = Vec::new();
    let mut i: usize = 0;
    proof {
        assert(results@.take(0) =~= Seq::<Result<Carried, KError>>::empty());
    }
    while i < results.len()
        invariant
            i <= results.len(),
            settled_results(results@.take(i as int)) == Ok::<Seq<Carried>, ErrorView>(values@),
        decreases results.len() - i,
    {
        proof {
            assert(results@.take(i as int + 1).drop_last() =~= results@.take(i as int));
        }
        match &results[i] {
            Ok(value) => {
                values.push(*value);
            },
            Err(e) => {
                proof {
                    first_error_settles(results@, i as int + 1);
                }
                return Err(propagate_dep_error(e, frame));
            },
        }
        i = i + 1;
    }
    assert(results@.take(i as int) =~= results@);
    Ok(values)
}

/// Whether a finish can run over `values`: they are what it waited for. A field list and a
/// builtin's own continuation need what only their owners have.
pub open spec fn finishable(
    types: &TypeRegistry,
    region: RegionView,
    finish: FinishView,
    values: Seq<Carried>,
) -> bool {
    match finish {
        FinishView::EagerSubs { .. } => true,
        FinishView::Pairwise { operators, spans, .. } => operators.len() > 0 && spans.len()
            == operators.len() + 1 && values.len() == operators.len() + 1,
        FinishView::NamedTypeArgs { identity, params, names } => {
            &&& types.holds(identity)
            &&& types.constructor_params(identity) == Some(params)
            &&& names.len() == values.len()
            &&& forall|i: int|
                0 <= i < values.len() ==> (#[trigger] values[i] matches Carried::Type(kt)
                    ==> types.holds(kt))
        },
        FinishView::Construct(kind) => constructible(types, region, kind, values),
        FinishView::Head { .. } => values.len() == 1,
        FinishView::Literal => values.len() == 1,
        FinishView::Tail { contract, .. } => contract is FromLastResult ==> values.len() > 0,
        FinishView::FieldList { .. } => false,
        FinishView::Await(_) => false,
    }
}

/// What a finish comes to.
pub open spec fn finish_of(
    ctx: &DecideCtx,
    before: &TypeRegistry,
    after: &TypeRegistry,
    region: RegionView,
    finish: FinishView,
    values: Seq<Carried>,
    result: (OutcomeView, RegionView),
) -> bool {
    let same = after.nodes@ == before.nodes@;
    match finish {
        FinishView::EagerSubs { expr, part_indices, picked } => same && result == subs_landed(
            ctx,
            before,
            region,
            expr,
            part_indices,
            picked,
            values,
        ),
        FinishView::Pairwise { operators, spans, combiner, direction, chain } => same && result
            == pairwise_landed(
            ctx.obligation,
            region,
            operators,
            spans,
            combiner,
            direction,
            chain,
            values,
        ),
        FinishView::NamedTypeArgs { identity, params, names } => result.1 == region
            && type_application(
            before,
            after,
            ctx.labels,
            identity,
            params,
            supplied_types(before, ctx.labels, region, names, values, values.len()),
            result.0,
        ),
        FinishView::Construct(kind) => exists|built: Result<Carried, ErrorView>|
            {
                &&& #[trigger] constructed(
                    before,
                    after,
                    ctx.labels,
                    region,
                    kind,
                    values,
                    (built, result.1),
                )
                &&& result.0 == OutcomeView::Done(built)
            },
        FinishView::Head { expr, type_only } => head_landed(
            ctx,
            before,
            after,
            region,
            expr,
            type_only,
            values[0],
            result,
        ),
        FinishView::Literal => same && result == (finished(values[0]), region),
        FinishView::Tail { tail, contract, fresh_child, placement, body_index } => same && result
            == (
            tail_finished(
                before,
                ctx.labels,
                region,
                ctx.obligation,
                tail,
                contract,
                fresh_child,
                placement,
                body_index,
                values,
            ),
            region,
        ),
        _ => true,
    }
}

/// Runs what a slot was waiting to run.
pub fn run_finish(
    ctx: &DecideCtx,
    types: &mut TypeRegistry,
    region: &mut Region,
    finish: &Finish,
    values: &Vec<Carried>,
) -> (r: Outcome)
    requires
        old(types).wf(),
        finishable(old(types), old(region)@, finish@, values@),
    ensures
        final(types).wf(),
        final(types).extends(old(types)),
        finish_of(
            ctx,
            old(types),
            final(types),
            old(region)@,
            finish@,
            values@,
            (r@, final(region)@),
        ),
{
    match finish {
        Finish::EagerSubs { expr, part_indices, picked } => land_eager_subs(
            ctx,
            types,
            region,
            *expr,
            part_indices,
            *picked,
            values,
        ),
        Finish::Pairwise { operators, spans, combiner, direction, chain } => finish_pairwise(
            ctx,
            region,
            operators,
            spans,
            *combiner,
            *direction,
            *chain,
            values,
        ),
        Finish::NamedTypeArgs { identity, params, names } => finish_named_type_args(
            types,
            ctx.labels,
            region,
            *identity,
            params,
            names,
            values,
        ),
        Finish::Construct(kind) => {
            let built = finish_witnessed(types, ctx.labels, region, kind, values);
            assert(constructed(
                old(types),
                types,
                ctx.labels,
                old(region)@,
                kind@,
                values@,
                (result_view(built), region@),
            ));
            Outcome::Done(built)
        },
        Finish::Head { expr, type_only } => finish_head(
            ctx,
            types,
            region,
            *expr,
            *type_only,
            values[0],
        ),
        Finish::Literal => finish_literal(values[0]),
        Finish::Tail { tail, contract, fresh_child, placement, body_index } => finish_tail(
            types,
            ctx.labels,
            region,
            ctx.obligation,
            *tail,
            *contract,
            *fresh_child,
            *placement,
            *body_index,
            values,
        ),
        _ => unreached(),
    }
}

/// Every shape but the keyworded one is decided without entering overload resolution.
pub proof fn short_lanes_never_resolve_overloads(region: RegionView, expr: ExprId, entries: usize)
    ensures
        !(shape_of(region.parts(expr)) is Keyworded) ==> entries_after(region, expr, entries)
            == entries,
{
}

} // verus!
