//! Laws of dispatch lanes: an expression is handled by what it is made of, and a slot that wakes up
//! goes on with the very expression that it waited for.

use crate::ast::{is_chain, ExpressionPart, KLiteral, Spanned, WorkingPart};
use crate::decide::apply_callable::{applied, ResolvedCallable};
use crate::decide::classify::{dispatched, finish_of, resumed, settled_results};
use crate::decide::keyworded::keyworded;
use crate::decide::operator_chain::chain_decided;
use crate::decide::resolve::Resolution;
use crate::decide::submit::{
    first_bucket_edge, submitted, type_claims, value_claims, SubmitContext,
};
use crate::decide::DecideCtx;
use crate::error::{ErrorKindView, KError};
use crate::function::carried_text;
use crate::ktype::TypeRegistry;
use crate::laws::types::sealed;
use crate::outcome::{
    ContinuationView, Dep, DepPlacement, DepRequest, FinishView, OutcomeView, ParkDepsView, Resume,
    WorkView,
};
use crate::region::{BindKind, PlanId, RegionView};
use crate::scope::{type_in, value_in, NameLookup, TypeLookup, TypeState, ValueState};
use crate::symbol::Symbol;
use crate::value::{Carried, ExprId, FnId, ObjectView, ProducerId};
use vstd::prelude::*;

verus! {

/// Whether a slot goes on in its place with a fresh dispatch of `inner`, under its own obligation.
pub open spec fn turns_into(ctx: &DecideCtx, outcome: OutcomeView, inner: ExprId) -> bool {
    &&& outcome is Continue
    &&& outcome->work == WorkView::Dispatch(inner)
    &&& outcome->obligation == ctx.obligation
    &&& outcome->frame is Inherit
    &&& outcome->Continue_chain is Unchanged
    &&& outcome->block_entry is Stay
    &&& outcome->label == inner
}

/// Whether a slot waits for one request and then runs `finish`.
pub open spec fn waits_for(outcome: OutcomeView, request: DepRequest, finish: FinishView) -> bool {
    &&& outcome is Park
    &&& outcome->deps matches ParkDepsView::List(deps) && deps.len() == 1 && deps[0]
        == Dep::Request(request)
    &&& outcome->continuation == ContinuationView::Finish(finish)
}

/// Whether a slot waits for one producer and then decides again.
pub open spec fn parks_on(outcome: OutcomeView, source: ProducerId, resume: Resume) -> bool {
    &&& outcome is Park
    &&& outcome->deps matches ParkDepsView::List(deps) && deps.len() == 1 && deps[0]
        == Dep::Producer(source)
    &&& outcome->continuation == ContinuationView::Resume(resume)
    &&& outcome->Park_error_frame is None
}

/// Whether an outcome fails because a name is unbound.
pub open spec fn is_unbound(ctx: &DecideCtx, outcome: OutcomeView, name: Symbol) -> bool {
    &&& outcome is Done
    &&& outcome->Done_0 is Err
    &&& outcome->Done_0->Err_0.kind == ErrorKindView::UnboundName(ctx.labels.text_of(name))
    &&& outcome->Done_0->Err_0.frames.len() == 0
}

/// Whether an outcome is done with a new object.
pub open spec fn is_new_object(
    outcome: OutcomeView,
    before: RegionView,
    after: RegionView,
    object: ObjectView,
) -> bool {
    &&& outcome is Done
    &&& outcome->Done_0 is Ok
    &&& outcome->Done_0->Ok_0 matches Carried::Object(id) && id.at == before.objects.len()
        && after.object(id) == object
    &&& after.objects.drop_last() == before.objects
    &&& after == RegionView { objects: after.objects, ..before }
}

/// An expression of one part is that part: a name comes to what it means, a literal to its value, a
/// quote to its code, a value to itself, and a group, a type expression or an aggregate to what its
/// own work comes to.
pub proof fn lone_parts_come_to_themselves(
    ctx: &DecideCtx,
    before: &TypeRegistry,
    after: &TypeRegistry,
    region: RegionView,
    expr: ExprId,
    result: (OutcomeView, RegionView),
)
    requires
        dispatched(ctx, before, after, region, expr, result),
        region.parts(expr).len() == 1,
        region.objects.len() < usize::MAX,
    ensures
        match region.parts(expr)[0].value {
            WorkingPart::Ast(ExpressionPart::Identifier(name)) => result.1 == region
                && match value_in(ctx.scope.levels@, name, ctx.chain) {
                Some(NameLookup::Bound(carried)) => result.0 == OutcomeView::Done(Ok(carried)),
                Some(NameLookup::Parked(source)) => result.0 == OutcomeView::Forward(source),
                None => is_unbound(ctx, result.0, name),
            },
            WorkingPart::Ast(ExpressionPart::Type(name)) => result.1 == region && match sealed(
                before,
                ctx.scope.levels@,
                name,
                ctx.chain,
            ) {
                Resolution::Resolved(carried) => result.0 == OutcomeView::Done(Ok(carried)),
                Resolution::Parked(source) => parks_on(result.0, source, Resume::TypeLeaf(name)),
                Resolution::Unbound(missing) => is_unbound(ctx, result.0, missing),
            },
            WorkingPart::Ast(ExpressionPart::Literal(literal)) => is_new_object(
                result.0,
                region,
                result.1,
                match literal {
                    KLiteral::Number(bits) => ObjectView::Number(bits),
                    KLiteral::Str(text) => ObjectView::Str(text),
                    KLiteral::Bool(b) => ObjectView::Bool(b),
                    KLiteral::Null => ObjectView::Null,
                },
            ),
            WorkingPart::Ast(ExpressionPart::QuotedExpression(body)) => is_new_object(
                result.0,
                region,
                result.1,
                ObjectView::KExpression(body),
            ),
            WorkingPart::Spliced { cell, .. } => result == (OutcomeView::Done(Ok(cell)), region),
            WorkingPart::Ast(ExpressionPart::Expression(inner))
            | WorkingPart::Expression(inner)
            | WorkingPart::Ast(ExpressionPart::SigiledTypeExpr(inner)) => result.1 == region
                && turns_into(ctx, result.0, inner),
            WorkingPart::Ast(ExpressionPart::RecordType(fields))
            | WorkingPart::RecordType(fields) => result == (
                OutcomeView::Elaborate { fields },
                region,
            ),
            WorkingPart::Ast(ExpressionPart::ListLiteral(list)) => result.1 == region && waits_for(
                result.0,
                DepRequest::ListLit(list),
                FinishView::Literal,
            ),
            WorkingPart::Ast(ExpressionPart::DictLiteral(dict)) => result.1 == region && waits_for(
                result.0,
                DepRequest::DictLit(dict),
                FinishView::Literal,
            ),
            WorkingPart::Ast(ExpressionPart::RecordLiteral(record)) => result.1 == region
                && waits_for(result.0, DepRequest::RecordLit(record), FinishView::Literal),
            WorkingPart::Ast(ExpressionPart::Keyword(_)) => result == keyworded(
                ctx,
                before,
                region,
                expr,
            ),
            WorkingPart::StagedSlot => true,
        },
        !(region.parts(expr)[0].value is StagedSlot) ==> after.nodes@ == before.nodes@,
{
    let part = region.parts(expr)[0].value;
    if part matches WorkingPart::Ast(ExpressionPart::Literal(_)) {
        assert(result.1.objects.drop_last() =~= region.objects);
    }
    if part matches WorkingPart::Ast(ExpressionPart::QuotedExpression(_)) {
        assert(result.1.objects.drop_last() =~= region.objects);
    }
}

/// Whether some part of a run is a keyword.
pub open spec fn holds_keyword(parts: Seq<Spanned>) -> bool {
    exists|i: int|
        0 <= i < parts.len() && ((#[trigger] parts[i]).value matches WorkingPart::Ast(
            ExpressionPart::Keyword(_),
        ))
}

/// Whether operands and at least two keywords alternate in a run.
pub open spec fn alternates(parts: Seq<Spanned>) -> bool {
    &&& parts.len() >= 5
    &&& parts.len() % 2 == 1
    &&& forall|i: int|
        0 <= i < parts.len() ==> (((#[trigger] parts[i]).value matches WorkingPart::Ast(
            ExpressionPart::Keyword(_),
        )) <==> i % 2 == 1)
}

proof fn shapes_agree(parts: Seq<Spanned>)
    ensures
        is_chain(parts) == alternates(parts),
        crate::ast::has_keyword(parts) == holds_keyword(parts),
{
    if is_chain(parts) {
        assert forall|i: int| 0 <= i < parts.len() implies (((
        #[trigger] parts[i]).value matches WorkingPart::Ast(ExpressionPart::Keyword(_))) <==> i % 2
            == 1) by {
            assert(parts[i].value.keyword() is Some <==> i % 2 == 1);
        }
    }
    if alternates(parts) {
        assert forall|i: int| 0 <= i < parts.len() implies (
        #[trigger] parts[i].value.keyword() is Some <==> i % 2 == 1) by {
            assert((parts[i].value matches WorkingPart::Ast(ExpressionPart::Keyword(_))) <==> i % 2
                == 1);
        }
    }
    if holds_keyword(parts) {
        let i = choose|i: int|
            0 <= i < parts.len() && ((#[trigger] parts[i]).value matches WorkingPart::Ast(
                ExpressionPart::Keyword(_),
            ));
        assert(parts[i].value.keyword() is Some);
    }
}

/// A run in which operands and operators alternate is a chain, any other run with a keyword is a
/// keyworded call. A run without keywords is a call of its head: a type name builds a value of that
/// type, a name calls the function it is bound to, and a head that is an expression itself is
/// evaluated first.
pub proof fn runs_are_called_by_their_head(
    ctx: &DecideCtx,
    before: &TypeRegistry,
    after: &TypeRegistry,
    region: RegionView,
    expr: ExprId,
    result: (OutcomeView, RegionView),
)
    requires
        dispatched(ctx, before, after, region, expr, result),
        region.parts(expr).len() != 1,
        region.nodes.len() < usize::MAX,
    ensures
        ({
            let parts = region.parts(expr);
            &&& parts.len() == 0 ==> result.1 == region && result.0 is Done && result.0->Done_0
                is Err && result.0->Done_0->Err_0.kind is DispatchFailed
            &&& alternates(parts) ==> result == chain_decided(ctx, region, expr)
            &&& !alternates(parts) && holds_keyword(parts) ==> result == keyworded(
                ctx,
                before,
                region,
                expr,
            )
            &&& parts.len() > 1 && !holds_keyword(parts) ==> match parts[0].value {
                WorkingPart::Ast(ExpressionPart::Type(name)) => calls_type(
                    ctx,
                    before,
                    after,
                    region,
                    expr,
                    name,
                    result,
                ),
                WorkingPart::Ast(ExpressionPart::Identifier(name)) => calls_name(
                    ctx,
                    before,
                    after,
                    region,
                    expr,
                    name,
                    result,
                ),
                WorkingPart::Ast(ExpressionPart::Expression(inner))
                | WorkingPart::Expression(inner) => result.1 == region && waits_for(
                    result.0,
                    DepRequest::Dispatch { expr: inner, placement: DepPlacement::OwnScope },
                    FinishView::Head { expr, type_only: false },
                ),
                WorkingPart::Ast(ExpressionPart::SigiledTypeExpr(_)) => waits_for_part(
                    region,
                    result,
                    parts[0].value,
                    FinishView::Head { expr, type_only: true },
                ),
                WorkingPart::Spliced { .. } => waits_for_part(
                    region,
                    result,
                    parts[0].value,
                    FinishView::Head { expr, type_only: false },
                ),
                WorkingPart::StagedSlot => true,
                _ => result.1 == region && result.0 is Done && result.0->Done_0 is Err
                    && result.0->Done_0->Err_0.kind is DispatchFailed,
            }
        }),
{
    shapes_agree(region.parts(expr));
    if alternates(region.parts(expr)) {
        assert(region.parts(expr)[1].value matches WorkingPart::Ast(ExpressionPart::Keyword(_)));
    }
    if region.parts(expr).len() > 1 && !holds_keyword(region.parts(expr)) {
        let head = region.parts(expr)[0].value;
        if head is Spliced {
            assert(result.1.nodes.drop_last() =~= region.nodes);
        }
        if head matches WorkingPart::Ast(ExpressionPart::SigiledTypeExpr(_)) {
            assert(result.1.nodes.drop_last() =~= region.nodes);
        }
    }
}

/// Whether a slot waits for an expression made of one part alone, and then runs `finish`.
pub open spec fn waits_for_part(
    before: RegionView,
    result: (OutcomeView, RegionView),
    part: WorkingPart,
    finish: FinishView,
) -> bool {
    &&& result.0 is Park
    &&& result.0->deps matches ParkDepsView::List(deps) && deps.len() == 1 && (
    deps[0] matches Dep::Request(
        DepRequest::Dispatch { expr, placement: DepPlacement::OwnScope },
    ) && result.1.parts(expr).len() == 1 && result.1.parts(expr)[0].value == part)
    &&& result.0->continuation == ContinuationView::Finish(finish)
    &&& result.1.nodes.drop_last() == before.nodes
}

/// Whether a call of a type name builds a value of the type it is bound to, waits for its binder, or
/// fails because it is unbound.
pub open spec fn calls_type(
    ctx: &DecideCtx,
    before: &TypeRegistry,
    after: &TypeRegistry,
    region: RegionView,
    expr: ExprId,
    name: Symbol,
    result: (OutcomeView, RegionView),
) -> bool {
    match type_in(ctx.scope.levels@, name, ctx.chain) {
        Some(TypeLookup::Bound(identity)) => applied(
            ctx,
            before,
            after,
            region,
            ResolvedCallable::Constructor { identity },
            expr,
            result,
        ),
        Some(TypeLookup::Parked(source)) => result.1 == region && parks_on(
            result.0,
            source,
            Resume::TypeCall(expr),
        ),
        None => result.1 == region && is_unbound(ctx, result.0, name),
    }
}

/// Whether a call of a name calls the function it is bound to, waits for its binder, or fails because
/// it is unbound or bound to no function.
pub open spec fn calls_name(
    ctx: &DecideCtx,
    before: &TypeRegistry,
    after: &TypeRegistry,
    region: RegionView,
    expr: ExprId,
    name: Symbol,
    result: (OutcomeView, RegionView),
) -> bool {
    match value_in(ctx.scope.levels@, name, ctx.chain) {
        Some(NameLookup::Bound(carried)) => if is_function(region, carried) {
            applied(
                ctx,
                before,
                after,
                region,
                ResolvedCallable::Function(function_in(region, carried)),
                expr,
                result,
            )
        } else {
            result.1 == region && result.0 is Done && result.0->Done_0 is Err
                && result.0->Done_0->Err_0.kind == (ErrorKindView::TypeMismatch {
                arg: "verb"@,
                expected: "KFunction"@,
                got: carried_text(before, ctx.labels, region, carried),
            })
        },
        Some(NameLookup::Parked(source)) => result.1 == region && parks_on(
            result.0,
            source,
            Resume::FunctionValue(expr),
        ),
        None => result.1 == region && is_unbound(ctx, result.0, name),
    }
}

/// Whether a value is a function.
pub open spec fn is_function(region: RegionView, carried: Carried) -> bool {
    carried matches Carried::Object(id) && region.object(id) is KFunction
}

/// The function that a value is.
pub open spec fn function_in(region: RegionView, carried: Carried) -> FnId {
    region.object(carried->Object_0)->function
}

/// A slot that parked decides again over the very expression or name that it parked for.
pub proof fn resumed_slots_decide_again(
    ctx: &DecideCtx,
    before: &TypeRegistry,
    after: &TypeRegistry,
    region: RegionView,
    resume: Resume,
    result: (OutcomeView, RegionView),
)
    requires
        resumed(ctx, before, after, region, resume, result),
    ensures
        match resume {
            Resume::Keyworded(expr) => result == keyworded(ctx, before, region, expr),
            Resume::OperatorChain(expr) => result == chain_decided(ctx, region, expr),
            Resume::TypeLeaf(name) => result.1 == region && match sealed(
                before,
                ctx.scope.levels@,
                name,
                ctx.chain,
            ) {
                Resolution::Resolved(carried) => result.0 == OutcomeView::Done(Ok(carried)),
                Resolution::Parked(source) => parks_on(result.0, source, Resume::TypeLeaf(name)),
                Resolution::Unbound(missing) => is_unbound(ctx, result.0, missing),
            },
            Resume::TypeCall(expr) => region.parts(expr).len() > 0 ==> (
            region.parts(expr)[0].value matches WorkingPart::Ast(ExpressionPart::Type(name))
                ==> calls_type(ctx, before, after, region, expr, name, result)),
            Resume::FunctionValue(expr) => region.parts(expr).len() > 0 ==> (
            region.parts(expr)[0].value matches WorkingPart::Ast(ExpressionPart::Identifier(name))
                ==> calls_name(ctx, before, after, region, expr, name, result)),
        },
{
}

/// A head that was evaluated calls what it came to: a function, unless only a type will do, or a
/// constructor. Anything else is refused.
pub proof fn evaluated_heads_are_called(
    ctx: &DecideCtx,
    before: &TypeRegistry,
    after: &TypeRegistry,
    region: RegionView,
    expr: ExprId,
    type_only: bool,
    head: Carried,
    result: (OutcomeView, RegionView),
)
    requires
        finish_of(
            ctx,
            before,
            after,
            region,
            FinishView::Head { expr, type_only },
            seq![head],
            result,
        ),
    ensures
        is_function(region, head) && !type_only ==> applied(
            ctx,
            before,
            after,
            region,
            ResolvedCallable::Function(function_in(region, head)),
            expr,
            result,
        ),
        head matches Carried::Type(identity) ==> applied(
            ctx,
            before,
            after,
            region,
            ResolvedCallable::Constructor { identity },
            expr,
            result,
        ),
        head matches Carried::UnresolvedType(name) ==> result.1 == region && is_unbound(
            ctx,
            result.0,
            name,
        ),
        head is Object && !is_function(region, head) ==> result.1 == region && result.0 is Done
            && result.0->Done_0 is Err,
        head is Object && type_only ==> result.1 == region && result.0 is Done && result.0->Done_0
            is Err && result.0->Done_0->Err_0.kind is TypeMismatch,
{
    assert(seq![head][0] == head);
}

/// A landed literal is what its own work came to.
pub proof fn landed_literals_are_their_result(
    ctx: &DecideCtx,
    before: &TypeRegistry,
    after: &TypeRegistry,
    region: RegionView,
    value: Carried,
    result: (OutcomeView, RegionView),
)
    requires
        finish_of(ctx, before, after, region, FinishView::Literal, seq![value], result),
    ensures
        result == (OutcomeView::Done(Ok(value)), region),
        after.nodes@ == before.nodes@,
{
    assert(seq![value][0] == value);
}

/// Work that was waited for hands over all its values, in order; the first that failed goes out
/// instead.
pub proof fn settled_work_hands_over_every_value(results: Seq<Result<Carried, KError>>)
    ensures
        match settled_results(results) {
            Ok(values) => values.len() == results.len() && forall|i: int|
                0 <= i < results.len() ==> #[trigger] results[i] == Ok::<Carried, KError>(
                    values[i],
                ),
            Err(error) => exists|i: int|
                {
                    &&& 0 <= i < results.len()
                    &&& (#[trigger] results[i] matches Err(own) && own@ == error)
                    &&& forall|j: int| 0 <= j < i ==> #[trigger] results[j] is Ok
                },
        },
    decreases results.len(),
{
    if results.len() > 0 {
        let rest = results.drop_last();
        let last = results.len() - 1;
        settled_work_hands_over_every_value(rest);
        assert(results[last] == results.last());
        match settled_results(rest) {
            Ok(values) => {
                assert forall|i: int| 0 <= i < last implies #[trigger] results[i] == Ok::<
                    Carried,
                    KError,
                >(values[i]) by {
                    assert(rest[i] == results[i]);
                }
            },
            Err(error) => {
                let i = choose|i: int|
                    {
                        &&& 0 <= i < rest.len()
                        &&& (#[trigger] rest[i] matches Err(own) && own@ == error)
                        &&& forall|j: int| 0 <= j < i ==> #[trigger] rest[j] is Ok
                    };
                assert(results[i] == rest[i]);
                assert forall|j: int| 0 <= j < i implies #[trigger] results[j] is Ok by {
                    assert(rest[j] == results[j]);
                }
            },
        }
    }
}

/// The plan of the binder that an expression is, seen through a group around it.
pub open spec fn plan_in(region: RegionView, expr: ExprId) -> Option<PlanId> {
    let parts = region.parts(expr);
    if parts.len() == 1 && parts[0].value matches WorkingPart::Ast(ExpressionPart::Expression(_)) {
        region.meta(parts[0].value->Ast_0->Expression_0).plan
    } else {
        region.meta(expr).plan
    }
}

/// A statement is dispatched as it stands and declares what its binder plans. A binder that is no
/// statement is refused and declares nothing; every other expression is dispatched as it stands.
pub proof fn submissions_dispatch_the_expression(region: RegionView, expr: ExprId)
    ensures
        submitted(region, expr, SubmitContext::Statement).work == WorkView::Dispatch(expr),
        submitted(region, expr, SubmitContext::Statement).installs == plan_in(region, expr),
        submitted(region, expr, SubmitContext::SubDispatch).installs is None,
        plan_in(region, expr) is None ==> submitted(region, expr, SubmitContext::SubDispatch).work
            == WorkView::Dispatch(expr),
        plan_in(region, expr) is Some ==> (submitted(
            region,
            expr,
            SubmitContext::SubDispatch,
        ).work matches WorkView::Fail(error) && error.frames.len() == 0 && error.kind
            == (ErrorKindView::NestedBinder {
            expr,
            suggest_flat: region.plan_buckets(plan_in(region, expr)->0).len() > 0,
        })),
{
}

/// A declaration claims its own name alone, in the channel it binds in, at the position of its
/// statement and for its first producer. Its overloads are claimed for the producers behind that
/// one, or from the first on where it has no name, so that no producer is left over.
pub proof fn declarations_claim_their_own_name(
    region: RegionView,
    plan: PlanId,
    name: Symbol,
    index: usize,
    edges: Seq<ProducerId>,
)
    ensures
        value_claims(None, index, edges).len() == 0,
        type_claims(None, index, edges).len() == 0,
        first_bucket_edge(None) == 0,
        value_claims(Some((name, BindKind::Value)), index, edges).len() == 1,
        value_claims(Some((name, BindKind::Value)), index, edges)[0].name == name,
        value_claims(Some((name, BindKind::Value)), index, edges)[0].index == index,
        value_claims(Some((name, BindKind::Value)), index, edges)[0].state == ValueState::Claimed(
            edges[0],
        ),
        type_claims(Some((name, BindKind::Value)), index, edges).len() == 0,
        type_claims(Some((name, BindKind::Type)), index, edges).len() == 1,
        type_claims(Some((name, BindKind::Type)), index, edges)[0].name == name,
        type_claims(Some((name, BindKind::Type)), index, edges)[0].index == index,
        type_claims(Some((name, BindKind::Type)), index, edges)[0].state == TypeState::Claimed(
            edges[0],
        ),
        value_claims(Some((name, BindKind::Type)), index, edges).len() == 0,
        first_bucket_edge(Some((name, BindKind::Value))) == 1,
        first_bucket_edge(Some((name, BindKind::Type))) == 1,
        region.claim_count(plan) == first_bucket_edge(region.plan_name(plan)) + region.plan_buckets(
            plan,
        ).len(),
{
}

/// What a binder form plans is what its own plan says: its name with the channel, and every key it
/// registers an overload under.
pub proof fn plans_say_what_they_declare(region: RegionView, plan: PlanId)
    requires
        plan.at < region.plans.len(),
    ensures
        region.plan_name(plan) == region.plans[plan.at as int].name,
        region.plan_buckets(plan).len() == region.plans[plan.at as int].buckets@.len(),
        forall|k: int|
            0 <= k < region.plan_buckets(plan).len() ==> #[trigger] region.plan_buckets(plan)[k]
                == region.plans[plan.at as int].buckets@[k]@,
{
}

} // verus!
