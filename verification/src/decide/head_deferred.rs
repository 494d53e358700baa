//! Calls whose head has to be evaluated first: the slot waits for the head and then applies what it
//! came to.

use super::apply_callable::{applied, apply_callable, ResolvedCallable};
use super::staging::{synthesized, synthesized_meta};
use super::DecideCtx;
use crate::ast::{bare, bare_slot, ExpressionPart, WorkingPart};
use crate::error::{raised, ErrorKindView, ErrorView, KError, KErrorKind, Subject};
use crate::function::{carried_text, summarize};
use crate::ktype::TypeRegistry;
use crate::outcome::{
    await_requests, awaiting, fail, failed, own_dispatch, request_deps, DepPlacement, DepRequest,
    Finish, FinishView, Outcome, OutcomeView,
};
use crate::region::{Region, RegionView};
use crate::symbol::Labels;
use crate::text::owned;
use crate::value::{Carried, ExprId, FnId, KObject, ObjectView};
use vstd::pervasive::unreached;
use vstd::prelude::*;

verus! {

/// Why a value is no head.
pub const NON_CALLABLE: &'static str = "head evaluates to a non-callable value";

/// The callable that a carried value is.
pub open spec fn callable(region: RegionView, carried: Carried) -> Option<FnId> {
    match carried {
        Carried::Object(object) => match region.object(object) {
            ObjectView::KFunction { function, .. } => Some(function),
            _ => None,
        },
        _ => None,
    }
}

/// The callable that a carried value is.
pub fn adopt_function(region: &Region, carried: Carried) -> (r: Option<FnId>)
    ensures
        r == callable(region@, carried),
{
    match carried {
        Carried::Object(object) => match region.object(object) {
            Some(found) => match found {
                KObject::KFunction { function, .. } => Some(*function),
                _ => None,
            },
            None => None,
        },
        _ => None,
    }
}

/// The slot waits for its head and then applies it.
pub open spec fn head_awaited(expr: ExprId, head: ExprId, type_only: bool) -> OutcomeView {
    awaiting(
        request_deps(seq![own_dispatch(head)]),
        None,
        FinishView::Head { expr, type_only },
    )
}

/// Waits for the head; an error of it is passed on without a frame.
pub fn park_on_head(expr: ExprId, head: ExprId, type_only: bool) -> (r: Outcome)
    ensures
        r@ == head_awaited(expr, head, type_only),
{
    let mut requests: Vec<DepRequest> = Vec::new();
    requests.push(DepRequest::Dispatch { expr: head, placement: DepPlacement::OwnScope });
    assert(requests@ =~= seq![own_dispatch(head)]);
    await_requests(requests, None, Finish::Head { expr, type_only })
}

/// The nested expression that stands as the head.
pub open spec fn nested_head(region: RegionView, expr: ExprId) -> Option<ExprId> {
    if region.parts(expr).len() == 0 {
        None
    } else {
        match region.parts(expr)[0].value {
            WorkingPart::Ast(ExpressionPart::Expression(inner)) => Some(inner),
            WorkingPart::Expression(inner) => Some(inner),
            _ => None,
        }
    }
}

/// Evaluates a head that is an expression.
pub fn initial_expr(region: &Region, expr: ExprId) -> (r: Outcome)
    requires
        nested_head(region@, expr) is Some,
    ensures
        r@ == head_awaited(expr, nested_head(region@, expr)->0, false),
{
    let parts = region.parts_of(expr);
    match parts[0].value {
        WorkingPart::Ast(ExpressionPart::Expression(inner)) => park_on_head(expr, inner, false),
        WorkingPart::Expression(inner) => park_on_head(expr, inner, false),
        _ => unreached(),
    }
}

/// Evaluates a head that is a `:(…)` part, marker and all.
pub fn initial_type(region: &mut Region, expr: ExprId) -> (r: Outcome)
    requires
        old(region)@.parts(expr).len() > 0,
    ensures
        r@ == head_awaited(expr, old(region)@.next_node(), true),
        final(region)@ == old(region)@.with_node(
            seq![bare_slot(old(region)@.parts(expr)[0].value)],
            synthesized(old(region)@.meta(expr)),
        ),
{
    let parts = region.parts_of(expr);
    let meta = synthesized_meta(region.meta_of(expr));
    let head = region.add_lone(bare(parts[0].value), meta);
    park_on_head(expr, head, true)
}

/// Evaluates a head of any other shape, as it stands.
pub fn defer_head(region: &mut Region, expr: ExprId) -> (r: Outcome)
    requires
        old(region)@.parts(expr).len() > 0,
    ensures
        r@ == head_awaited(expr, old(region)@.next_node(), false),
        final(region)@ == old(region)@.with_node(
            seq![old(region)@.parts(expr)[0]],
            synthesized(old(region)@.meta(expr)),
        ),
{
    let parts = region.parts_of(expr);
    let meta = synthesized_meta(region.meta_of(expr));
    let head = region.add_lone(parts[0], meta);
    park_on_head(expr, head, false)
}

/// What an evaluated head is applied as. Where only types are asked for, a function is none.
pub open spec fn head_callable(
    types: &TypeRegistry,
    labels: &Labels,
    region: RegionView,
    head: Carried,
    type_only: bool,
) -> Result<ResolvedCallable, ErrorView> {
    match (callable(region, head), type_only) {
        (Some(function), false) => Ok(ResolvedCallable::Function(function)),
        _ => match head {
            Carried::Object(_) => if type_only {
                Err(
                    raised(
                        ErrorKindView::TypeMismatch {
                            arg: "verb"@,
                            expected: "Type"@,
                            got: carried_text(types, labels, region, head),
                        },
                    ),
                )
            } else {
                Err(raised(ErrorKindView::dispatch_failed(Subject::Value(head), NON_CALLABLE@)))
            },
            Carried::UnresolvedType(name) => Err(
                raised(ErrorKindView::UnboundName(labels.text_of(name))),
            ),
            Carried::Type(identity) => Ok(ResolvedCallable::Constructor { identity }),
        },
    }
}

/// Classifies an evaluated head. Every type is taken: what it admits is decided when it is applied.
pub fn classify_head(
    types: &TypeRegistry,
    labels: &Labels,
    region: &Region,
    head: Carried,
    type_only: bool,
) -> (r: Result<ResolvedCallable, KError>)
    ensures
        match r {
            Ok(found) => head_callable(types, labels, region@, head, type_only) == Ok::<
                ResolvedCallable,
                ErrorView,
            >(found),
            Err(e) => head_callable(types, labels, region@, head, type_only) == Err::<
                ResolvedCallable,
                ErrorView,
            >(e@),
        },
{
    if !type_only {
        if let Some(function) = adopt_function(region, head) {
            return Ok(ResolvedCallable::Function(function));
        }
    }
    match head {
        Carried::Object(_) => {
            if type_only {
                Err(
                    KError::new(
                        KErrorKind::TypeMismatch {
                            arg: owned("verb"),
                            expected: owned("Type"),
                            got: summarize(types, labels, region, head),
                        },
                    ),
                )
            } else {
                Err(
                    KError::new(
                        KErrorKind::dispatch_failed(Subject::Value(head), owned(NON_CALLABLE)),
                    ),
                )
            }
        },
        Carried::UnresolvedType(name) => Err(
            KError::new(KErrorKind::UnboundName(labels.render(name))),
        ),
        Carried::Type(identity) => Ok(ResolvedCallable::Constructor { identity }),
    }
}

/// What a call comes to once its head has landed.
pub open spec fn head_landed(
    ctx: &DecideCtx,
    before: &TypeRegistry,
    after: &TypeRegistry,
    region: RegionView,
    expr: ExprId,
    type_only: bool,
    head: Carried,
    result: (OutcomeView, RegionView),
) -> bool {
    match head_callable(before, ctx.labels, region, head, type_only) {
        Ok(found) => applied(ctx, before, after, region, found, expr, result),
        Err(e) => after.nodes@ == before.nodes@ && result == (failed(e), region),
    }
}

/// Applies a head that has landed.
pub fn finish_head(
    ctx: &DecideCtx,
    types: &mut TypeRegistry,
    region: &mut Region,
    expr: ExprId,
    type_only: bool,
    head: Carried,
) -> (r: Outcome)
    requires
        old(types).wf(),
    ensures
        final(types).wf(),
        final(types).extends(old(types)),
        head_landed(
            ctx,
            old(types),
            final(types),
            old(region)@,
            expr,
            type_only,
            head,
            (r@, final(region)@),
        ),
{
    match classify_head(types, ctx.labels, region, head, type_only) {
        Ok(found) => apply_callable(ctx, types, region, found, expr),
        Err(e) => fail(e),
    }
}

} // verus!
