//! The shapes that one turn settles: a lone name, a lone type, a call of a type, a lone literal.

use super::apply_callable::{applied, apply_callable, ResolvedCallable};
use super::exec::{literal_object, to_kobject};
use super::resolve::{channel_of, type_channel, TypeChannel};
use super::DecideCtx;
use crate::ast::{lone_shape, ExpressionPart, WorkingPart};
use crate::error::{raised, ErrorKindView, KError, KErrorKind};
use crate::ktype::TypeRegistry;
use crate::outcome::{
    await_requests, awaiting, become_dispatch, becomes, fail, failed, finished,
    forward_to_producer, park_resume, parked, request_deps, DepRequest, Finish, FinishView, Outcome,
    OutcomeView, Resume,
};
use crate::region::{Region, RegionView};
use crate::scope::{type_in, value_in, NameLookup, TypeLookup};
use crate::symbol::Symbol;
use crate::value::{Carried, ExprId, KObject, ObjectView, ProducerId};
use vstd::pervasive::unreached;
use vstd::prelude::*;

verus! {

/// What a lone value name comes to: its value, the result of its binder, or an error.
pub open spec fn identifier_outcome(ctx: &DecideCtx, name: Symbol) -> OutcomeView {
    match value_in(ctx.scope.levels@, name, ctx.chain) {
        Some(NameLookup::Bound(carried)) => finished(carried),
        Some(NameLookup::Parked(source)) => OutcomeView::Forward(source),
        None => failed(raised(ErrorKindView::UnboundName(ctx.labels.text_of(name)))),
    }
}

/// Decides on a lone value name.
pub fn bare_identifier(ctx: &DecideCtx, name: Symbol) -> (r: Outcome)
    ensures
        r@ == identifier_outcome(ctx, name),
{
    match ctx.scope.resolve_value(name, ctx.chain) {
        Some(NameLookup::Bound(carried)) => Outcome::Done(Ok(carried)),
        Some(NameLookup::Parked(source)) => forward_to_producer(source),
        None => fail(KError::new(KErrorKind::UnboundName(ctx.labels.render(name)))),
    }
}

/// What a lone type name comes to. The binder's own result is not the type, so the slot resolves
/// the name again once the binder has landed.
pub open spec fn type_leaf_outcome(ctx: &DecideCtx, types: &TypeRegistry, name: Symbol) -> OutcomeView {
    match channel_of(types, ctx.scope.levels@, name, ctx.chain) {
        TypeChannel::Done(kt) => finished(Carried::Type(kt)),
        TypeChannel::Unbound(missing) => failed(
            raised(ErrorKindView::UnboundName(ctx.labels.text_of(missing))),
        ),
        TypeChannel::Parked(source) => parked(seq![source], None, Resume::TypeLeaf(name)),
    }
}

/// A run of one source.
fn lone_source(source: ProducerId) -> (r: Vec<ProducerId>)
    ensures
        r@ == seq![source],
{
    let mut sources: Vec<ProducerId> = Vec::new();
    sources.push(source);
    assert(sources@ =~= seq![source]);
    sources
}

/// Decides on a lone type name.
pub fn bare_type_leaf(ctx: &DecideCtx, types: &TypeRegistry, name: Symbol) -> (r: Outcome)
    ensures
        r@ == type_leaf_outcome(ctx, types, name),
{
    match type_channel(ctx.scope, name, ctx.chain, types) {
        TypeChannel::Done(kt) => Outcome::Done(Ok(Carried::Type(kt))),
        TypeChannel::Unbound(missing) => fail(
            KError::new(KErrorKind::UnboundName(ctx.labels.render(missing))),
        ),
        TypeChannel::Parked(source) => park_resume(lone_source(source), Resume::TypeLeaf(name)),
    }
}

/// The expression behind a lone `:(…)` part.
pub open spec fn sigiled_body(region: RegionView, expr: ExprId) -> Option<ExprId> {
    if region.parts(expr).len() == 0 {
        None
    } else {
        match region.parts(expr)[0].value {
            WorkingPart::Ast(ExpressionPart::SigiledTypeExpr(inner)) => Some(inner),
            _ => None,
        }
    }
}

/// Decides on a lone `:(…)` part: the slot goes on with what is inside.
pub fn sigiled_type_expr(ctx: &DecideCtx, region: &Region, expr: ExprId) -> (r: Outcome)
    requires
        sigiled_body(region@, expr) is Some,
    ensures
        r@ == becomes(sigiled_body(region@, expr)->0, ctx.obligation),
{
    let parts = region.parts_of(expr);
    match parts[0].value {
        WorkingPart::Ast(ExpressionPart::SigiledTypeExpr(inner)) => become_dispatch(
            ctx.obligation,
            inner,
        ),
        _ => unreached(),
    }
}

/// The fields of a lone record-type part.
pub open spec fn record_fields(region: RegionView, expr: ExprId) -> Option<ExprId> {
    if region.parts(expr).len() == 0 {
        None
    } else {
        match region.parts(expr)[0].value {
            WorkingPart::Ast(ExpressionPart::RecordType(fields)) => Some(fields),
            WorkingPart::RecordType(fields) => Some(fields),
            _ => None,
        }
    }
}

/// Decides on a lone record type: its fields are walked, whether they were parsed as they stand or
/// had their co-declared references threaded.
pub fn record_type(region: &Region, expr: ExprId) -> (r: Outcome)
    requires
        record_fields(region@, expr) is Some,
    ensures
        r@ == (OutcomeView::Elaborate { fields: record_fields(region@, expr)->0 }),
{
    let parts = region.parts_of(expr);
    match parts[0].value {
        WorkingPart::Ast(ExpressionPart::RecordType(fields)) => Outcome::Elaborate { fields },
        WorkingPart::RecordType(fields) => Outcome::Elaborate { fields },
        _ => unreached(),
    }
}

/// The slot waits for a literal and hands it on.
pub open spec fn literal_awaited(request: DepRequest) -> OutcomeView {
    awaiting(request_deps(seq![request]), None, FinishView::Literal)
}

/// Waits for a literal; an error of it is passed on without a frame.
pub fn park_on_literal(request: DepRequest) -> (r: Outcome)
    ensures
        r@ == literal_awaited(request),
{
    let mut requests: Vec<DepRequest> = Vec::new();
    requests.push(request);
    assert(requests@ =~= seq![request]);
    await_requests(requests, None, Finish::Literal)
}

/// Hands the value of a literal on.
pub fn finish_literal(value: Carried) -> (r: Outcome)
    ensures
        r@ == finished(value),
{
    Outcome::Done(Ok(value))
}

/// What a lone literal-shaped part comes to.
pub open spec fn passed_through(ctx: &DecideCtx, region: RegionView, part: WorkingPart) -> (
    OutcomeView,
    RegionView,
) {
    match part {
        WorkingPart::Ast(ExpressionPart::Literal(literal)) => (
            finished(Carried::Object(region.next_object())),
            region.with_object(literal_object(literal), false),
        ),
        WorkingPart::Spliced { cell, .. } => (finished(cell), region),
        WorkingPart::Ast(ExpressionPart::QuotedExpression(body)) => (
            finished(Carried::Object(region.next_object())),
            region.with_object(ObjectView::KExpression(body), false),
        ),
        WorkingPart::Ast(ExpressionPart::Expression(inner)) => (
            becomes(inner, ctx.obligation),
            region,
        ),
        WorkingPart::Expression(inner) => (becomes(inner, ctx.obligation), region),
        WorkingPart::Ast(ExpressionPart::ListLiteral(items)) => (
            literal_awaited(DepRequest::ListLit(items)),
            region,
        ),
        WorkingPart::Ast(ExpressionPart::DictLiteral(pairs)) => (
            literal_awaited(DepRequest::DictLit(pairs)),
            region,
        ),
        WorkingPart::Ast(ExpressionPart::RecordLiteral(fields)) => (
            literal_awaited(DepRequest::RecordLit(fields)),
            region,
        ),
        _ => arbitrary(),
    }
}

/// Decides on a lone literal-shaped part.
pub fn literal_pass_through(ctx: &DecideCtx, region: &mut Region, expr: ExprId) -> (r: Outcome)
    requires
        old(region)@.parts(expr).len() == 1,
        lone_shape(old(region)@.parts(expr)[0].value) is LiteralPassThrough,
    ensures
        (r@, final(region)@) == passed_through(
            ctx,
            old(region)@,
            old(region)@.parts(expr)[0].value,
        ),
{
    let parts = region.parts_of(expr);
    match parts[0].value {
        WorkingPart::Ast(ExpressionPart::Literal(literal)) => {
            let object = region.add_object(to_kobject(literal), false);
            Outcome::Done(Ok(Carried::Object(object)))
        },
        WorkingPart::Spliced { cell, .. } => Outcome::Done(Ok(cell)),
        WorkingPart::Ast(ExpressionPart::QuotedExpression(body)) => {
            let object = region.add_object(KObject::KExpression(body), false);
            Outcome::Done(Ok(Carried::Object(object)))
        },
        WorkingPart::Ast(ExpressionPart::Expression(inner)) => become_dispatch(
            ctx.obligation,
            inner,
        ),
        WorkingPart::Expression(inner) => become_dispatch(ctx.obligation, inner),
        WorkingPart::Ast(ExpressionPart::ListLiteral(items)) => park_on_literal(
            DepRequest::ListLit(items),
        ),
        WorkingPart::Ast(ExpressionPart::DictLiteral(pairs)) => park_on_literal(
            DepRequest::DictLit(pairs),
        ),
        WorkingPart::Ast(ExpressionPart::RecordLiteral(fields)) => park_on_literal(
            DepRequest::RecordLit(fields),
        ),
        _ => unreached(),
    }
}

/// The type name that stands as the head.
pub open spec fn type_head(region: RegionView, expr: ExprId) -> Option<Symbol> {
    if region.parts(expr).len() == 0 {
        None
    } else {
        match region.parts(expr)[0].value {
            WorkingPart::Ast(ExpressionPart::Type(name)) => Some(name),
            _ => None,
        }
    }
}

/// What a call of a type comes to.
pub open spec fn type_called(
    ctx: &DecideCtx,
    before: &TypeRegistry,
    after: &TypeRegistry,
    region: RegionView,
    expr: ExprId,
    name: Symbol,
    result: (OutcomeView, RegionView),
) -> bool {
    match type_in(ctx.scope.levels@, name, ctx.chain) {
        Some(TypeLookup::Bound(identity)) => applied(
            ctx,
            before,
            after,
            region,
            ResolvedCallable::Constructor { identity },
            expr,
            result,
        ),
        Some(TypeLookup::Parked(source)) => after.nodes@ == before.nodes@ && result == (
            parked(seq![source], None, Resume::TypeCall(expr)),
            region,
        ),
        None => after.nodes@ == before.nodes@ && result == (
            failed(raised(ErrorKindView::UnboundName(ctx.labels.text_of(name)))),
            region,
        ),
    }
}

/// Decides on a call of a type.
pub fn type_call(
    ctx: &DecideCtx,
    types: &mut TypeRegistry,
    region: &mut Region,
    expr: ExprId,
) -> (r: Outcome)
    requires
        old(types).wf(),
        type_head(old(region)@, expr) is Some,
    ensures
        final(types).wf(),
        final(types).extends(old(types)),
        type_called(
            ctx,
            old(types),
            final(types),
            old(region)@,
            expr,
            type_head(old(region)@, expr)->0,
            (r@, final(region)@),
        ),
{
    let parts = region.parts_of(expr);
    match parts[0].value {
        WorkingPart::Ast(ExpressionPart::Type(name)) => match ctx.scope.resolve_type_with_chain(
            name,
            ctx.chain,
        ) {
            Some(TypeLookup::Bound(identity)) => apply_callable(
                ctx,
                types,
                region,
                ResolvedCallable::Constructor { identity },
                expr,
            ),
            Some(TypeLookup::Parked(source)) => park_resume(
                lone_source(source),
                Resume::TypeCall(expr),
            ),
            None => fail(KError::new(KErrorKind::UnboundName(ctx.labels.render(name)))),
        },
        _ => unreached(),
    }
}

} // verus!
