//! Calls whose head is a value name: the name is looked up, and what it is bound to is applied.

use super::apply_callable::{applied, apply_callable, ResolvedCallable};
use super::head_deferred::{adopt_function, callable, defer_head, head_awaited};
use super::staging::synthesized;
use super::DecideCtx;
use crate::ast::{ExpressionPart, WorkingPart};
use crate::error::{raised, ErrorKindView, ErrorView, KError, KErrorKind};
use crate::function::{carried_text, summarize};
use crate::ktype::TypeRegistry;
use crate::outcome::{fail, failed, park_resume, parked, Outcome, OutcomeView, Resume};
use crate::region::{Region, RegionView};
use crate::scope::{value_in, NameLookup};
use crate::symbol::{Labels, Symbol};
use crate::text::owned;
use crate::value::{Carried, ExprId, ProducerId};
use vstd::prelude::*;

verus! {

/// A value that is no function, used as one.
pub open spec fn not_a_function(
    types: &TypeRegistry,
    labels: &Labels,
    region: RegionView,
    carried: Carried,
) -> ErrorView {
    raised(
        ErrorKindView::TypeMismatch {
            arg: "verb"@,
            expected: "KFunction"@,
            got: carried_text(types, labels, region, carried),
        },
    )
}

/// The value name that stands as the head.
pub open spec fn named_head(region: RegionView, expr: ExprId) -> Option<Symbol> {
    if region.parts(expr).len() == 0 {
        None
    } else {
        match region.parts(expr)[0].value {
            WorkingPart::Ast(ExpressionPart::Identifier(name)) => Some(name),
            _ => None,
        }
    }
}

/// What calling the value that a head is bound to comes to.
pub open spec fn value_called(
    ctx: &DecideCtx,
    before: &TypeRegistry,
    after: &TypeRegistry,
    region: RegionView,
    expr: ExprId,
    carried: Carried,
    result: (OutcomeView, RegionView),
) -> bool {
    match callable(region, carried) {
        Some(function) => applied(
            ctx,
            before,
            after,
            region,
            ResolvedCallable::Function(function),
            expr,
            result,
        ),
        None => after.nodes@ == before.nodes@ && result == (
            failed(not_a_function(before, ctx.labels, region, carried)),
            region,
        ),
    }
}

/// Calls the value that a head is bound to. Only a function is taken.
pub fn dispatch_callable_value(
    ctx: &DecideCtx,
    types: &mut TypeRegistry,
    region: &mut Region,
    expr: ExprId,
    carried: Carried,
) -> (r: Outcome)
    requires
        old(types).wf(),
    ensures
        final(types).wf(),
        final(types).extends(old(types)),
        value_called(
            ctx,
            old(types),
            final(types),
            old(region)@,
            expr,
            carried,
            (r@, final(region)@),
        ),
{
    match adopt_function(region, carried) {
        Some(function) => apply_callable(
            ctx,
            types,
            region,
            ResolvedCallable::Function(function),
            expr,
        ),
        None => fail(
            KError::new(
                KErrorKind::TypeMismatch {
                    arg: owned("verb"),
                    expected: owned("KFunction"),
                    got: summarize(types, ctx.labels, region, carried),
                },
            ),
        ),
    }
}

/// Waits for the binder of the head, then starts over.
pub fn install_head_park(source: ProducerId, expr: ExprId) -> (r: Outcome)
    ensures
        r@ == parked(seq![source], None, Resume::FunctionValue(expr)),
{
    let mut sources: Vec<ProducerId> = Vec::new();
    sources.push(source);
    assert(sources@ =~= seq![source]);
    park_resume(sources, Resume::FunctionValue(expr))
}

/// What the decision on a call of a function value comes to.
pub open spec fn function_value(
    ctx: &DecideCtx,
    before: &TypeRegistry,
    after: &TypeRegistry,
    region: RegionView,
    expr: ExprId,
    result: (OutcomeView, RegionView),
) -> bool {
    match named_head(region, expr) {
        None => after.nodes@ == before.nodes@ && result == (
            head_awaited(expr, region.next_node(), false),
            region.with_node(seq![region.parts(expr)[0]], synthesized(region.meta(expr))),
        ),
        Some(name) => match value_in(ctx.scope.levels@, name, ctx.chain) {
            Some(NameLookup::Bound(carried)) => value_called(
                ctx,
                before,
                after,
                region,
                expr,
                carried,
                result,
            ),
            Some(NameLookup::Parked(source)) => after.nodes@ == before.nodes@ && result == (
                parked(seq![source], None, Resume::FunctionValue(expr)),
                region,
            ),
            None => after.nodes@ == before.nodes@ && result == (
                failed(raised(ErrorKindView::UnboundName(ctx.labels.text_of(name)))),
                region,
            ),
        },
    }
}

/// Decides on a call of a function value. A head that carries no name is evaluated instead.
pub fn initial(
    ctx: &DecideCtx,
    types: &mut TypeRegistry,
    region: &mut Region,
    expr: ExprId,
) -> (r: Outcome)
    requires
        old(types).wf(),
        old(region)@.parts(expr).len() > 0,
    ensures
        final(types).wf(),
        final(types).extends(old(types)),
        function_value(
            ctx,
            old(types),
            final(types),
            old(region)@,
            expr,
            (r@, final(region)@),
        ),
{
    let parts = region.parts_of(expr);
    match parts[0].value {
        WorkingPart::Ast(ExpressionPart::Identifier(name)) => match ctx.scope.resolve_value(
            name,
            ctx.chain,
        ) {
            Some(NameLookup::Bound(carried)) => dispatch_callable_value(
                ctx,
                types,
                region,
                expr,
                carried,
            ),
            Some(NameLookup::Parked(source)) => install_head_park(source, expr),
            None => fail(KError::new(KErrorKind::UnboundName(ctx.labels.render(name)))),
        },
        _ => defer_head(region, expr),
    }
}

} // verus!
