//! Expressions with a keyword, and every other head that no shorter way takes: stage what has to
//! be evaluated, then resolve once against the overloads in scope.

use super::exec::{invoke_continue, invoked};
use super::resolve::{bare_outcomes_of, build_bare_outcomes, Resolution};
use super::resolve_dispatch::{
    counted, dispatch_of, outcome_at, outcome_of, resolve_dispatch, DispatchOutcome, DispatchView,
    EntryCounter,
};
use super::staging::{
    holds_index, is_eager_slot, stage_all_eager_parts, walk, walk_stages_exactly_the_open_slots,
    with_holes, PartWalk, StagedSubs,
};
use super::DecideCtx;
use crate::ast::{Spanned, WorkingPart};
use crate::error::{
    dispatch_failed, raised, ErrorKindView, ErrorView, FrameLabel, KError, KErrorKind, Subject,
};
use crate::ktype::TypeRegistry;
use crate::outcome::{
    await_requests, awaiting, continue_inline, expr_frame, fail, failed, in_place,
    park_resume_labelled, parked, request_deps, working_frame, DepRequest, Finish, FinishView,
    Outcome, OutcomeView, Resume, Work, WorkView,
};
use crate::region::{NodeMeta, Region, RegionView};
use crate::symbol::{Labels, Symbol};
use crate::text::enclosed;
use crate::value::{Carried, ExprId, FnId, ProducerId};
use vstd::prelude::*;
use vstd::string::StringExecFns;

verus! {

/// Why nothing matched.
pub const NO_MATCH: &'static str = "no matching function";

/// Why nothing matched, where a parameter asks for code and got a value.
pub const NO_MATCH_UNQUOTED: &'static str =
    "no matching function: an argument evaluated before dispatch; write #(…) to pass the code itself";

/// A slot with its bare name replaced by the value that the name resolved to; a slot whose name has
/// not resolved is left alone.
pub open spec fn spliced_slot(part: Spanned, outcome: Option<Resolution>) -> Spanned {
    match outcome {
        Some(Resolution::Resolved(cell)) => Spanned {
            value: WorkingPart::Spliced { cell, from_name: part.value.bare_name() },
            span: part.span,
        },
        _ => part,
    }
}

/// The bare name in a slot, for a splice to carry on.
pub fn bare_part_name(part: WorkingPart) -> (r: Option<Symbol>)
    ensures
        r == part.bare_name(),
{
    match part {
        WorkingPart::Ast(crate::ast::ExpressionPart::Identifier(name)) => Some(name),
        WorkingPart::Ast(crate::ast::ExpressionPart::Type(name)) => Some(name),
        _ => None,
    }
}

/// A slot with its bare name replaced by the value that the name resolved to.
fn splice_slot(part: Spanned, outcome: Option<Resolution>) -> (r: Spanned)
    ensures
        r == spliced_slot(part, outcome),
{
    match outcome {
        Some(Resolution::Resolved(cell)) => Spanned {
            value: WorkingPart::Spliced { cell, from_name: bare_part_name(part.value) },
            span: part.span,
        },
        _ => part,
    }
}

/// Whether the name at slot `i` is shown by its value: it has resolved, and it is not the name that
/// the expression declares.
pub open spec fn shows_value(
    outcomes: Seq<Option<Resolution>>,
    name_slot: Option<usize>,
    i: int,
) -> bool {
    name_slot != Some(i as usize) && (outcome_at(outcomes, i) matches Some(Resolution::Resolved(_)))
}

/// The parts of an expression with every resolved name shown by its value.
pub open spec fn shown_parts(
    parts: Seq<Spanned>,
    outcomes: Seq<Option<Resolution>>,
    name_slot: Option<usize>,
) -> Seq<Spanned> {
    Seq::new(
        parts.len(),
        |i: int|
            if shows_value(outcomes, name_slot, i) {
                spliced_slot(parts[i], outcome_at(outcomes, i))
            } else {
                parts[i]
            },
    )
}

/// Whether any name is shown by its value.
pub open spec fn shows_any(
    parts: Seq<Spanned>,
    outcomes: Seq<Option<Resolution>>,
    name_slot: Option<usize>,
) -> bool {
    exists|i: int| 0 <= i < parts.len() && #[trigger] shows_value(outcomes, name_slot, i)
}

/// The expression that an error about `expr` names, and the region that holds it.
pub open spec fn named_expr(
    region: RegionView,
    expr: ExprId,
    outcomes: Seq<Option<Resolution>>,
) -> (ExprId, RegionView) {
    let parts = region.parts(expr);
    let slot = region.name_slot(expr);
    if shows_any(parts, outcomes, slot) {
        (
            region.next_node(),
            region.with_node(shown_parts(parts, outcomes, slot), region.meta(expr)),
        )
    } else {
        (expr, region)
    }
}

/// Replaces every resolved name but the declared one by its value, for an error that is about to
/// name the expression.
pub fn splice_resolved_names(
    region: &mut Region,
    expr: ExprId,
    outcomes: &Vec<Option<Resolution>>,
) -> (r: ExprId)
    ensures
        (r, final(region)@) == named_expr(old(region)@, expr, outcomes@),
{
    let parts = region.parts_of(expr);
    let slot = region.binder_name_slot(expr);
    let meta = region.meta_of(expr);
    let mut run: Vec<Spanned> = Vec::new();
    let mut any = false;
    let mut i: usize = 0;
    let ghost all = shown_parts(parts@, outcomes@, slot);
    while i < parts.len()
        invariant
            i <= parts.len(),
            all == shown_parts(parts@, outcomes@, slot),
            run@ == all.take(i as int),
            any == exists|k: int| 0 <= k < i && #[trigger] shows_value(outcomes@, slot, k),
        decreases parts.len() - i,
    {
        let declared = match slot {
            Some(own) => own == i,
            None => false,
        };
        let outcome = outcome_of(outcomes, i);
        let shown = !declared && matches!(outcome, Some(Resolution::Resolved(_)));
        assert(shown == shows_value(outcomes@, slot, i as int));
        let next = if shown {
            splice_slot(parts[i], outcome)
        } else {
            parts[i]
        };
        any = any || shown;
        run.push(next);
        assert(all.take(i as int + 1) =~= all.take(i as int).push(next));
        i = i + 1;
    }
    assert(all.take(i as int) =~= all);
    if any {
        region.add_node(run, meta)
    } else {
        expr
    }
}

/// The parts of a call with the names at `wrap_indices` replaced by their values.
pub open spec fn wrapped_parts(
    parts: Seq<Spanned>,
    outcomes: Seq<Option<Resolution>>,
    wrap_indices: Seq<usize>,
) -> Seq<Spanned> {
    Seq::new(
        parts.len(),
        |i: int|
            if wrap_indices.contains(i as usize) {
                spliced_slot(parts[i], outcome_at(outcomes, i))
            } else {
                parts[i]
            },
    )
}

/// The call that a pick is invoked over, and the region that holds it.
pub open spec fn wrapped_expr(
    region: RegionView,
    expr: ExprId,
    outcomes: Seq<Option<Resolution>>,
    wrap_indices: Seq<usize>,
) -> (ExprId, RegionView) {
    if wrap_indices.len() == 0 {
        (expr, region)
    } else {
        (
            region.next_node(),
            region.with_node(
                wrapped_parts(region.parts(expr), outcomes, wrap_indices),
                region.meta(expr),
            ),
        )
    }
}

/// Replaces the names that a pick takes the value of.
pub fn splice_wrap_slots(
    region: &mut Region,
    expr: ExprId,
    outcomes: &Vec<Option<Resolution>>,
    wrap_indices: &Vec<usize>,
) -> (r: ExprId)
    ensures
        (r, final(region)@) == wrapped_expr(old(region)@, expr, outcomes@, wrap_indices@),
{
    if wrap_indices.len() == 0 {
        return expr;
    }
    let parts = region.parts_of(expr);
    let meta = region.meta_of(expr);
    let mut run: Vec<Spanned> = Vec::new();
    let mut i: usize = 0;
    let ghost all = wrapped_parts(parts@, outcomes@, wrap_indices@);
    while i < parts.len()
        invariant
            i <= parts.len(),
            all == wrapped_parts(parts@, outcomes@, wrap_indices@),
            run@ == all.take(i as int),
        decreases parts.len() - i,
    {
        let next = if holds_index(wrap_indices, i) {
            splice_slot(parts[i], outcome_of(outcomes, i))
        } else {
            parts[i]
        };
        run.push(next);
        assert(all.take(i as int + 1) =~= all.take(i as int).push(next));
        i = i + 1;
    }
    assert(all.take(i as int) =~= all);
    region.add_node(run, meta)
}

/// Why nothing matched.
pub open spec fn reason_text(quote_hint: bool) -> Seq<char> {
    if quote_hint {
        NO_MATCH_UNQUOTED@
    } else {
        NO_MATCH@
    }
}

/// Why nothing matched.
pub fn unmatched_reason(quote_hint: bool) -> (r: &'static str)
    ensures
        r@ == reason_text(quote_hint),
{
    if quote_hint {
        NO_MATCH_UNQUOTED
    } else {
        NO_MATCH
    }
}

/// The error of a name that is bound to nothing. A slot with a role names it.
pub open spec fn unbound_error(labels: &Labels, name: Symbol, role: Option<Symbol>) -> ErrorView {
    match role {
        Some(noun) => raised(
            ErrorKindView::shape_error(
                labels.text_of(noun) + " `"@ + labels.text_of(name) + "` is not a known type"@,
            ),
        ),
        None => raised(ErrorKindView::UnboundName(labels.text_of(name))),
    }
}

/// Names a name that is bound to nothing.
fn unbound(labels: &Labels, name: Symbol, role: Option<Symbol>) -> (r: KError)
    ensures
        r@ == unbound_error(labels, name, role),
{
    match role {
        Some(noun) => {
            let mut text = labels.render(noun);
            text.append(enclosed(" `", labels.render(name).as_str(), "` is not a known type").as_str());
            proof {
                assert(text@ =~= labels.text_of(noun) + " `"@ + labels.text_of(name)
                    + "` is not a known type"@);
            }
            KError::new(KErrorKind::shape_error(text))
        },
        None => KError::new(KErrorKind::UnboundName(labels.render(name))),
    }
}

/// What a resolution comes to.
pub open spec fn routed(
    ctx: &DecideCtx,
    types: &TypeRegistry,
    region: RegionView,
    expr: ExprId,
    outcomes: Seq<Option<Resolution>>,
    resolution: DispatchView,
) -> (OutcomeView, RegionView) {
    match resolution {
        DispatchView::Resolved { function, wrap_indices } => {
            let (call, grown) = wrapped_expr(region, expr, outcomes, wrap_indices);
            invoked(ctx, types, grown, function, call)
        },
        DispatchView::Ambiguous(candidates) => {
            let (named, grown) = named_expr(region, expr, outcomes);
            (failed(raised(ErrorKindView::AmbiguousDispatch { expr: named, candidates })), grown)
        },
        DispatchView::Unmatched { quote_hint } => match ctx.diagnosis {
            Some(text) => (failed(raised(ErrorKindView::shape_error(text@))), region),
            None => {
                let (named, grown) = named_expr(region, expr, outcomes);
                (
                    failed(
                        raised(
                            ErrorKindView::dispatch_failed(
                                Subject::Expr(named),
                                reason_text(quote_hint),
                            ),
                        ),
                    ),
                    grown,
                )
            },
        },
        DispatchView::UnboundName(name, role) => match ctx.diagnosis {
            Some(text) => (failed(raised(ErrorKindView::shape_error(text@))), region),
            None => (failed(unbound_error(ctx.labels, name, role)), region),
        },
        DispatchView::ParkOnProducers(sources) => (claims_awaited(sources, expr), region),
    }
}

/// The slot waits for the claims that resolution leaned on, then starts over.
pub open spec fn claims_awaited(sources: Seq<ProducerId>, expr: ExprId) -> OutcomeView {
    parked(sources, Some(expr_frame(FrameLabel::DispatchPark, expr)), Resume::Keyworded(expr))
}

/// Waits for the claims that resolution leaned on.
pub fn park_on_claims(sources: Vec<ProducerId>, expr: ExprId) -> (r: Outcome)
    ensures
        r@ == claims_awaited(sources@, expr),
{
    park_resume_labelled(
        sources,
        Some(working_frame(FrameLabel::DispatchPark, expr)),
        Resume::Keyworded(expr),
    )
}

/// The resolution of an expression against the scope of the slot.
pub open spec fn resolution_in(
    ctx: &DecideCtx,
    types: &TypeRegistry,
    region: RegionView,
    expr: ExprId,
) -> DispatchView {
    dispatch_of(
        ctx.functions,
        types,
        region,
        ctx.scope.levels@,
        ctx.chain,
        expr,
        bare_outcomes_of(types, ctx.scope.levels@, region.parts(expr), ctx.chain),
    )
}

/// What resolving an expression and acting on it comes to.
pub open spec fn resolved_and_invoked(
    ctx: &DecideCtx,
    types: &TypeRegistry,
    region: RegionView,
    expr: ExprId,
) -> (OutcomeView, RegionView) {
    routed(
        ctx,
        types,
        region,
        expr,
        bare_outcomes_of(types, ctx.scope.levels@, region.parts(expr), ctx.chain),
        resolution_in(ctx, types, region, expr),
    )
}

/// Resolves an expression against the scope chain, once, and acts on the outcome.
pub fn resolve_and_invoke(
    ctx: &DecideCtx,
    types: &TypeRegistry,
    region: &mut Region,
    expr: ExprId,
    counter: &mut EntryCounter,
) -> (r: Outcome)
    ensures
        (r@, final(region)@) == resolved_and_invoked(ctx, types, old(region)@, expr),
        final(counter).entries == counted(old(counter).entries),
{
    let parts = region.parts_of(expr);
    let outcomes = build_bare_outcomes(ctx, types, &parts);
    let resolution = resolve_dispatch(
        ctx.scope,
        ctx.functions,
        types,
        region,
        expr,
        ctx.chain,
        &outcomes,
        counter,
    );
    match resolution {
        DispatchOutcome::Resolved(resolved) => {
            let call = splice_wrap_slots(region, expr, &outcomes, &resolved.wrap_indices);
            invoke_continue(ctx, types, region, resolved.function, call)
        },
        DispatchOutcome::Ambiguous(candidates) => {
            let named = splice_resolved_names(region, expr, &outcomes);
            fail(KError::new(KErrorKind::AmbiguousDispatch { expr: named, candidates }))
        },
        DispatchOutcome::Unmatched { quote_hint } => {
            if let Some(text) = ctx.diagnosis {
                return fail(KError::new(KErrorKind::shape_error(text.clone())));
            }
            let named = splice_resolved_names(region, expr, &outcomes);
            fail(dispatch_failed(named, unmatched_reason(quote_hint)))
        },
        DispatchOutcome::UnboundName(name, role) => {
            // A form that is recognized speaks first: the misspelt slot is why nothing matched.
            if let Some(text) = ctx.diagnosis {
                return fail(KError::new(KErrorKind::shape_error(text.clone())));
            }
            fail(unbound(ctx.labels, name, role))
        },
        DispatchOutcome::ParkOnProducers(sources) => park_on_claims(sources, expr),
    }
}

/// The slot resolves the expression on its next turn, under the declared return that it has taken
/// on.
pub fn redispatch_continue(ctx: &DecideCtx, expr: ExprId) -> (r: Outcome)
    ensures
        r@ == in_place(WorkView::Keyworded(expr), ctx.obligation, expr),
{
    continue_inline(Work::Keyworded(expr), ctx.obligation, expr)
}

/// What a call whose slots are all filled comes to: the committed pick is invoked, and without one
/// the expression is resolved.
pub open spec fn filled_call(
    ctx: &DecideCtx,
    types: &TypeRegistry,
    region: RegionView,
    expr: ExprId,
    picked: Option<FnId>,
) -> (OutcomeView, RegionView) {
    match picked {
        Some(function) => invoked(ctx, types, region, function, expr),
        None => (in_place(WorkView::Keyworded(expr), ctx.obligation, expr), region),
    }
}

/// Goes on with a call whose slots are all filled.
pub fn finish_eager_subs(
    ctx: &DecideCtx,
    types: &TypeRegistry,
    region: &mut Region,
    expr: ExprId,
    picked: Option<FnId>,
) -> (r: Outcome)
    ensures
        (r@, final(region)@) == filled_call(ctx, types, old(region)@, expr, picked),
{
    match picked {
        Some(function) => invoke_continue(ctx, types, region, function, expr),
        None => redispatch_continue(ctx, expr),
    }
}

/// What staged work of a call comes to.
pub open spec fn staged_call(
    ctx: &DecideCtx,
    types: &TypeRegistry,
    region: RegionView,
    expr: ExprId,
    part_indices: Seq<usize>,
    requests: Seq<DepRequest>,
    picked: Option<FnId>,
) -> (OutcomeView, RegionView) {
    if requests.len() == 0 {
        filled_call(ctx, types, region, expr, picked)
    } else {
        (
            awaiting(
                request_deps(requests),
                Some(expr_frame(FrameLabel::Bind, expr)),
                FinishView::EagerSubs { expr, part_indices, picked },
            ),
            region,
        )
    }
}

/// Waits for the staged work of a call; its results fill the holes of `expr`.
pub fn install_eager_subs(
    ctx: &DecideCtx,
    types: &TypeRegistry,
    region: &mut Region,
    expr: ExprId,
    staged: StagedSubs,
    picked: Option<FnId>,
) -> (r: Outcome)
    ensures
        (r@, final(region)@) == staged_call(
            ctx,
            types,
            old(region)@,
            expr,
            staged.part_indices@,
            staged.requests@,
            picked,
        ),
{
    if staged.is_empty() {
        return finish_eager_subs(ctx, types, region, expr, picked);
    }
    await_requests(
        staged.requests,
        Some(working_frame(FrameLabel::Bind, expr)),
        Finish::EagerSubs { expr, part_indices: staged.part_indices, picked },
    )
}

/// The result that fills slot `i`: the one staged for it.
pub open spec fn result_for(slots: Seq<usize>, results: Seq<Carried>, i: int) -> Option<Carried>
    decreases slots.len(),
{
    if slots.len() == 0 || results.len() == 0 {
        None
    } else if slots[0] == i {
        Some(results[0])
    } else {
        result_for(slots.drop_first(), results.drop_first(), i)
    }
}

/// The result that fills slot `i`.
fn find_result(slots: &Vec<usize>, results: &Vec<Carried>, i: usize) -> (r: Option<Carried>)
    ensures
        r == result_for(slots@, results@, i as int),
{
    let mut k: usize = 0;
    proof {
        assert(slots@.skip(0) =~= slots@);
        assert(results@.skip(0) =~= results@);
    }
    while k < slots.len() && k < results.len()
        invariant
            k <= slots.len(),
            k <= results.len(),
            result_for(slots@, results@, i as int) == result_for(
                slots@.skip(k as int),
                results@.skip(k as int),
                i as int,
            ),
        decreases slots.len() - k,
    {
        proof {
            assert(slots@.skip(k as int).drop_first() =~= slots@.skip(k as int + 1));
            assert(results@.skip(k as int).drop_first() =~= results@.skip(k as int + 1));
        }
        if slots[k] == i {
            return Some(results[k]);
        }
        k = k + 1;
    }
    None
}

/// The parts of a call with the results in their holes.
pub open spec fn filled_parts(parts: Seq<Spanned>, slots: Seq<usize>, results: Seq<Carried>) -> Seq<
    Spanned,
> {
    Seq::new(
        parts.len(),
        |i: int|
            match result_for(slots, results, i) {
                Some(cell) => Spanned {
                    value: WorkingPart::Spliced { cell, from_name: None },
                    span: parts[i].span,
                },
                None => parts[i],
            },
    )
}

/// What a staged call comes to once its work has landed.
pub open spec fn subs_landed(
    ctx: &DecideCtx,
    types: &TypeRegistry,
    region: RegionView,
    expr: ExprId,
    part_indices: Seq<usize>,
    picked: Option<FnId>,
    results: Seq<Carried>,
) -> (OutcomeView, RegionView) {
    let grown = region.with_node(
        filled_parts(region.parts(expr), part_indices, results),
        region.meta(expr),
    );
    filled_call(ctx, types, grown, region.next_node(), picked)
}

/// Fills the holes of an expression with the results staged for them.
pub fn fill_holes(
    region: &mut Region,
    expr: ExprId,
    part_indices: &Vec<usize>,
    results: &Vec<Carried>,
) -> (r: ExprId)
    ensures
        r == old(region)@.next_node(),
        final(region)@ == old(region)@.with_node(
            filled_parts(old(region)@.parts(expr), part_indices@, results@),
            old(region)@.meta(expr),
        ),
{
    let parts = region.parts_of(expr);
    let meta = region.meta_of(expr);
    let mut run: Vec<Spanned> = Vec::new();
    let mut i: usize = 0;
    let ghost all = filled_parts(parts@, part_indices@, results@);
    while i < parts.len()
        invariant
            i <= parts.len(),
            all == filled_parts(parts@, part_indices@, results@),
            run@ == all.take(i as int),
        decreases parts.len() - i,
    {
        let next = match find_result(part_indices, results, i) {
            Some(cell) => Spanned {
                value: WorkingPart::Spliced { cell, from_name: None },
                span: parts[i].span,
            },
            None => parts[i],
        };
        run.push(next);
        assert(all.take(i as int + 1) =~= all.take(i as int).push(next));
        i = i + 1;
    }
    assert(all.take(i as int) =~= all);
    region.add_node(run, meta)
}

/// Fills the holes of a staged call with the results and goes on with it.
pub fn land_eager_subs(
    ctx: &DecideCtx,
    types: &TypeRegistry,
    region: &mut Region,
    expr: ExprId,
    part_indices: &Vec<usize>,
    picked: Option<FnId>,
    results: &Vec<Carried>,
) -> (r: Outcome)
    ensures
        (r@, final(region)@) == subs_landed(
            ctx,
            types,
            old(region)@,
            expr,
            part_indices@,
            picked,
            results@,
        ),
{
    let filled = fill_holes(region, expr, part_indices, results);
    finish_eager_subs(ctx, types, region, filled, picked)
}

/// What the decision on a keyworded expression comes to.
pub open spec fn keyworded(
    ctx: &DecideCtx,
    types: &TypeRegistry,
    region: RegionView,
    expr: ExprId,
) -> (OutcomeView, RegionView) {
    let parts = region.parts(expr);
    let meta = region.meta(expr);
    let walked = walk(region, parts, meta, Seq::empty(), parts.len());
    if walked.slots.len() > 0 {
        staged_call(
            ctx,
            types,
            walked.region.with_node(with_holes(parts, walked.slots), meta),
            walked.region.next_node(),
            walked.slots,
            walked.requests,
            None,
        )
    } else {
        resolved_and_invoked(ctx, types, region, expr)
    }
}

/// Decides on a keyworded expression. What has to be evaluated is staged before any overload is
/// considered, so the pick is made over values that have landed.
pub fn initial(
    ctx: &DecideCtx,
    types: &TypeRegistry,
    region: &mut Region,
    expr: ExprId,
    counter: &mut EntryCounter,
) -> (r: Outcome)
    ensures
        (r@, final(region)@) == keyworded(ctx, types, old(region)@, expr),
        ({
            let parts = old(region)@.parts(expr);
            let walked = walk(
                old(region)@,
                parts,
                old(region)@.meta(expr),
                Seq::empty(),
                parts.len(),
            );
            final(counter).entries == if walked.slots.len() > 0 {
                old(counter).entries
            } else {
                counted(old(counter).entries)
            }
        }),
{
    let none: Vec<usize> = Vec::new();
    proof {
        assert(none@ =~= Seq::<usize>::empty());
    }
    match stage_all_eager_parts(region, expr, &none) {
        PartWalk::Respliced { expr: held, staged } => install_eager_subs(
            ctx,
            types,
            region,
            held,
            staged,
            None,
        ),
        PartWalk::Unchanged => resolve_and_invoke(ctx, types, region, expr, counter),
    }
}

proof fn staged_slot_has_its_result(slots: Seq<usize>, results: Seq<Carried>, i: int)
    requires
        slots.len() == results.len(),
        0 <= i <= usize::MAX,
        slots.contains(i as usize),
    ensures
        result_for(slots, results, i) is Some,
    decreases slots.len(),
{
    if slots[0] != i {
        let k = choose|k: int| 0 <= k < slots.len() && slots[k] == i as usize;
        assert(slots.drop_first()[k - 1] == i as usize);
        staged_slot_has_its_result(slots.drop_first(), results.drop_first(), i);
    }
}

/// A part is evaluated at most once: once the staged work of an expression has landed, nothing of
/// it is left to evaluate, so the next look at it resolves the call.
pub proof fn landed_calls_stage_nothing_further(
    region: RegionView,
    parts: Seq<Spanned>,
    meta: NodeMeta,
    results: Seq<Carried>,
    later: RegionView,
)
    requires
        parts.len() <= usize::MAX,
        results.len() == walk(region, parts, meta, Seq::empty(), parts.len()).slots.len(),
        later.extends(region),
    ensures
        ({
            let slots = walk(region, parts, meta, Seq::empty(), parts.len()).slots;
            let filled = filled_parts(with_holes(parts, slots), slots, results);
            walk(later, filled, meta, Seq::empty(), filled.len()).slots.len() == 0
        }),
{
    let none: Seq<usize> = Seq::empty();
    let slots = walk(region, parts, meta, none, parts.len()).slots;
    let filled = filled_parts(with_holes(parts, slots), slots, results);
    walk_stages_exactly_the_open_slots(region, parts, meta, none, parts.len());
    walk_stages_exactly_the_open_slots(later, filled, meta, none, filled.len());
    let again = walk(later, filled, meta, none, filled.len()).slots;
    if again.len() > 0 {
        let i = again[0] as int;
        assert(again.contains(again[0]));
        assert(again.contains(i as usize));
        assert(is_eager_slot(filled[i].value));
        if slots.contains(i as usize) {
            staged_slot_has_its_result(slots, results, i);
        } else {
            assert(!is_eager_slot(parts[i].value) || region.keeps_raw(meta, i));
            if region.keeps_raw(meta, i) {
                let stamp = meta.raw->0;
                assert(region.stamps[stamp.at as int] == later.stamps[stamp.at as int]);
            }
            unstaged_slot_has_no_result(slots, results, i);
        }
    }
}

proof fn unstaged_slot_has_no_result(slots: Seq<usize>, results: Seq<Carried>, i: int)
    requires
        0 <= i <= usize::MAX,
        !slots.contains(i as usize),
    ensures
        result_for(slots, results, i) is None,
    decreases slots.len(),
{
    if slots.len() > 0 && results.len() > 0 {
        assert(slots[0] != i as usize);
        assert forall|k: int| 0 <= k < slots.drop_first().len() implies slots.drop_first()[k]
            != i as usize by {
            assert(slots[k + 1] != i as usize);
        }
        unstaged_slot_has_no_result(slots.drop_first(), results.drop_first(), i);
    }
}

} // verus!
