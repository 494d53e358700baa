//! Expressions with a keyword: resolve, walk the slots of the pick, and invoke; or park on what has
//! not landed; or evaluate what the pick needs and resolve again.

use super::bare_name::{
    bare_carrier, bare_name_of, build_bare_outcomes, first_failure, option_view, outcome_views,
    resolve_bare_carrier, slot_outcomes, BareCarrier, DispositionView, NameOutcome, NameView,
    ProducerDisposition, Standings,
};
use super::outcome::{
    continued, dep_of, dep_views, fail, failed, go_on, park_resume, parked, request_dep,
    Continuation, ContinuationView, DepView, DispatchDep, Finish, FinishView, Outcome, OutcomeView,
    Resume, Work,
};
use super::resolve_dispatch::{
    dispatch_of, outcome_at, ClassifiedSlots, DispatchOutcome, DispatchView, Resolved, SlotsView,
};
use crate::ast::{Spanned, WorkingPart};
use crate::decide::keyworded::{fill_holes, filled_parts, NO_MATCH};
use crate::decide::resolve_dispatch::{counted, EntryCounter};
use crate::decide::staging::{
    hole, holds_index, is_eager_slot, stage_all_eager_parts, stage_eager_working_part, staged_slot,
    staged_slot_placeholder, with_holes, PartWalk,
};
use crate::decide::DecideCtx;
use crate::error::{
    dispatch_failed, propagate_dep_error, propagated, raised, ErrorKindView, ErrorView, FrameLabel,
    KError, KErrorKind, Subject,
};
use crate::function::Body;
use crate::ktype::TypeRegistry;
use crate::outcome::{expr_frame, working_frame, DepRequest, FramePlacement};
use crate::region::{Region, RegionView};
use crate::symbol::Labels;
use crate::text::enclosed;
use crate::value::{push_new, with_new, Carried, ExprId, FnId, NodeId, ProducerId};
use vstd::prelude::*;

verus! {

/// Where the value of a slot comes from.
#[derive(Clone, Copy, PartialEq, Eq, Structural, Debug)]
pub enum PendingSub {
    /// A slot of the scheduler that works on it already.
    Reuse(NodeId),
    /// Work to submit. `binder_covered` is set where it belongs to the declaration of a statement
    /// that has claimed what it declares.
    Fresh { request: DepRequest, binder_covered: bool },
}

/// Work that fills a slot.
#[derive(Clone, Copy, PartialEq, Eq, Structural, Debug)]
pub struct StagedSub {
    pub slot: usize,
    pub sub: PendingSub,
}

/// What a walk over the slots of a pick came to.
pub struct PartWalkResult {
    pub new_parts: Vec<Spanned>,
    pub producers_to_wait: Vec<ProducerId>,
    pub staged_subs: Vec<StagedSub>,
}

/// A walk over the slots of a pick that has come some way.
pub struct WalkView {
    pub region: RegionView,
    pub parts: Seq<Spanned>,
    pub waits: Seq<ProducerId>,
    pub staged: Seq<StagedSub>,
    pub error: Option<ErrorView>,
}

/// The error of a name that would wait for itself.
pub open spec fn alias_cycle(labels: &Labels, part: WorkingPart) -> ErrorView {
    raised(
        ErrorKindView::SchedulerDeadlock {
            pending: 1,
            sample: "cycle in type alias `"@ + (match part.bare_name() {
                Some(name) => labels.text_of(name),
                None => Seq::empty(),
            }) + "`"@,
        },
    )
}

/// Parks a walk on a producer, unless that would make the slot wait for itself.
pub open spec fn walk_parked(
    labels: &Labels,
    standings: &Standings,
    idx: NodeId,
    part: WorkingPart,
    producer: ProducerId,
    waits: Seq<ProducerId>,
) -> Result<Seq<ProducerId>, ErrorView> {
    if standings.awaits(producer, idx) {
        Err(alias_cycle(labels, part))
    } else {
        Ok(with_new(waits, producer))
    }
}

/// Parks a walk on a producer, unless that would make the slot wait for itself.
pub fn park_walk_producer(
    labels: &Labels,
    standings: &Standings,
    producer: ProducerId,
    idx: NodeId,
    part: WorkingPart,
    producers_to_wait: &mut Vec<ProducerId>,
) -> (r: Result<(), KError>)
    ensures
        match walk_parked(labels, standings, idx, part, producer, old(producers_to_wait)@) {
            Ok(waits) => r is Ok && final(producers_to_wait)@ == waits,
            Err(e) => r is Err && r->Err_0@ == e && final(producers_to_wait)@
                == old(producers_to_wait)@,
        },
{
    if standings.would_create_cycle(producer, idx) {
        let name = match part {
            WorkingPart::Ast(ast) => match bare_name_of(ast) {
                Some(own) => labels.render(own),
                None => String::new(),
            },
            _ => String::new(),
        };
        proof {
            assert(name@ =~= match part.bare_name() {
                Some(own) => labels.text_of(own),
                None => Seq::empty(),
            });
        }
        return Err(
            KError::new(
                KErrorKind::SchedulerDeadlock {
                    pending: 1,
                    sample: enclosed("cycle in type alias `", name.as_str(), "`"),
                },
            ),
        );
    }
    push_new(producers_to_wait, producer);
    Ok(())
}

/// Whether a mask covers a slot.
pub open spec fn covers(mask: Option<Seq<bool>>, i: int) -> bool {
    mask matches Some(own) && 0 <= i < own.len() && own[i]
}

/// What the walk does at one slot.
pub open spec fn walk_slot(
    ctx: &DecideCtx,
    types: &TypeRegistry,
    standings: &Standings,
    idx: NodeId,
    covered: Option<Seq<bool>>,
    outcomes: Seq<Option<NameView>>,
    slots: SlotsView,
    earlier: WalkView,
    part: Spanned,
    i: int,
) -> WalkView {
    let kept = WalkView { parts: earlier.parts.push(part), ..earlier };
    if slots.wrap_indices.contains(i as usize) {
        if part.value.bare_name() is None {
            kept
        } else {
            match bare_carrier(
                types,
                ctx.scope.levels@,
                part.value->Ast_0,
                ctx.chain,
                standings,
            ) {
                Ok(BareCarrier::Sealed(cell)) => WalkView {
                    parts: earlier.parts.push(
                        Spanned {
                            value: WorkingPart::Spliced {
                                cell,
                                from_name: part.value.bare_name(),
                            },
                            span: part.span,
                        },
                    ),
                    ..earlier
                },
                Ok(BareCarrier::Parked(producer)) => match walk_parked(
                    ctx.labels,
                    standings,
                    idx,
                    part.value,
                    producer,
                    earlier.waits,
                ) {
                    Ok(waits) => WalkView { waits, ..kept },
                    Err(e) => WalkView { error: Some(e), ..earlier },
                },
                Ok(BareCarrier::Unbound(name)) => WalkView {
                    error: Some(raised(ErrorKindView::UnboundName(ctx.labels.text_of(name)))),
                    ..earlier
                },
                Err(e) => WalkView { error: Some(e), ..earlier },
            }
        }
    } else if slots.ref_name_indices.contains(i as usize) {
        match (part.value.bare_name(), outcome_at(outcomes, i)) {
            (Some(_), Some(NameView::Parked(producer))) => match walk_parked(
                ctx.labels,
                standings,
                idx,
                part.value,
                producer,
                earlier.waits,
            ) {
                Ok(waits) => WalkView { waits, ..kept },
                Err(e) => WalkView { error: Some(e), ..earlier },
            },
            _ => kept,
        }
    } else if slots.eager_indices is None || slots.eager_indices->0.contains(i as usize) {
        match staged_slot(earlier.region, part.value) {
            Some((request, after)) => WalkView {
                region: after,
                parts: earlier.parts.push(hole()),
                staged: earlier.staged.push(
                    StagedSub {
                        slot: i as usize,
                        sub: PendingSub::Fresh {
                            request,
                            binder_covered: request is Dispatch && covers(covered, i),
                        },
                    },
                ),
                ..earlier
            },
            None => kept,
        }
    } else {
        kept
    }
}

/// The walk over the first `upto` slots; an error ends it.
pub open spec fn walk(
    ctx: &DecideCtx,
    types: &TypeRegistry,
    standings: &Standings,
    idx: NodeId,
    covered: Option<Seq<bool>>,
    outcomes: Seq<Option<NameView>>,
    slots: SlotsView,
    region: RegionView,
    parts: Seq<Spanned>,
    upto: nat,
) -> WalkView
    decreases upto,
{
    if upto == 0 {
        WalkView {
            region,
            parts: Seq::empty(),
            waits: Seq::empty(),
            staged: Seq::empty(),
            error: None,
        }
    } else {
        let at = (upto - 1) as int;
        let earlier = walk(
            ctx,
            types,
            standings,
            idx,
            covered,
            outcomes,
            slots,
            region,
            parts,
            at as nat,
        );
        if earlier.error is Some {
            earlier
        } else {
            walk_slot(
                ctx,
                types,
                standings,
                idx,
                covered,
                outcomes,
                slots,
                earlier,
                parts[at],
                at,
            )
        }
    }
}

proof fn error_ends_the_walk(
    ctx: &DecideCtx,
    types: &TypeRegistry,
    standings: &Standings,
    idx: NodeId,
    covered: Option<Seq<bool>>,
    outcomes: Seq<Option<NameView>>,
    slots: SlotsView,
    region: RegionView,
    parts: Seq<Spanned>,
    upto: nat,
    end: nat,
)
    requires
        upto <= end,
        walk(ctx, types, standings, idx, covered, outcomes, slots, region, parts, upto).error
            is Some,
    ensures
        walk(ctx, types, standings, idx, covered, outcomes, slots, region, parts, end) == walk(
            ctx,
            types,
            standings,
            idx,
            covered,
            outcomes,
            slots,
            region,
            parts,
            upto,
        ),
    decreases end - upto,
{
    if upto < end {
        error_ends_the_walk(
            ctx,
            types,
            standings,
            idx,
            covered,
            outcomes,
            slots,
            region,
            parts,
            upto,
            (end - 1) as nat,
        );
    }
}

/// The content of a mask.
pub open spec fn mask_view(mask: Option<&Vec<bool>>) -> Option<Seq<bool>> {
    match mask {
        Some(own) => Some(own@),
        None => None,
    }
}

/// Whether a mask covers a slot.
fn mask_covers(mask: Option<&Vec<bool>>, i: usize) -> (r: bool)
    ensures
        r == covers(mask_view(mask), i as int),
{
    match mask {
        Some(own) => i < own.len() && own[i],
        None => false,
    }
}

/// Walks the slots of a pick: a name that the pick takes the value of is spliced or waited for, a
/// part that the pick needs evaluated is staged, and every other slot stays. Nothing is submitted
/// and nothing is waited for yet.
pub fn part_walk(
    ctx: &DecideCtx,
    types: &TypeRegistry,
    standings: &Standings,
    region: &mut Region,
    parts: &Vec<Spanned>,
    covered_mask: Option<&Vec<bool>>,
    bare_outcomes: &Vec<Option<NameOutcome>>,
    slots: &ClassifiedSlots,
    idx: NodeId,
) -> (r: Result<PartWalkResult, KError>)
    ensures
        ({
            let all = walk(
                ctx,
                types,
                standings,
                idx,
                mask_view(covered_mask),
                outcome_views(bare_outcomes@),
                slots@,
                old(region)@,
                parts@,
                parts@.len(),
            );
            &&& final(region)@ == all.region
            &&& match r {
                Ok(walked) => all.error is None && walked.new_parts@ == all.parts
                    && walked.producers_to_wait@ == all.waits && walked.staged_subs@ == all.staged,
                Err(e) => all.error == Some(e@),
            }
        }),
{
    let mut new_parts: Vec<Spanned> = Vec::new();
    let mut producers_to_wait: Vec<ProducerId> = Vec::new();
    let mut staged_subs: Vec<StagedSub> = Vec::new();
    let ghost before = region@;
    let ghost mask = mask_view(covered_mask);
    let ghost all = outcome_views(bare_outcomes@);
    let mut i: usize = 0;
    while i < parts.len()
        invariant
            i <= parts.len(),
            before == old(region)@,
            mask == mask_view(covered_mask),
            all == outcome_views(bare_outcomes@),
            ({
                let so_far = walk(
                    ctx,
                    types,
                    standings,
                    idx,
                    mask,
                    all,
                    slots@,
                    before,
                    parts@,
                    i as nat,
                );
                &&& so_far.error is None
                &&& region@ == so_far.region
                &&& new_parts@ == so_far.parts
                &&& producers_to_wait@ == so_far.waits
                &&& staged_subs@ == so_far.staged
            }),
        decreases parts.len() - i,
    {
        let part = parts[i];
        let ghost next = walk(
            ctx,
            types,
            standings,
            idx,
            mask,
            all,
            slots@,
            before,
            parts@,
            (i + 1) as nat,
        );
        proof {
            if next.error is Some {
                error_ends_the_walk(
                    ctx,
                    types,
                    standings,
                    idx,
                    mask,
                    all,
                    slots@,
                    before,
                    parts@,
                    (i + 1) as nat,
                    parts@.len(),
                );
            }
        }
        let name = match part.value {
            WorkingPart::Ast(ast) => bare_name_of(ast),
            _ => None,
        };
        assert(name == part.value.bare_name());
        if holds_index(&slots.wrap_indices, i) {
            match part.value {
                WorkingPart::Ast(ast) if name.is_some() => {
                    match resolve_bare_carrier(ctx.scope, ast, standings, ctx.chain, types) {
                        Ok(BareCarrier::Sealed(cell)) => {
                            new_parts.push(
                                Spanned {
                                    value: WorkingPart::Spliced { cell, from_name: name },
                                    span: part.span,
                                },
                            );
                        },
                        Ok(BareCarrier::Parked(producer)) => {
                            if let Err(e) = park_walk_producer(
                                ctx.labels,
                                standings,
                                producer,
                                idx,
                                part.value,
                                &mut producers_to_wait,
                            ) {
                                return Err(e);
                            }
                            new_parts.push(part);
                        },
                        Ok(BareCarrier::Unbound(missing)) => {
                            return Err(
                                KError::new(KErrorKind::UnboundName(ctx.labels.render(missing))),
                            );
                        },
                        Err(e) => {
                            return Err(e);
                        },
                    }
                },
                _ => {
                    new_parts.push(part);
                },
            }
        } else if holds_index(&slots.ref_name_indices, i) {
            if name.is_some() && i < bare_outcomes.len() {
                assert(all[i as int] == option_view(bare_outcomes@[i as int]));
                if let Some(NameOutcome::Parked(producer)) = &bare_outcomes[i] {
                    if let Err(e) = park_walk_producer(
                        ctx.labels,
                        standings,
                        *producer,
                        idx,
                        part.value,
                        &mut producers_to_wait,
                    ) {
                        return Err(e);
                    }
                }
            }
            new_parts.push(part);
        } else {
            let wanted = match &slots.eager_indices {
                Some(indices) => holds_index(indices, i),
                None => true,
            };
            if wanted {
                match stage_eager_working_part(region, part.value) {
                    Ok(request) => {
                        let binder_covered = matches!(request, DepRequest::Dispatch { .. })
                            && mask_covers(covered_mask, i);
                        staged_subs.push(
                            StagedSub {
                                slot: i,
                                sub: PendingSub::Fresh { request, binder_covered },
                            },
                        );
                        new_parts.push(staged_slot_placeholder());
                    },
                    Err(_) => {
                        new_parts.push(part);
                    },
                }
            } else {
                new_parts.push(part);
            }
        }
        i = i + 1;
    }
    Ok(PartWalkResult { new_parts, producers_to_wait, staged_subs })
}

/// Where the value of a slot comes from, as a dependency.
pub open spec fn sub_dep(sub: PendingSub) -> DepView {
    match sub {
        PendingSub::Reuse(node) => DepView::Existing(node),
        PendingSub::Fresh { request, binder_covered } => dep_of(request, binder_covered),
    }
}

/// The dependencies of a run of staged work, in order.
pub open spec fn sub_deps(staged: Seq<StagedSub>) -> Seq<DepView> {
    staged.map_values(|own: StagedSub| sub_dep(own.sub))
}

/// The slots that a run of staged work fills, in order.
pub open spec fn sub_slots(staged: Seq<StagedSub>) -> Seq<usize> {
    staged.map_values(|own: StagedSub| own.slot)
}

/// What a call whose slots are all filled comes to: the committed pick is invoked, and without one
/// the expression is resolved again.
pub open spec fn filled_call(ctx: &DecideCtx, expr: ExprId, picked: Option<FnId>) -> OutcomeView {
    match picked {
        Some(function) => invoke_continued(ctx, function, expr),
        None => continued(Work::Resolve(expr), ctx.obligation, FramePlacement::Inherit),
    }
}

/// Goes on with a call whose slots are all filled.
pub fn finish_eager_subs(ctx: &DecideCtx, expr: ExprId, picked: Option<FnId>) -> (r: Outcome)
    ensures
        r@ == filled_call(ctx, expr, picked),
{
    match picked {
        Some(function) => invoke_continue(ctx, function, expr),
        None => redispatch_continue(ctx, expr),
    }
}

/// What staged work of a call comes to. All of it is owned.
pub open spec fn subs_installed(
    ctx: &DecideCtx,
    expr: ExprId,
    staged: Seq<StagedSub>,
    picked: Option<FnId>,
) -> OutcomeView {
    if staged.len() == 0 {
        filled_call(ctx, expr, picked)
    } else {
        OutcomeView::ParkThenContinue {
            deps: sub_deps(staged),
            park_count: 0,
            continuation: ContinuationView::Finish(
                FinishView::EagerSubs { expr, part_indices: sub_slots(staged), picked },
            ),
            error_frame: Some(expr_frame(FrameLabel::Bind, expr)),
            free: Seq::empty(),
        }
    }
}

/// Waits for the staged work of a call; its results fill the holes of `expr`.
pub fn install_eager_subs(
    ctx: &DecideCtx,
    expr: ExprId,
    staged: &Vec<StagedSub>,
    picked: Option<FnId>,
) -> (r: Outcome)
    ensures
        r@ == subs_installed(ctx, expr, staged@, picked),
{
    if staged.len() == 0 {
        return finish_eager_subs(ctx, expr, picked);
    }
    let mut deps: Vec<DispatchDep> = Vec::new();
    let mut part_indices: Vec<usize> = Vec::new();
    let mut i: usize = 0;
    while i < staged.len()
        invariant
            i <= staged.len(),
            dep_views(deps@) == sub_deps(staged@).take(i as int),
            part_indices@ == sub_slots(staged@).take(i as int),
        decreases staged.len() - i,
    {
        let own = match staged[i].sub {
            PendingSub::Reuse(node) => DispatchDep::Existing(node),
            PendingSub::Fresh { request, binder_covered } => request_dep(request, binder_covered),
        };
        let ghost before = dep_views(deps@);
        deps.push(own);
        part_indices.push(staged[i].slot);
        proof {
            assert(dep_views(deps@) =~= before.push(own@));
            assert(sub_deps(staged@).take(i as int + 1) =~= sub_deps(staged@).take(
                i as int,
            ).push(own@));
            assert(sub_slots(staged@).take(i as int + 1) =~= sub_slots(staged@).take(
                i as int,
            ).push(staged@[i as int].slot));
        }
        i = i + 1;
    }
    let free: Vec<NodeId> = Vec::new();
    proof {
        assert(sub_deps(staged@).take(i as int) =~= sub_deps(staged@));
        assert(sub_slots(staged@).take(i as int) =~= sub_slots(staged@));
        assert(free@ =~= Seq::<NodeId>::empty());
    }
    Outcome::ParkThenContinue {
        deps,
        park_count: 0,
        continuation: Continuation::Finish(Finish::EagerSubs { expr, part_indices, picked }),
        error_frame: Some(working_frame(FrameLabel::Bind, expr)),
        free,
    }
}

/// What a staged call comes to once its work has landed.
pub open spec fn subs_landed(
    ctx: &DecideCtx,
    region: RegionView,
    expr: ExprId,
    part_indices: Seq<usize>,
    picked: Option<FnId>,
    results: Seq<Carried>,
) -> (OutcomeView, RegionView) {
    (
        filled_call(ctx, region.next_node(), picked),
        region.with_node(
            filled_parts(region.parts(expr), part_indices, results),
            region.meta(expr),
        ),
    )
}

/// Fills the holes of a staged call with the results and goes on with it.
pub fn land_eager_subs(
    ctx: &DecideCtx,
    region: &mut Region,
    expr: ExprId,
    part_indices: &Vec<usize>,
    picked: Option<FnId>,
    results: &Vec<Carried>,
) -> (r: Outcome)
    ensures
        (r@, final(region)@) == subs_landed(
            ctx,
            old(region)@,
            expr,
            part_indices@,
            picked,
            results@,
        ),
{
    let filled = fill_holes(region, expr, part_indices, results);
    finish_eager_subs(ctx, filled, picked)
}

/// The frame that a resolved call runs in: a builtin keeps the caller's, a user-defined callable
/// gets a new one under the scope it was defined in.
pub open spec fn invoke_continued(ctx: &DecideCtx, picked: FnId, expr: ExprId) -> OutcomeView {
    continued(
        Work::Invoke { function: picked, expr },
        ctx.obligation,
        match ctx.functions.body(picked) {
            Body::Builtin(_) => FramePlacement::Inherit,
            Body::User => FramePlacement::FreshTail { outer: ctx.functions.captured(picked) },
        },
    )
}

/// Goes on with a resolved call, under the declared return that the slot has taken on.
pub fn invoke_continue(ctx: &DecideCtx, picked: FnId, expr: ExprId) -> (r: Outcome)
    ensures
        r@ == invoke_continued(ctx, picked, expr),
{
    let frame = match ctx.functions.body_of(picked) {
        Body::Builtin(_) => FramePlacement::Inherit,
        Body::User => FramePlacement::FreshTail { outer: ctx.functions.captured_scope(picked) },
    };
    go_on(Work::Invoke { function: picked, expr }, ctx.obligation, frame)
}

/// Resolves the expression again on the slot's next turn, under the declared return that it has
/// taken on.
pub fn redispatch_continue(ctx: &DecideCtx, expr: ExprId) -> (r: Outcome)
    ensures
        r@ == continued(Work::Resolve(expr), ctx.obligation, FramePlacement::Inherit),
{
    go_on(Work::Resolve(expr), ctx.obligation, FramePlacement::Inherit)
}

/// The error of an expression that nothing matches.
pub open spec fn no_match(expr: ExprId) -> ErrorView {
    raised(ErrorKindView::dispatch_failed(Subject::Expr(expr), NO_MATCH@))
}

/// The binders among the first `upto` of `producers` that have not landed, each once; one that
/// failed ends it, and one that landed or waits for the slot is passed over.
pub open spec fn open_claims(
    standings: &Standings,
    idx: NodeId,
    producers: Seq<ProducerId>,
    upto: nat,
) -> Result<Seq<ProducerId>, ErrorView>
    decreases upto,
{
    if upto == 0 {
        Ok(Seq::empty())
    } else {
        let at = (upto - 1) as int;
        match open_claims(standings, idx, producers, at as nat) {
            Ok(waits) => match standings.disposition(producers[at], Some(idx)) {
                DispositionView::Errored(e) => Err(e),
                DispositionView::Ready => Ok(waits),
                DispositionView::Cycle => Ok(waits),
                DispositionView::Park => Ok(with_new(waits, producers[at])),
            },
            Err(e) => Err(e),
        }
    }
}

proof fn failed_claim_stands(
    standings: &Standings,
    idx: NodeId,
    producers: Seq<ProducerId>,
    upto: nat,
    end: nat,
)
    requires
        upto <= end,
        open_claims(standings, idx, producers, upto) is Err,
    ensures
        open_claims(standings, idx, producers, end) == open_claims(standings, idx, producers, upto),
    decreases end - upto,
{
    if upto < end {
        failed_claim_stands(standings, idx, producers, upto, (end - 1) as nat);
    }
}

/// What waiting for the overloads behind `producers` comes to.
pub open spec fn overloads_awaited(
    standings: &Standings,
    idx: NodeId,
    producers: Seq<ProducerId>,
    expr: ExprId,
) -> OutcomeView {
    match open_claims(standings, idx, producers, producers.len()) {
        Err(e) => failed(propagated(e, Some(expr_frame(FrameLabel::DispatchPark, expr)))),
        Ok(waits) => if waits.len() == 0 {
            failed(no_match(expr))
        } else {
            parked(waits, Some(expr), Resume::Initial(expr))
        },
    }
}

/// Waits for the overloads behind `producers`, then resolves the expression from the start.
pub fn install_overload_park(
    standings: &Standings,
    producers: &Vec<ProducerId>,
    expr: ExprId,
    idx: NodeId,
) -> (r: Outcome)
    ensures
        r@ == overloads_awaited(standings, idx, producers@, expr),
{
    let mut to_wait: Vec<ProducerId> = Vec::new();
    let mut i: usize = 0;
    proof {
        assert(to_wait@ =~= Seq::<ProducerId>::empty());
    }
    while i < producers.len()
        invariant
            i <= producers.len(),
            open_claims(standings, idx, producers@, i as nat) == Ok::<
                Seq<ProducerId>,
                ErrorView,
            >(to_wait@),
        decreases producers.len() - i,
    {
        match standings.producer_disposition(producers[i], Some(idx)) {
            ProducerDisposition::Errored(e) => {
                proof {
                    failed_claim_stands(
                        standings,
                        idx,
                        producers@,
                        (i + 1) as nat,
                        producers@.len(),
                    );
                }
                let frame = working_frame(FrameLabel::DispatchPark, expr);
                return fail(propagate_dep_error(e, Some(frame)));
            },
            ProducerDisposition::Ready | ProducerDisposition::Cycle => {},
            ProducerDisposition::Park => {
                push_new(&mut to_wait, producers[i]);
            },
        }
        i = i + 1;
    }
    if to_wait.len() == 0 {
        return fail(dispatch_failed(expr, NO_MATCH));
    }
    park_resume(&to_wait, Some(expr), Resume::Initial(expr))
}

impl RegionView {
    /// Which slots of an expression hold its own declaration chain.
    pub open spec fn chain_mask(self, expr: ExprId) -> Option<Seq<bool>> {
        match self.meta(expr).plan {
            Some(plan) => if plan.at < self.plans.len() {
                Some(self.plans[plan.at as int].chain_slots@)
            } else {
                None
            },
            None => None,
        }
    }
}

/// Copies a mask.
fn copy_mask(mask: &Vec<bool>) -> (r: Vec<bool>)
    ensures
        r@ == mask@,
{
    let mut r: Vec<bool> = Vec::new();
    let mut i: usize = 0;
    while i < mask.len()
        invariant
            i <= mask.len(),
            r@ == mask@.take(i as int),
        decreases mask.len() - i,
    {
        r.push(mask[i]);
        assert(mask@.take(i as int + 1) =~= mask@.take(i as int).push(mask@[i as int]));
        i = i + 1;
    }
    assert(mask@.take(i as int) =~= mask@);
    r
}

/// Which slots of an expression hold its own declaration chain.
fn covered_slots(region: &Region, expr: ExprId) -> (r: Option<Vec<bool>>)
    ensures
        match r {
            Some(mask) => region@.chain_mask(expr) == Some(mask@),
            None => region@.chain_mask(expr) is None,
        },
{
    match region.meta_of(expr).plan {
        Some(plan) => if plan.at < region.plans.len() {
            Some(copy_mask(&region.plans[plan.at].chain_slots))
        } else {
            None
        },
        None => None,
    }
}

/// A staged piece of work, covered when it is a dispatch in one of the covered slots.
pub open spec fn marked(own: StagedSub, mask: Option<Seq<bool>>) -> StagedSub {
    match own.sub {
        PendingSub::Fresh { request, binder_covered } => StagedSub {
            slot: own.slot,
            sub: PendingSub::Fresh {
                request,
                binder_covered: binder_covered || (request is Dispatch && covers(
                    mask,
                    own.slot as int,
                )),
            },
        },
        PendingSub::Reuse(_) => own,
    }
}

/// Marks every staged dispatch in a covered slot: what it declares is claimed already.
pub fn mark_covered_subs(staged: &mut Vec<StagedSub>, covered_mask: Option<&Vec<bool>>)
    ensures
        final(staged)@ == old(staged)@.map_values(
            |own: StagedSub| marked(own, mask_view(covered_mask)),
        ),
{
    let ghost all = staged@.map_values(|own: StagedSub| marked(own, mask_view(covered_mask)));
    let ghost before = staged@;
    let mut i: usize = 0;
    while i < staged.len()
        invariant
            i <= staged.len(),
            staged@.len() == before.len(),
            all == before.map_values(|own: StagedSub| marked(own, mask_view(covered_mask))),
            forall|k: int| 0 <= k < i ==> staged@[k] == all[k],
            forall|k: int| i <= k < staged@.len() ==> staged@[k] == before[k],
        decreases staged.len() - i,
    {
        let own = staged[i];
        if let PendingSub::Fresh { request, binder_covered } = own.sub {
            let covered = binder_covered || (matches!(request, DepRequest::Dispatch { .. })
                && mask_covers(covered_mask, own.slot));
            staged.set(
                i,
                StagedSub {
                    slot: own.slot,
                    sub: PendingSub::Fresh { request, binder_covered: covered },
                },
            );
        }
        i = i + 1;
    }
    assert(staged@ =~= all);
}

/// Work that is not covered.
pub open spec fn fresh_subs(slots: Seq<usize>, requests: Seq<DepRequest>) -> Seq<StagedSub> {
    Seq::new(
        requests.len(),
        |i: int|
            StagedSub {
                slot: slots[i],
                sub: PendingSub::Fresh { request: requests[i], binder_covered: false },
            },
    )
}

proof fn one_request_per_slot(
    region: RegionView,
    parts: Seq<Spanned>,
    meta: crate::region::NodeMeta,
    upto: nat,
)
    ensures
        ({
            let walked = crate::decide::staging::walk(region, parts, meta, Seq::empty(), upto);
            walked.slots.len() == walked.requests.len()
        }),
    decreases upto,
{
    if upto > 0 {
        one_request_per_slot(region, parts, meta, (upto - 1) as nat);
    }
}

/// What evaluating every part of an expression first comes to.
pub open spec fn parts_first(ctx: &DecideCtx, region: RegionView, expr: ExprId) -> (
    OutcomeView,
    RegionView,
) {
    let parts = region.parts(expr);
    let meta = region.meta(expr);
    let walked = crate::decide::staging::walk(region, parts, meta, Seq::empty(), parts.len());
    if walked.slots.len() == 0 {
        (filled_call(ctx, expr, None), region)
    } else {
        (
            subs_installed(
                ctx,
                walked.region.next_node(),
                fresh_subs(walked.slots, walked.requests).map_values(
                    |own: StagedSub| marked(own, region.chain_mask(expr)),
                ),
                None,
            ),
            walked.region.with_node(with_holes(parts, walked.slots), meta),
        )
    }
}

/// Evaluates every part of an expression, without a pick; the expression is resolved again behind
/// that.
pub fn install_eager_only(ctx: &DecideCtx, region: &mut Region, expr: ExprId) -> (r: Outcome)
    ensures
        (r@, final(region)@) == parts_first(ctx, old(region)@, expr),
{
    let covered_mask = covered_slots(region, expr);
    let none: Vec<usize> = Vec::new();
    let ghost before = region@;
    proof {
        assert(none@ =~= Seq::<usize>::empty());
        one_request_per_slot(
            before,
            before.parts(expr),
            before.meta(expr),
            before.parts(expr).len(),
        );
    }
    match stage_all_eager_parts(region, expr, &none) {
        PartWalk::Unchanged => finish_eager_subs(ctx, expr, None),
        PartWalk::Respliced { expr: held, staged } => {
            let mut subs: Vec<StagedSub> = Vec::new();
            let mut i: usize = 0;
            let ghost all = fresh_subs(staged.part_indices@, staged.requests@);
            while i < staged.requests.len()
                invariant
                    i <= staged.requests.len(),
                    staged.part_indices@.len() == staged.requests@.len(),
                    all == fresh_subs(staged.part_indices@, staged.requests@),
                    subs@ == all.take(i as int),
                decreases staged.requests.len() - i,
            {
                let own = StagedSub {
                    slot: staged.part_indices[i],
                    sub: PendingSub::Fresh {
                        request: staged.requests[i],
                        binder_covered: false,
                    },
                };
                subs.push(own);
                assert(all.take(i as int + 1) =~= all.take(i as int).push(own));
                i = i + 1;
            }
            assert(all.take(i as int) =~= all);
            mark_covered_subs(&mut subs, covered_mask.as_ref());
            install_eager_subs(ctx, held, &subs, None)
        },
    }
}

/// What a pick comes to.
pub open spec fn walked_call(
    ctx: &DecideCtx,
    types: &TypeRegistry,
    standings: &Standings,
    idx: NodeId,
    region: RegionView,
    expr: ExprId,
    function: FnId,
    slots: SlotsView,
    outcomes: Seq<Option<NameView>>,
    evaluated: bool,
) -> (OutcomeView, RegionView) {
    let parts = region.parts(expr);
    let walked = walk(
        ctx,
        types,
        standings,
        idx,
        region.chain_mask(expr),
        outcomes,
        slots,
        region,
        parts,
        parts.len(),
    );
    match walked.error {
        Some(e) => (failed(e), walked.region),
        None => {
            let call = walked.region.next_node();
            (
                if walked.waits.len() > 0 {
                    parked(
                        walked.waits,
                        Some(call),
                        if evaluated {
                            Resume::Finish(call)
                        } else {
                            Resume::Initial(call)
                        },
                    )
                } else if walked.staged.len() == 0 {
                    invoke_continued(ctx, function, call)
                } else {
                    subs_installed(ctx, call, walked.staged, None)
                },
                walked.region.with_node(walked.parts, region.meta(expr)),
            )
        },
    }
}

/// Walks the slots of a pick and goes on with it. What has not landed is waited for before
/// anything is evaluated; and where parts have to be evaluated, the pick is dropped and made again
/// over their values.
pub fn walk_and_invoke(
    ctx: &DecideCtx,
    types: &TypeRegistry,
    standings: &Standings,
    region: &mut Region,
    expr: ExprId,
    resolved: &Resolved,
    bare_outcomes: &Vec<Option<NameOutcome>>,
    idx: NodeId,
    evaluated: bool,
) -> (r: Outcome)
    ensures
        (r@, final(region)@) == walked_call(
            ctx,
            types,
            standings,
            idx,
            old(region)@,
            expr,
            resolved.function,
            resolved.slots@,
            outcome_views(bare_outcomes@),
            evaluated,
        ),
{
    let parts = region.parts_of(expr);
    let meta = region.meta_of(expr);
    let covered_mask = covered_slots(region, expr);
    let walked = match part_walk(
        ctx,
        types,
        standings,
        region,
        &parts,
        covered_mask.as_ref(),
        bare_outcomes,
        &resolved.slots,
        idx,
    ) {
        Ok(walked) => walked,
        Err(e) => {
            return fail(e);
        },
    };
    let call = region.add_node(walked.new_parts, meta);
    if walked.producers_to_wait.len() > 0 {
        return if evaluated {
            park_finish(&walked.producers_to_wait, call)
        } else {
            install_bare_name_park(&walked.producers_to_wait, call)
        };
    }
    if walked.staged_subs.len() == 0 {
        return invoke_continue(ctx, resolved.function, call);
    }
    install_eager_subs(ctx, call, &walked.staged_subs, None)
}

/// Waits for the names that a pick over evaluated parts leaned on.
pub fn park_finish(producers: &Vec<ProducerId>, expr: ExprId) -> (r: Outcome)
    ensures
        r@ == parked(producers@, Some(expr), Resume::Finish(expr)),
{
    park_resume(producers, Some(expr), Resume::Finish(expr))
}

/// Waits for the names that a pick leaned on; the names that have landed are spliced already.
pub fn install_bare_name_park(producers: &Vec<ProducerId>, expr: ExprId) -> (r: Outcome)
    ensures
        r@ == parked(producers@, Some(expr), Resume::Initial(expr)),
{
    park_resume(producers, Some(expr), Resume::Initial(expr))
}

/// What a resolution comes to. An expression whose parts are evaluated is not put off again.
pub open spec fn routed(
    ctx: &DecideCtx,
    types: &TypeRegistry,
    standings: &Standings,
    idx: NodeId,
    region: RegionView,
    expr: ExprId,
    outcomes: Seq<Option<NameView>>,
    resolution: DispatchView,
    evaluated: bool,
) -> (OutcomeView, RegionView) {
    match resolution {
        DispatchView::Resolved(resolved) => walked_call(
            ctx,
            types,
            standings,
            idx,
            region,
            expr,
            resolved.function,
            resolved.slots,
            outcomes,
            evaluated,
        ),
        DispatchView::Ambiguous(candidates) => (
            failed(raised(ErrorKindView::AmbiguousDispatch { expr, candidates })),
            region,
        ),
        DispatchView::Deferred => if evaluated {
            (failed(no_match(expr)), region)
        } else {
            parts_first(ctx, region, expr)
        },
        DispatchView::Unmatched => (failed(no_match(expr)), region),
        DispatchView::ParkOnProducers(sources) => (
            overloads_awaited(standings, idx, sources, expr),
            region,
        ),
        DispatchView::UnboundName(name) => (
            failed(raised(ErrorKindView::UnboundName(ctx.labels.text_of(name)))),
            region,
        ),
    }
}

/// What the decision on a keyworded expression comes to.
pub open spec fn keyworded(
    ctx: &DecideCtx,
    types: &TypeRegistry,
    standings: &Standings,
    idx: NodeId,
    region: RegionView,
    expr: ExprId,
    evaluated: bool,
) -> (OutcomeView, RegionView) {
    let outcomes = slot_outcomes(
        types,
        ctx.scope.levels@,
        region.parts(expr),
        ctx.chain,
        standings,
    );
    match first_failure(outcomes, 0) {
        Some(e) => (failed(e.framed(expr_frame(FrameLabel::WrapResolve, expr))), region),
        None => routed(
            ctx,
            types,
            standings,
            idx,
            region,
            expr,
            outcomes,
            dispatch_of(
                ctx.functions,
                types,
                region,
                ctx.scope.levels@,
                ctx.chain,
                expr,
                outcomes,
            ),
            evaluated,
        ),
    }
}

/// How often overload resolution has been entered behind the decision on an expression that
/// `before` entries were made ahead of.
pub open spec fn resolutions_after(
    types: &TypeRegistry,
    ctx: &DecideCtx,
    standings: &Standings,
    region: RegionView,
    expr: ExprId,
    before: usize,
) -> usize {
    let outcomes = slot_outcomes(
        types,
        ctx.scope.levels@,
        region.parts(expr),
        ctx.chain,
        standings,
    );
    if first_failure(outcomes, 0) is Some {
        before
    } else {
        counted(before)
    }
}

/// Resolves a keyworded expression and goes on with what it resolves to.
fn decide(
    ctx: &DecideCtx,
    types: &TypeRegistry,
    standings: &Standings,
    region: &mut Region,
    expr: ExprId,
    idx: NodeId,
    counter: &mut EntryCounter,
    evaluated: bool,
) -> (r: Outcome)
    ensures
        (r@, final(region)@) == keyworded(
            ctx,
            types,
            standings,
            idx,
            old(region)@,
            expr,
            evaluated,
        ),
        final(counter).entries == resolutions_after(
            types,
            ctx,
            standings,
            old(region)@,
            expr,
            old(counter).entries,
        ),
{
    let parts = region.parts_of(expr);
    let outcomes = match build_bare_outcomes(ctx.scope, &parts, standings, ctx.chain, types) {
        Ok(outcomes) => outcomes,
        Err(e) => {
            return fail(e.with_frame(working_frame(FrameLabel::WrapResolve, expr)));
        },
    };
    match ctx.scope.resolve_dispatch(
        ctx.functions,
        types,
        region,
        expr,
        ctx.chain,
        &outcomes,
        counter,
    ) {
        DispatchOutcome::Resolved(resolved) => walk_and_invoke(
            ctx,
            types,
            standings,
            region,
            expr,
            &resolved,
            &outcomes,
            idx,
            evaluated,
        ),
        DispatchOutcome::Ambiguous(candidates) => fail(
            KError::new(KErrorKind::AmbiguousDispatch { expr, candidates }),
        ),
        DispatchOutcome::Deferred => if evaluated {
            fail(dispatch_failed(expr, NO_MATCH))
        } else {
            install_eager_only(ctx, region, expr)
        },
        DispatchOutcome::Unmatched => fail(dispatch_failed(expr, NO_MATCH)),
        DispatchOutcome::ParkOnProducers(producers) => install_overload_park(
            standings,
            &producers,
            expr,
            idx,
        ),
        DispatchOutcome::UnboundName(name) => fail(
            KError::new(KErrorKind::UnboundName(ctx.labels.render(name))),
        ),
    }
}

/// Decides on a keyworded expression as it stands.
pub fn initial(
    ctx: &DecideCtx,
    types: &TypeRegistry,
    standings: &Standings,
    region: &mut Region,
    expr: ExprId,
    idx: NodeId,
    counter: &mut EntryCounter,
) -> (r: Outcome)
    ensures
        (r@, final(region)@) == keyworded(ctx, types, standings, idx, old(region)@, expr, false),
        final(counter).entries == resolutions_after(
            types,
            ctx,
            standings,
            old(region)@,
            expr,
            old(counter).entries,
        ),
{
    decide(ctx, types, standings, region, expr, idx, counter, false)
}

/// Decides on a keyworded expression whose parts are evaluated.
pub fn finish(
    ctx: &DecideCtx,
    types: &TypeRegistry,
    standings: &Standings,
    region: &mut Region,
    expr: ExprId,
    idx: NodeId,
    counter: &mut EntryCounter,
) -> (r: Outcome)
    ensures
        (r@, final(region)@) == keyworded(ctx, types, standings, idx, old(region)@, expr, true),
        final(counter).entries == resolutions_after(
            types,
            ctx,
            standings,
            old(region)@,
            expr,
            old(counter).entries,
        ),
{
    decide(ctx, types, standings, region, expr, idx, counter, true)
}

/// The two resolutions of an expression cannot take turns for ever: where parts are evaluated and
/// the resolution still leans on evaluation, nothing matches.
pub proof fn evaluation_is_not_put_off_twice(
    ctx: &DecideCtx,
    types: &TypeRegistry,
    standings: &Standings,
    idx: NodeId,
    region: RegionView,
    expr: ExprId,
    outcomes: Seq<Option<NameView>>,
)
    ensures
        routed(
            ctx,
            types,
            standings,
            idx,
            region,
            expr,
            outcomes,
            DispatchView::Deferred,
            true,
        ) == (failed(no_match(expr)), region),
{
}

/// A walk keeps every slot in its place, and stages only what can be evaluated, one piece of work
/// per slot.
pub proof fn walks_keep_their_slots(
    ctx: &DecideCtx,
    types: &TypeRegistry,
    standings: &Standings,
    idx: NodeId,
    covered: Option<Seq<bool>>,
    outcomes: Seq<Option<NameView>>,
    slots: SlotsView,
    region: RegionView,
    parts: Seq<Spanned>,
    upto: nat,
)
    requires
        upto <= parts.len() <= usize::MAX,
    ensures
        ({
            let walked = walk(
                ctx,
                types,
                standings,
                idx,
                covered,
                outcomes,
                slots,
                region,
                parts,
                upto,
            );
            &&& walked.error is None ==> walked.parts.len() == upto
            &&& forall|k: int|
                0 <= k < walked.staged.len() ==> (#[trigger] walked.staged[k]).slot < upto
                    && is_eager_slot(parts[walked.staged[k].slot as int].value)
            &&& forall|j: int, k: int|
                0 <= j < k < walked.staged.len() ==> walked.staged[j].slot < walked.staged[k].slot
        }),
    decreases upto,
{
    if upto > 0 {
        walks_keep_their_slots(
            ctx,
            types,
            standings,
            idx,
            covered,
            outcomes,
            slots,
            region,
            parts,
            (upto - 1) as nat,
        );
    }
}

} // verus!
