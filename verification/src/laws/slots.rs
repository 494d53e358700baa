//! Laws of slots that resolve their calls part by part: every slot is spliced, waited for, staged or
//! left alone by what it is, and the call goes on with the callable it resolved to.

use crate::ast::{ExpressionPart, Spanned, WorkingPart};
use crate::decide::exec::{delivered, spliced_cells};
use crate::decide::resolve::Resolution;
use crate::decide::staging::staged_slot;
use crate::decide::DecideCtx;
use crate::dispatch::bare_name::{
    first_failure, slot_outcomes, DispositionView, NameView, Standing, Standings,
};
use crate::dispatch::exec::{invoked, named_upto, with_cell, InvocationView};
use crate::dispatch::keyworded::{
    open_claims, overloads_awaited, subs_landed, walk, walked_call, PendingSub, StagedSub,
};
use crate::dispatch::outcome::{ContinuationView, DepView, FinishView, OutcomeView, Resume, Work};
use crate::dispatch::resolve_dispatch::SlotsView;
use crate::function::{call_error, Body, SignatureElement};
use crate::ktype::TypeRegistry;
use crate::laws::calls::{deliveries_hold_slot_values, is_value_of};
use crate::laws::scopes::found_is_first;
use crate::laws::staging::{evaluates, is_lone, is_open};
use crate::laws::types::sealed;
use crate::matching::cell_named;
use crate::outcome::{DepRequest, FrameId, FramePlacement};
use crate::region::RegionView;
use crate::scope::{first_match, value_in, NameLookup};
use crate::symbol::Symbol;
use crate::value::{with_new, Carried, Cell, ExprId, FnId, NodeId, ProducerId};
use vstd::prelude::*;

verus! {

/// Whether entry `k` is the first that says how a producer stands.
pub open spec fn is_standing(standings: &Standings, producer: ProducerId, k: int) -> bool {
    &&& 0 <= k < standings.entries@.len()
    &&& standings.entries@[k].producer == producer
    &&& forall|j: int|
        0 <= j < k ==> (#[trigger] standings.entries@[j]).producer != producer
}

/// Whether nothing is known of a producer.
pub open spec fn is_unknown(standings: &Standings, producer: ProducerId) -> bool {
    forall|j: int|
        0 <= j < standings.entries@.len() ==> (#[trigger] standings.entries@[j]).producer
            != producer
}

proof fn standing_entry(standings: &Standings, producer: ProducerId)
    ensures
        standings.entry(producer) is None <==> is_unknown(standings, producer),
        forall|k: int| #[trigger]
            is_standing(standings, producer, k) ==> standings.entry(producer) == Some(
                standings.entries@[k],
            ),
{
    let p = |e: crate::dispatch::bare_name::ProducerEntry| e.producer == producer;
    found_is_first(standings.entries@, p);
    match first_match(standings.entries@, p) {
        Some(found) => {
            let f = choose|f: int|
                {
                    &&& 0 <= f < standings.entries@.len()
                    &&& #[trigger] standings.entries@[f] == found
                    &&& p(found)
                    &&& forall|j: int| 0 <= j < f ==> !p(#[trigger] standings.entries@[j])
                };
            assert forall|k: int| #[trigger] is_standing(standings, producer, k) implies
                standings.entry(producer) == Some(standings.entries@[k]) by {
                if k < f {
                    assert(!p(standings.entries@[k]));
                } else if f < k {
                    assert(standings.entries@[f].producer != producer);
                }
            }
            assert(standings.entries@[f].producer == producer);
        },
        None => {
            assert forall|j: int| 0 <= j < standings.entries@.len() implies (
            #[trigger] standings.entries@[j]).producer != producer by {
                assert(!p(standings.entries@[j]));
            }
        },
    }
}

/// How a producer stands decides what a reader of its name does: a failed one hands on its error, a
/// landed one has bound nothing under the name, and one that runs, or of which nothing is known, is
/// waited for, unless it waits for the reader itself.
pub proof fn readers_follow_how_a_producer_stands(
    standings: &Standings,
    producer: ProducerId,
    consumer: Option<NodeId>,
    k: int,
)
    ensures
        is_unknown(standings, producer) ==> standings.disposition(producer, consumer)
            == DispositionView::Park,
        is_standing(standings, producer, k) ==> match standings.entries@[k].standing {
            Standing::Failed(error) => standings.disposition(producer, consumer)
                == DispositionView::Errored(error@),
            Standing::Landed => standings.disposition(producer, consumer) == DispositionView::Ready,
            Standing::Running => standings.disposition(producer, consumer) == if consumer is Some
                && standings.entries@[k].waits_for@.contains(consumer->0) {
                DispositionView::Cycle
            } else {
                DispositionView::Park
            },
        },
{
    standing_entry(standings, producer);
}

/// What a name that `producer` claims comes to, by how the producer stands.
pub open spec fn claimed(standings: &Standings, name: Symbol, producer: ProducerId) -> NameView {
    match standings.disposition(producer, None) {
        DispositionView::Errored(error) => NameView::ProducerErrored(error),
        DispositionView::Ready => NameView::Unbound(name),
        DispositionView::Cycle => NameView::Cycle(name),
        DispositionView::Park => NameView::Parked(producer),
    }
}

/// What a bare type name comes to in the channel of types.
pub open spec fn type_meant(
    types: &TypeRegistry,
    ctx: &DecideCtx,
    standings: &Standings,
    name: Symbol,
) -> NameView {
    match sealed(types, ctx.scope.levels@, name, ctx.chain) {
        Resolution::Resolved(cell) => NameView::Resolved(cell),
        Resolution::Unbound(missing) => NameView::Unbound(missing),
        Resolution::Parked(producer) => claimed(standings, name, producer),
    }
}

/// What a bare value name comes to.
pub open spec fn value_meant(ctx: &DecideCtx, standings: &Standings, name: Symbol) -> NameView {
    match value_in(ctx.scope.levels@, name, ctx.chain) {
        Some(NameLookup::Bound(cell)) => NameView::Resolved(cell),
        Some(NameLookup::Parked(producer)) => claimed(standings, name, producer),
        None => NameView::Unbound(name),
    }
}

/// A slot that holds a bare name learns what that name means; any other slot learns nothing.
pub proof fn slots_learn_what_their_name_means(
    types: &TypeRegistry,
    ctx: &DecideCtx,
    standings: &Standings,
    parts: Seq<Spanned>,
    i: int,
)
    requires
        0 <= i < parts.len(),
    ensures
        ({
            let outcomes = slot_outcomes(types, ctx.scope.levels@, parts, ctx.chain, standings);
            &&& outcomes.len() == parts.len()
            &&& match parts[i].value {
                WorkingPart::Ast(ExpressionPart::Identifier(name)) => outcomes[i] == Some(
                    value_meant(ctx, standings, name),
                ),
                WorkingPart::Ast(ExpressionPart::Type(name)) => outcomes[i] == Some(
                    match value_in(ctx.scope.levels@, name, ctx.chain) {
                        Some(NameLookup::Parked(producer)) => claimed(standings, name, producer),
                        _ => type_meant(types, ctx, standings, name),
                    },
                ),
                _ => outcomes[i] is None,
            }
        }),
{
}

/// What a bare name that is taken by value comes to.
pub open spec fn taken_value(
    types: &TypeRegistry,
    ctx: &DecideCtx,
    standings: &Standings,
    part: WorkingPart,
) -> NameView {
    match part {
        WorkingPart::Ast(ExpressionPart::Type(name)) => type_meant(types, ctx, standings, name),
        WorkingPart::Ast(ExpressionPart::Identifier(name)) => value_meant(ctx, standings, name),
        _ => arbitrary(),
    }
}

/// Whether a slot holds a bare name.
pub open spec fn is_bare(part: WorkingPart) -> bool {
    part matches WorkingPart::Ast(ExpressionPart::Identifier(_)) || part matches WorkingPart::Ast(
        ExpressionPart::Type(_),
    )
}

/// Whether slot `i` of a call is to be evaluated.
pub open spec fn is_staged(slots: SlotsView, part: WorkingPart, i: int) -> bool {
    &&& !slots.wrap_indices.contains(i as usize)
    &&& !slots.ref_name_indices.contains(i as usize)
    &&& slots.eager_indices is None || slots.eager_indices->0.contains(i as usize)
    &&& is_open(part)
}

/// Whether slot `i` of a walked call is what it has to be: the value of its own name where the call
/// takes that, a hole where it is evaluated, and untouched otherwise.
pub open spec fn is_walked(
    types: &TypeRegistry,
    ctx: &DecideCtx,
    standings: &Standings,
    slots: SlotsView,
    before: Spanned,
    after: Spanned,
    i: int,
) -> bool {
    if slots.wrap_indices.contains(i as usize) && is_bare(before.value) {
        match taken_value(types, ctx, standings, before.value) {
            NameView::Resolved(value) => after.span == before.span && (
            after.value matches WorkingPart::Spliced { cell, from_name } && cell == value
                && from_name == before.value.bare_name()),
            NameView::Parked(_) => after == before,
            _ => false,
        }
    } else if is_staged(slots, before.value, i) {
        after.value is StagedSlot
    } else {
        after == before
    }
}

/// Whether a producer is waited for because of slot `i`.
pub open spec fn waits_at(
    types: &TypeRegistry,
    ctx: &DecideCtx,
    standings: &Standings,
    slots: SlotsView,
    outcomes: Seq<Option<NameView>>,
    part: WorkingPart,
    i: int,
    producer: ProducerId,
) -> bool {
    &&& is_bare(part)
    &&& if slots.wrap_indices.contains(i as usize) {
        taken_value(types, ctx, standings, part) == NameView::Parked(producer)
    } else {
        slots.ref_name_indices.contains(i as usize) && i < outcomes.len() && outcomes[i] == Some(
            NameView::Parked(producer),
        )
    }
}

/// Whether a staged piece of work evaluates its own slot.
pub open spec fn stages_own(
    after: RegionView,
    parts: Seq<Spanned>,
    covered: Option<Seq<bool>>,
    sub: StagedSub,
) -> bool {
    sub.sub matches PendingSub::Fresh { request, binder_covered } && evaluates(
        after,
        parts[sub.slot as int],
        false,
        request,
    ) && binder_covered == (request is Dispatch && covered is Some && sub.slot < covered->0.len()
        && covered->0[sub.slot as int])
}

/// A walk that finds no error leaves every slot as its kind asks: a name that is taken by value
/// shows its own value, an open slot is evaluated by its own work, and everything else stays. It
/// waits for exactly the producers that its names are claimed by, and for none that waits for the
/// call itself.
pub proof fn walked_slots_are_what_they_mean(
    ctx: &DecideCtx,
    types: &TypeRegistry,
    standings: &Standings,
    idx: NodeId,
    covered: Option<Seq<bool>>,
    outcomes: Seq<Option<NameView>>,
    slots: SlotsView,
    region: RegionView,
    parts: Seq<Spanned>,
    upto: nat,
)
    requires
        upto <= parts.len() <= usize::MAX,
        region.nodes.len() + upto <= usize::MAX,
    ensures
        ({
            let walked = walk(
                ctx,
                types,
                standings,
                idx,
                covered,
                outcomes,
                slots,
                region,
                parts,
                upto,
            );
            walked.error is None ==> {
                &&& walked.region.nodes.len() <= region.nodes.len() + upto
                &&& region.nodes.is_prefix_of(walked.region.nodes)
                &&& walked.region == RegionView { nodes: walked.region.nodes, ..region }
                &&& walked.parts.len() == upto
                &&& forall|i: int|
                    0 <= i < upto ==> is_walked(
                        types,
                        ctx,
                        standings,
                        slots,
                        parts[i],
                        #[trigger] walked.parts[i],
                        i,
                    )
                &&& forall|producer: ProducerId| #[trigger]
                    walked.waits.contains(producer) <==> exists|i: int|
                        0 <= i < upto && #[trigger] waits_at(
                            types,
                            ctx,
                            standings,
                            slots,
                            outcomes,
                            parts[i].value,
                            i,
                            producer,
                        )
                &&& walked.waits.no_duplicates()
                &&& forall|i: int|
                    0 <= i < upto ==> (#[trigger] is_staged(slots, parts[i].value, i)
                        <==> has_staged(walked.staged, i))
                &&& forall|k: int|
                    0 <= k < walked.staged.len() ==> (#[trigger] walked.staged[k]).slot < upto
                        && stages_own(walked.region, parts, covered, walked.staged[k])
                        && made_alone(walked.region, parts, walked.staged[k])
                &&& forall|a: int, b: int|
                    0 <= a < b < walked.staged.len() ==> (#[trigger] walked.staged[a]).slot < (
                    #[trigger] walked.staged[b]).slot
            }
        }),
    decreases upto,
{
    let walked = walk(
        ctx,
        types,
        standings,
        idx,
        covered,
        outcomes,
        slots,
        region,
        parts,
        upto,
    );
    if upto == 0 {
        assert(region.nodes =~= walked.region.nodes.take(region.nodes.len() as int));
    } else if walked.error is None {
        let at = (upto - 1) as int;
        walked_slots_are_what_they_mean(
            ctx,
            types,
            standings,
            idx,
            covered,
            outcomes,
            slots,
            region,
            parts,
            at as nat,
        );
        let earlier = walk(
            ctx,
            types,
            standings,
            idx,
            covered,
            outcomes,
            slots,
            region,
            parts,
            at as nat,
        );
        assert(earlier.error is None);
        let part = parts[at].value;
        assert(is_bare(part) <==> part.bare_name() is Some);
        assert(staged_slot(earlier.region, part) is Some <==> is_open(part));
        assert(earlier.region.nodes.is_prefix_of(walked.region.nodes)) by {
            assert(earlier.region.nodes =~= walked.region.nodes.take(
                earlier.region.nodes.len() as int,
            ));
        }
        assert(region.nodes =~= walked.region.nodes.take(region.nodes.len() as int));
        assert forall|i: int| 0 <= i < upto implies is_walked(
            types,
            ctx,
            standings,
            slots,
            parts[i],
            #[trigger] walked.parts[i],
            i,
        ) by {
            if i < at {
                assert(walked.parts[i] == earlier.parts[i]);
            }
        }
        assert forall|k: int| 0 <= k < walked.staged.len() implies (
        #[trigger] walked.staged[k]).slot < upto && stages_own(
            walked.region,
            parts,
            covered,
            walked.staged[k],
        ) && made_alone(walked.region, parts, walked.staged[k]) by {
            if k < earlier.staged.len() {
                assert(walked.staged[k] == earlier.staged[k]);
                let sub = earlier.staged[k];
                if is_lone(parts[sub.slot as int], false) {
                    let expr = sub.sub->request->Dispatch_expr;
                    assert(earlier.region.nodes[expr.at as int]
                        == walked.region.nodes[expr.at as int]);
                }
            }
        }
        assert forall|i: int| 0 <= i < upto implies (#[trigger] is_staged(slots, parts[i].value, i)
            <==> has_staged(walked.staged, i)) by {
            if i < at {
                assert(is_staged(slots, parts[i].value, i) <==> has_staged(earlier.staged, i));
                if has_staged(earlier.staged, i) {
                    let k = choose|k: int|
                        0 <= k < earlier.staged.len() && (#[trigger] earlier.staged[k]).slot == i;
                    assert(walked.staged[k].slot == i);
                }
                if has_staged(walked.staged, i) {
                    let k = choose|k: int|
                        0 <= k < walked.staged.len() && (#[trigger] walked.staged[k]).slot == i;
                    assert(k < earlier.staged.len());
                    assert(earlier.staged[k].slot == i);
                }
            } else if is_staged(slots, part, at) {
                assert(walked.staged[earlier.staged.len() as int].slot == at);
            } else if has_staged(walked.staged, i) {
                let k = choose|k: int|
                    0 <= k < walked.staged.len() && (#[trigger] walked.staged[k]).slot == i;
                assert(earlier.staged[k].slot < at);
            }
        }
        let own = if !is_bare(part) {
            None
        } else if slots.wrap_indices.contains(at as usize) {
            match taken_value(types, ctx, standings, part) {
                NameView::Parked(producer) => Some(producer),
                _ => None,
            }
        } else if slots.ref_name_indices.contains(at as usize) && at < outcomes.len() {
            match outcomes[at] {
                Some(NameView::Parked(producer)) => Some(producer),
                _ => None,
            }
        } else {
            None
        };
        waits_grow(earlier.waits, own, walked.waits);
        assert forall|producer: ProducerId| #[trigger]
            waits_at(types, ctx, standings, slots, outcomes, part, at, producer) == (own == Some(
                producer,
            )) by {}
        assert forall|producer: ProducerId| #[trigger]
            walked.waits.contains(producer) <==> exists|i: int|
                0 <= i < upto && #[trigger] waits_at(
                    types,
                    ctx,
                    standings,
                    slots,
                    outcomes,
                    parts[i].value,
                    i,
                    producer,
                ) by {
            if earlier.waits.contains(producer) {
                let i = choose|i: int|
                    0 <= i < at && #[trigger] waits_at(
                        types,
                        ctx,
                        standings,
                        slots,
                        outcomes,
                        parts[i].value,
                        i,
                        producer,
                    );
                assert(waits_at(
                    types,
                    ctx,
                    standings,
                    slots,
                    outcomes,
                    parts[i].value,
                    i,
                    producer,
                ));
            }
            if own == Some(producer) {
                assert(waits_at(
                    types,
                    ctx,
                    standings,
                    slots,
                    outcomes,
                    parts[at].value,
                    at,
                    producer,
                ));
            }
            if exists|i: int|
                0 <= i < upto && #[trigger] waits_at(
                    types,
                    ctx,
                    standings,
                    slots,
                    outcomes,
                    parts[i].value,
                    i,
                    producer,
                ) {
                let i = choose|i: int|
                    0 <= i < upto && #[trigger] waits_at(
                        types,
                        ctx,
                        standings,
                        slots,
                        outcomes,
                        parts[i].value,
                        i,
                        producer,
                    );
                if i < at {
                    assert(earlier.waits.contains(producer));
                }
            }
        }
    }
}

/// Whether some piece of work is staged for slot `i`.
pub open spec fn has_staged(staged: Seq<StagedSub>, i: int) -> bool {
    exists|k: int| 0 <= k < staged.len() && (#[trigger] staged[k]).slot == i
}

/// Whether the expression that was made for a staged slot, if one was, is held.
pub open spec fn made_alone(region: RegionView, parts: Seq<Spanned>, sub: StagedSub) -> bool {
    is_lone(parts[sub.slot as int], false) ==> sub.sub is Fresh && sub.sub->request is Dispatch
        && sub.sub->request->Dispatch_expr.at < region.nodes.len()
}

proof fn waits_grow(
    before: Seq<ProducerId>,
    own: Option<ProducerId>,
    after: Seq<ProducerId>,
)
    requires
        before.no_duplicates(),
        own is None ==> after == before,
        own matches Some(producer) ==> after == with_new(before, producer),
    ensures
        after.no_duplicates(),
        forall|producer: ProducerId| #[trigger]
            after.contains(producer) <==> before.contains(producer) || own == Some(producer),
{
    if let Some(added) = own {
        if !before.contains(added) {
            assert(after == before.push(added));
            assert(after[before.len() as int] == added);
            assert forall|producer: ProducerId| before.contains(producer) implies after.contains(
                producer,
            ) by {
                let k = choose|k: int| 0 <= k < before.len() && before[k] == producer;
                assert(after[k] == producer);
            }
            assert forall|producer: ProducerId| after.contains(producer) && producer
                != added implies before.contains(producer) by {
                let k = choose|k: int| 0 <= k < after.len() && after[k] == producer;
                assert(before[k] == producer);
            }
        }
    }
}

/// The results of staged work fill the very slots that they were staged for, and the call goes on
/// with the callable it resolved to, or is resolved again where it has none yet.
pub proof fn landed_work_fills_its_own_slot(
    ctx: &DecideCtx,
    region: RegionView,
    expr: ExprId,
    places: Seq<usize>,
    picked: Option<FnId>,
    results: Seq<Carried>,
)
    requires
        region.nodes.len() < usize::MAX,
        region.parts(expr).len() <= usize::MAX,
        places.no_duplicates(),
        places.len() == results.len(),
        forall|k: int| 0 <= k < places.len() ==> #[trigger] places[k] < region.parts(expr).len(),
    ensures
        ({
            let (outcome, after) = subs_landed(ctx, region, expr, places, picked, results);
            let call = ExprId { at: region.nodes.len() as usize };
            let filled = after.parts(call);
            &&& after.meta(call) == region.meta(expr)
            &&& filled.len() == region.parts(expr).len()
            &&& forall|k: int|
                0 <= k < places.len() ==> filled[#[trigger] places[k] as int].span == region.parts(
                    expr,
                )[places[k] as int].span && (
                filled[places[k] as int].value matches WorkingPart::Spliced { cell, .. } && cell
                    == results[k])
            &&& forall|i: int|
                0 <= i < filled.len() && !places.contains(i as usize) ==> #[trigger] filled[i]
                    == region.parts(expr)[i]
            &&& goes_on(ctx, outcome, call, picked)
        }),
{
    let parts = region.parts(expr);
    let (outcome, after) = subs_landed(ctx, region, expr, places, picked, results);
    let call = ExprId { at: region.nodes.len() as usize };
    let filled = after.parts(call);
    assert forall|k: int| 0 <= k < places.len() implies filled[#[trigger] places[k] as int].span
        == parts[places[k] as int].span && (
    filled[places[k] as int].value matches WorkingPart::Spliced { cell, .. } && cell
        == results[k]) by {
        result_at(places, results, k);
    }
    assert forall|i: int|
        0 <= i < filled.len() && !places.contains(i as usize) implies #[trigger] filled[i]
        == parts[i] by {
        no_result_at(places, results, i);
    }
}

proof fn result_at(places: Seq<usize>, results: Seq<Carried>, k: int)
    requires
        places.no_duplicates(),
        places.len() == results.len(),
        0 <= k < places.len(),
    ensures
        crate::decide::keyworded::result_for(places, results, places[k] as int) == Some(results[k]),
    decreases places.len(),
{
    if k > 0 {
        assert(places[0] != places[k]);
        result_at(places.drop_first(), results.drop_first(), k - 1);
    }
}

proof fn no_result_at(places: Seq<usize>, results: Seq<Carried>, i: int)
    requires
        0 <= i <= usize::MAX,
        !places.contains(i as usize),
    ensures
        crate::decide::keyworded::result_for(places, results, i) is None,
    decreases places.len(),
{
    if places.len() > 0 && results.len() > 0 {
        assert(places[0] != i as usize);
        let rest = places.drop_first();
        assert(!rest.contains(i as usize)) by {
            if rest.contains(i as usize) {
                let k = choose|k: int| 0 <= k < rest.len() && rest[k] == i as usize;
                assert(places[k + 1] == i as usize);
            }
        }
        no_result_at(rest, results.drop_first(), i);
    }
}

/// Whether a slot goes on with a call: invoked where its callable is known, in a fresh frame under
/// the scope a function was defined in, or resolved where it is not.
pub open spec fn goes_on(
    ctx: &DecideCtx,
    outcome: OutcomeView,
    call: ExprId,
    picked: Option<FnId>,
) -> bool {
    &&& outcome is Continue
    &&& outcome->obligation == ctx.obligation
    &&& outcome->block_entry is Stay
    &&& outcome->body_index == 0
    &&& outcome->Continue_free.len() == 0
    &&& match picked {
        None => outcome->work == Work::Resolve(call) && outcome->frame is Inherit,
        Some(function) => outcome->work == (Work::Invoke { function, expr: call })
            && match ctx.functions.body(function) {
            Body::Builtin(_) => outcome->frame is Inherit,
            Body::User => outcome->frame == (FramePlacement::FreshTail {
                outer: ctx.functions.captured(function),
            }),
        },
    }
}

/// A resolved call goes on by what its walk found. With names still to be bound it waits for their
/// producers and is decided again; with work staged it waits for that; otherwise the callable it
/// resolved to is invoked over the walked call.
pub proof fn resolved_calls_go_on_by_their_walk(
    ctx: &DecideCtx,
    types: &TypeRegistry,
    standings: &Standings,
    idx: NodeId,
    region: RegionView,
    expr: ExprId,
    function: FnId,
    slots: SlotsView,
    outcomes: Seq<Option<NameView>>,
    evaluated: bool,
)
    requires
        region.parts(expr).len() <= usize::MAX,
        region.nodes.len() + region.parts(expr).len() < usize::MAX,
    ensures
        ({
            let parts = region.parts(expr);
            let mask = match region.meta(expr).plan {
                Some(plan) => if plan.at < region.plans.len() {
                    Some(region.plans[plan.at as int].chain_slots@)
                } else {
                    None
                },
                None => None,
            };
            let walked = walk(
                ctx,
                types,
                standings,
                idx,
                mask,
                outcomes,
                slots,
                region,
                parts,
                parts.len(),
            );
            let (outcome, after) = walked_call(
                ctx,
                types,
                standings,
                idx,
                region,
                expr,
                function,
                slots,
                outcomes,
                evaluated,
            );
            let call = ExprId { at: walked.region.nodes.len() as usize };
            &&& walked.error matches Some(error) ==> outcome == OutcomeView::Done(Err(error))
            &&& walked.error is None ==> {
                &&& after.parts(call) == walked.parts
                &&& after.meta(call) == region.meta(expr)
                &&& walked.waits.len() > 0 ==> {
                    &&& outcome is ParkThenContinue
                    &&& outcome->deps.len() == walked.waits.len()
                    &&& outcome->park_count == walked.waits.len() as usize
                    &&& forall|k: int|
                        0 <= k < walked.waits.len() ==> #[trigger] outcome->deps[k]
                            == DepView::Existing(NodeId { at: walked.waits[k].edge })
                    &&& outcome->continuation == (ContinuationView::Resume {
                        carrier: Some(call),
                        resume: if evaluated {
                            Resume::Finish(call)
                        } else {
                            Resume::Initial(call)
                        },
                    })
                }
                &&& walked.waits.len() == 0 && walked.staged.len() == 0 ==> goes_on(
                    ctx,
                    outcome,
                    call,
                    Some(function),
                )
                &&& walked.waits.len() == 0 && walked.staged.len() > 0 ==> {
                    &&& outcome is ParkThenContinue
                    &&& outcome->park_count == 0
                    &&& outcome->deps.len() == walked.staged.len()
                    &&& outcome->continuation matches ContinuationView::Finish(
                        FinishView::EagerSubs { expr: own, part_indices, picked },
                    ) && own == call && picked is None && part_indices.len() == walked.staged.len()
                        && forall|k: int|
                        0 <= k < walked.staged.len() ==> #[trigger] part_indices[k]
                            == walked.staged[k].slot && asks_for(
                            outcome->deps[k],
                            walked.staged[k].sub,
                        )
                }
            }
        }),
{
    let parts = region.parts(expr);
    walked_slots_are_what_they_mean(
        ctx,
        types,
        standings,
        idx,
        region.chain_mask(expr),
        outcomes,
        slots,
        region,
        parts,
        parts.len(),
    );
}

/// Whether a dependency asks for a piece of pending work.
pub open spec fn asks_for(dep: DepView, sub: PendingSub) -> bool {
    match sub {
        PendingSub::Reuse(node) => dep == DepView::Existing(node),
        PendingSub::Fresh { request, binder_covered } => match request {
            DepRequest::Dispatch { expr, placement } => dep == (DepView::Dispatch {
                expr,
                placement,
                binder_covered,
            }),
            DepRequest::ListLit(list) => dep == DepView::ListLit(list),
            DepRequest::DictLit(dict) => dep == DepView::DictLit(dict),
            DepRequest::RecordLit(record) => dep == DepView::RecordLit(record),
        },
    }
}

proof fn open_are_running(
    standings: &Standings,
    idx: NodeId,
    producers: Seq<ProducerId>,
    upto: nat,
)
    requires
        upto <= producers.len(),
    ensures
        match open_claims(standings, idx, producers, upto) {
            Ok(waits) => waits.no_duplicates() && (forall|producer: ProducerId| #[trigger]
                waits.contains(producer) <==> exists|k: int|
                    0 <= k < upto && #[trigger] producers[k] == producer && standings.disposition(
                        producer,
                        Some(idx),
                    ) == DispositionView::Park) && forall|k: int|
                0 <= k < upto ==> !(standings.disposition(
                    #[trigger] producers[k],
                    Some(idx),
                ) is Errored),
            Err(error) => exists|k: int|
                0 <= k < upto && standings.disposition(#[trigger] producers[k], Some(idx))
                    == DispositionView::Errored(error),
        },
    decreases upto,
{
    if upto > 0 {
        let at = (upto - 1) as int;
        open_are_running(standings, idx, producers, at as nat);
        let own = producers[at];
        if let Ok(earlier) = open_claims(standings, idx, producers, at as nat) {
            if let Ok(waits) = open_claims(standings, idx, producers, upto) {
                let open = standings.disposition(own, Some(idx)) == DispositionView::Park;
                let added = if open {
                    Some(own)
                } else {
                    None
                };
                waits_grow(earlier, added, waits);
                assert forall|producer: ProducerId| #[trigger]
                    waits.contains(producer) <==> exists|k: int|
                        0 <= k < upto && #[trigger] producers[k] == producer
                            && standings.disposition(producer, Some(idx))
                            == DispositionView::Park by {
                    if earlier.contains(producer) {
                        let k = choose|k: int|
                            0 <= k < at && #[trigger] producers[k] == producer
                                && standings.disposition(producer, Some(idx))
                                == DispositionView::Park;
                        assert(producers[k] == producer);
                    }
                    if open && producer == own {
                        assert(producers[at] == producer);
                    }
                    if exists|k: int|
                        0 <= k < upto && #[trigger] producers[k] == producer
                            && standings.disposition(producer, Some(idx))
                            == DispositionView::Park {
                        let k = choose|k: int|
                            0 <= k < upto && #[trigger] producers[k] == producer
                                && standings.disposition(producer, Some(idx))
                                == DispositionView::Park;
                        if k < at {
                            assert(producers[k] == producer);
                        }
                    }
                }
            }
        }
    }
}

/// A call whose overloads are about to be registered waits for exactly those of their producers that
/// still run and do not wait for the call, each once, and is then decided again. Where one of them
/// failed the call fails with that error, and where none is left to wait for nothing matches.
pub proof fn calls_wait_for_pending_overloads(
    standings: &Standings,
    idx: NodeId,
    producers: Seq<ProducerId>,
    expr: ExprId,
)
    ensures
        ({
            let outcome = overloads_awaited(standings, idx, producers, expr);
            let errored = exists|k: int|
                0 <= k < producers.len() && standings.disposition(
                    #[trigger] producers[k],
                    Some(idx),
                ) is Errored;
            let running = exists|k: int|
                0 <= k < producers.len() && standings.disposition(
                    #[trigger] producers[k],
                    Some(idx),
                ) is Park;
            &&& errored ==> outcome is Done && outcome->Done_0 is Err
            &&& !errored && !running ==> outcome is Done && outcome->Done_0 is Err
                && outcome->Done_0->Err_0.kind is DispatchFailed
            &&& !errored && running ==> {
                &&& outcome is ParkThenContinue
                &&& outcome->park_count == outcome->deps.len() as usize
                &&& outcome->continuation == (ContinuationView::Resume {
                    carrier: Some(expr),
                    resume: Resume::Initial(expr),
                })
                &&& forall|k: int|
                    0 <= k < producers.len() && standings.disposition(
                        #[trigger] producers[k],
                        Some(idx),
                    ) is Park ==> outcome->deps.contains(
                        DepView::Existing(NodeId { at: producers[k].edge }),
                    )
                &&& forall|d: int|
                    0 <= d < outcome->deps.len() ==> exists|k: int|
                        0 <= k < producers.len() && standings.disposition(
                            #[trigger] producers[k],
                            Some(idx),
                        ) is Park && #[trigger] outcome->deps[d] == DepView::Existing(
                            NodeId { at: producers[k].edge },
                        )
            }
        }),
{
    open_are_running(standings, idx, producers, producers.len());
    let outcome = overloads_awaited(standings, idx, producers, expr);
    if let Ok(waits) = open_claims(standings, idx, producers, producers.len()) {
        assert forall|k: int|
            0 <= k < producers.len() && standings.disposition(#[trigger] producers[k], Some(idx))
                is Park implies waits.len() > 0 && (outcome is ParkThenContinue
            ==> outcome->deps.contains(DepView::Existing(NodeId { at: producers[k].edge }))) by {
            assert(waits.contains(producers[k]));
            let w = choose|w: int| 0 <= w < waits.len() && waits[w] == producers[k];
            if outcome is ParkThenContinue {
                assert(outcome->deps[w] == DepView::Existing(NodeId { at: producers[k].edge }));
            }
        }
        if waits.len() > 0 {
            assert(waits.contains(waits[0]));
            let k = choose|k: int|
                0 <= k < producers.len() && #[trigger] producers[k] == waits[0]
                    && standings.disposition(waits[0], Some(idx)) == DispositionView::Park;
            assert(standings.disposition(producers[k], Some(idx)) is Park);
            assert forall|d: int| 0 <= d < outcome->deps.len() implies exists|k: int|
                0 <= k < producers.len() && standings.disposition(
                    #[trigger] producers[k],
                    Some(idx),
                ) is Park && #[trigger] outcome->deps[d] == DepView::Existing(
                    NodeId { at: producers[k].edge },
                ) by {
                assert(waits.contains(waits[d]));
                let k = choose|k: int|
                    0 <= k < producers.len() && #[trigger] producers[k] == waits[d]
                        && standings.disposition(waits[d], Some(idx)) == DispositionView::Park;
                assert(outcome->deps[d] == DepView::Existing(NodeId { at: producers[k].edge }));
            }
        }
    }
}

/// The first slot whose name a failed producer claims fails the call with the error of that
/// producer.
pub proof fn failed_names_fail_the_call(outcomes: Seq<Option<NameView>>, from: int)
    requires
        0 <= from <= outcomes.len(),
    ensures
        match first_failure(outcomes, from) {
            Some(error) => exists|i: int|
                {
                    &&& from <= i < outcomes.len()
                    &&& #[trigger] outcomes[i] == Some(NameView::ProducerErrored(error))
                    &&& forall|j: int|
                        from <= j < i ==> !(#[trigger] outcomes[j] matches Some(
                            NameView::ProducerErrored(_),
                        ))
                },
            None => forall|j: int|
                from <= j < outcomes.len() ==> !(#[trigger] outcomes[j] matches Some(
                    NameView::ProducerErrored(_),
                )),
        },
    decreases outcomes.len() - from,
{
    if from < outcomes.len() {
        failed_names_fail_the_call(outcomes, from + 1);
        if let Some(NameView::ProducerErrored(error)) = outcomes[from] {
            assert(outcomes[from] == Some(NameView::ProducerErrored(error)));
        } else if let Some(error) = first_failure(outcomes, from + 1) {
            let i = choose|i: int|
                {
                    &&& from + 1 <= i < outcomes.len()
                    &&& #[trigger] outcomes[i] == Some(NameView::ProducerErrored(error))
                    &&& forall|j: int|
                        from + 1 <= j < i ==> !(#[trigger] outcomes[j] matches Some(
                            NameView::ProducerErrored(_),
                        ))
                };
            assert(outcomes[i] == Some(NameView::ProducerErrored(error)));
        }
    }
}

/// Whether no two parameters of a signature go under one name.
pub open spec fn names_apart(elements: Seq<SignatureElement>) -> bool {
    forall|i: int, j: int|
        0 <= i < j < elements.len() && #[trigger] elements[i] is Argument
            && #[trigger] elements[j] is Argument ==> elements[i]->Argument_0.name
            != elements[j]->Argument_0.name
}

proof fn put_is_found(cells: Seq<Cell>, name: Symbol, value: Carried, other: Symbol)
    ensures
        cell_named(with_cell(cells, name, value), name) == Some(value),
        other != name ==> cell_named(with_cell(cells, name, value), other) == cell_named(
            cells,
            other,
        ),
    decreases cells.len(),
{
    let after = with_cell(cells, name, value);
    if cells.len() == 0 {
        assert(after.drop_first() =~= Seq::<Cell>::empty());
        reveal_with_fuel(cell_named, 2);
    } else if cells[0].name == name {
        assert(after.drop_first() =~= cells.drop_first());
    } else {
        put_is_found(cells.drop_first(), name, value, other);
        assert(after.drop_first() =~= with_cell(cells.drop_first(), name, value));
    }
}

proof fn slots_bind_their_parameter(
    elements: Seq<SignatureElement>,
    cells: Seq<Option<Carried>>,
    upto: nat,
    i: int,
)
    requires
        names_apart(elements),
        upto <= cells.len(),
        0 <= i < elements.len(),
        i < upto,
        elements[i] is Argument,
    ensures
        cells[i] matches Some(value) ==> cell_named(
            named_upto(elements, cells, upto),
            elements[i]->Argument_0.name,
        ) == Some(value),
    decreases upto,
{
    let at = (upto - 1) as int;
    let name = elements[i]->Argument_0.name;
    let earlier = named_upto(elements, cells, at as nat);
    if i < at {
        slots_bind_their_parameter(elements, cells, at as nat, i);
        if at < elements.len() && elements[at] is Argument && cells[at] is Some {
            put_is_found(earlier, elements[at]->Argument_0.name, cells[at]->0, name);
        }
    } else if cells[at] is Some {
        put_is_found(earlier, name, cells[at]->0, name);
    }
}

/// A body is run with each parameter bound, under its own name, to the value of its own slot of the
/// call, in the frame that was set up for it. A builtin is handed the values that were spliced in,
/// each under the name of its own parameter. A call that does not fit the signature fails.
pub proof fn parameters_are_bound_to_their_own_slot(
    ctx: &DecideCtx,
    types: &TypeRegistry,
    region: RegionView,
    picked: FnId,
    expr: ExprId,
    frame: Option<FrameId>,
    i: int,
)
    requires
        region.objects.len() + region.parts(expr).len() <= usize::MAX,
        names_apart(ctx.functions.signature(picked)),
        0 <= i < ctx.functions.signature(picked).len(),
        i < region.parts(expr).len(),
        ctx.functions.signature(picked)[i] is Argument,
        !(region.parts(expr)[i].value matches WorkingPart::Ast(ExpressionPart::Keyword(_))),
    ensures
        ({
            let parts = region.parts(expr);
            let elements = ctx.functions.signature(picked);
            let name = elements[i]->Argument_0.name;
            let (invocation, after) = invoked(ctx, types, region, picked, expr, frame);
            match ctx.functions.body(picked) {
                Body::Builtin(at) => after == region && (invocation matches InvocationView::Builtin {
                    at: own,
                    carriers,
                } && own == at && (parts[i].value matches WorkingPart::Spliced { cell, .. }
                    ==> cell_named(carriers, name) == Some(cell))),
                Body::User => {
                    &&& call_error(types, ctx.labels, region, elements, parts) matches Some(error)
                        ==> (invocation, after) == (InvocationView::Failed(error), region)
                    &&& invocation matches InvocationView::Body(call) ==> {
                        &&& call.function == picked
                        &&& call.expr == expr
                        &&& call.in_chain == (ctx.obligation is Some)
                        &&& Some(call.frame) == frame || frame is None
                        &&& cell_named(call.arguments, name) matches Some(value) && is_value_of(
                            region,
                            after,
                            parts[i].value,
                            value,
                        )
                    }
                    &&& !(invocation is Builtin)
                },
            }
        }),
{
    let parts = region.parts(expr);
    let elements = ctx.functions.signature(picked);
    let spliced = spliced_cells(parts);
    slots_bind_their_parameter(elements, spliced, spliced.len(), i);
    let all = delivered(region, parts, spliced, parts.len());
    let (invocation, after) = invoked(ctx, types, region, picked, expr, frame);
    if invocation is Body {
        assert(all.region.objects =~= all.region.objects.take(all.region.objects.len() as int));
        deliveries_hold_slot_values(region, parts, parts.len(), after, i);
        crate::laws::calls::delivery_keeps_nodes(region, parts, spliced, parts.len());
        slots_bind_their_parameter(elements, all.cells, all.cells.len(), i);
    }
}

/// Whether a producer that a walk would wait for waits for the call itself, or is known to be a name
/// that cannot be taken.
pub open spec fn fails_at(
    types: &TypeRegistry,
    ctx: &DecideCtx,
    standings: &Standings,
    idx: NodeId,
    slots: SlotsView,
    outcomes: Seq<Option<NameView>>,
    part: WorkingPart,
    i: int,
) -> bool {
    &&& is_bare(part)
    &&& if slots.wrap_indices.contains(i as usize) {
        match taken_value(types, ctx, standings, part) {
            NameView::Resolved(_) => false,
            NameView::Parked(producer) => waits_for_call(standings, producer, idx),
            _ => true,
        }
    } else {
        slots.ref_name_indices.contains(i as usize) && i < outcomes.len() && (
        outcomes[i] matches Some(NameView::Parked(producer)) && waits_for_call(
            standings,
            producer,
            idx,
        ))
    }
}

/// Whether a producer is known to wait for a call.
pub open spec fn waits_for_call(
    standings: &Standings,
    producer: ProducerId,
    idx: NodeId,
) -> bool {
    exists|k: int| #[trigger]
        is_standing(standings, producer, k) && standings.entries@[k].waits_for@.contains(idx)
}

proof fn waiting_is_known(standings: &Standings, producer: ProducerId, idx: NodeId)
    ensures
        standings.awaits(producer, idx) == waits_for_call(standings, producer, idx),
{
    standing_entry(standings, producer);
    if standings.awaits(producer, idx) {
        assert(!is_unknown(standings, producer));
        let j = choose|j: int|
            0 <= j < standings.entries@.len() && (#[trigger] standings.entries@[j]).producer
                == producer;
        let k = first_standing(standings, producer, j);
        assert(is_standing(standings, producer, k));
    }
}

proof fn first_standing(standings: &Standings, producer: ProducerId, j: int) -> (k: int)
    requires
        0 <= j < standings.entries@.len(),
        standings.entries@[j].producer == producer,
    ensures
        is_standing(standings, producer, k),
    decreases j,
{
    if exists|i: int| 0 <= i < j && (#[trigger] standings.entries@[i]).producer == producer {
        let i = choose|i: int|
            0 <= i < j && (#[trigger] standings.entries@[i]).producer == producer;
        first_standing(standings, producer, i)
    } else {
        j
    }
}

/// A walk fails exactly when some slot cannot be taken: a name that the call takes by value is
/// unbound, its producer failed, or a producer that would be waited for waits for the call.
pub proof fn walks_fail_where_a_name_cannot_be_taken(
    ctx: &DecideCtx,
    types: &TypeRegistry,
    standings: &Standings,
    idx: NodeId,
    covered: Option<Seq<bool>>,
    outcomes: Seq<Option<NameView>>,
    slots: SlotsView,
    region: RegionView,
    parts: Seq<Spanned>,
    upto: nat,
)
    requires
        upto <= parts.len(),
    ensures
        walk(
            ctx,
            types,
            standings,
            idx,
            covered,
            outcomes,
            slots,
            region,
            parts,
            upto,
        ).error is None <==> forall|i: int|
            0 <= i < upto ==> !#[trigger] fails_at(
                types,
                ctx,
                standings,
                idx,
                slots,
                outcomes,
                parts[i].value,
                i,
            ),
    decreases upto,
{
    if upto > 0 {
        let at = (upto - 1) as int;
        walks_fail_where_a_name_cannot_be_taken(
            ctx,
            types,
            standings,
            idx,
            covered,
            outcomes,
            slots,
            region,
            parts,
            at as nat,
        );
        let part = parts[at].value;
        assert(is_bare(part) <==> part.bare_name() is Some);
        if is_bare(part) {
            if let NameView::Parked(producer) = taken_value(types, ctx, standings, part) {
                waiting_is_known(standings, producer, idx);
            }
        }
        if at < outcomes.len() {
            if let Some(NameView::Parked(producer)) = outcomes[at] {
                waiting_is_known(standings, producer, idx);
            }
        }
        let earlier = walk(
            ctx,
            types,
            standings,
            idx,
            covered,
            outcomes,
            slots,
            region,
            parts,
            at as nat,
        );
        let walked = walk(
            ctx,
            types,
            standings,
            idx,
            covered,
            outcomes,
            slots,
            region,
            parts,
            upto,
        );
        let own = fails_at(types, ctx, standings, idx, slots, outcomes, parts[at].value, at);
        if earlier.error is None {
            assert(walked.error is None <==> !own);
        }
    }
}

} // verus!
