//! Laws of staging: what a call evaluates before it is resolved is exactly its open slots, each by
//! its own work, and everything else of the call goes through untouched.

use crate::ast::{ExpressionPart, Spanned, WorkingPart};
use crate::decide::keyworded::{
    keyworded, named_expr, resolution_in, resolved_and_invoked, shows_value,
};
use crate::decide::resolve::{bare_outcomes_of, Resolution};
use crate::decide::resolve_dispatch::DispatchView;
use crate::decide::staging::{walk, walk_slot};
use crate::decide::DecideCtx;
use crate::error::{ErrorKindView, MessageView, Subject};
use crate::ktype::TypeRegistry;
use crate::outcome::{
    ContinuationView, Dep, DepPlacement, DepRequest, FinishView, OutcomeView, ParkDepsView, Resume,
};
use crate::region::{NodeMeta, RegionView};
use crate::value::ExprId;
use vstd::prelude::*;

verus! {

/// Whether a slot has to be evaluated before a call can be resolved: a group, a type expression or a
/// literal with parts of its own.
pub open spec fn is_open(part: WorkingPart) -> bool {
    match part {
        WorkingPart::Expression(_) | WorkingPart::RecordType(_) => true,
        WorkingPart::Ast(ast) => ast is Expression || ast is SigiledTypeExpr || ast is RecordType
            || ast is ListLiteral || ast is DictLiteral || ast is RecordLiteral,
        _ => false,
    }
}

/// Whether the parser marked a slot of a node to be kept as it stands.
pub open spec fn kept_raw(region: RegionView, meta: NodeMeta, i: int) -> bool {
    meta.raw matches Some(stamp) && stamp.at < region.stamps.len() && i
        < region.stamps[stamp.at as int].len() && region.stamps[stamp.at as int][i]
}

/// Whether `request` evaluates exactly this slot: its own group or literal, or an expression made of
/// the slot alone.
pub open spec fn evaluates(
    region: RegionView,
    slot: Spanned,
    by_name: bool,
    request: DepRequest,
) -> bool {
    if by_name {
        request matches DepRequest::Dispatch { expr, placement: DepPlacement::OwnScope }
            && region.parts(expr).len() == 1 && region.parts(expr)[0] == slot
    } else {
        match slot.value {
            WorkingPart::Expression(inner) => request == (DepRequest::Dispatch {
                expr: inner,
                placement: DepPlacement::OwnScope,
            }),
            WorkingPart::Ast(ExpressionPart::Expression(inner)) => request == (
            DepRequest::Dispatch { expr: inner, placement: DepPlacement::OwnScope }),
            WorkingPart::Ast(ExpressionPart::ListLiteral(list)) => request == DepRequest::ListLit(
                list,
            ),
            WorkingPart::Ast(ExpressionPart::DictLiteral(dict)) => request == DepRequest::DictLit(
                dict,
            ),
            WorkingPart::Ast(ExpressionPart::RecordLiteral(record)) => request
                == DepRequest::RecordLit(record),
            value => request matches DepRequest::Dispatch {
                expr,
                placement: DepPlacement::OwnScope,
            } && region.parts(expr).len() == 1 && region.parts(expr)[0].value == value,
        }
    }
}

/// Whether `requests` evaluate the slots at `places`, each its own, and `places` are in order all the
/// slots that are open and not kept raw, or asked for by name.
pub open spec fn stages(
    before: RegionView,
    after: RegionView,
    parts: Seq<Spanned>,
    meta: NodeMeta,
    named: Seq<usize>,
    upto: nat,
    places: Seq<usize>,
    requests: Seq<DepRequest>,
) -> bool {
    &&& places.len() == requests.len()
    &&& forall|a: int, b: int|
        0 <= a < b < places.len() ==> #[trigger] places[a] < #[trigger] places[b]
    &&& forall|k: int|
        0 <= k < places.len() ==> (#[trigger] places[k]) < upto && evaluates(
            after,
            parts[places[k] as int],
            named.contains(places[k]),
            requests[k],
        )
    &&& forall|i: int|
        0 <= i < upto ==> (#[trigger] places.contains(i as usize) <==> named.contains(i as usize)
            || is_open(parts[i].value) && !kept_raw(before, meta, i))
}

/// A walk over the slots of a call stages exactly the open ones, each by its own work, and leaves
/// what the region held as it was.
pub proof fn walks_stage_each_slot_by_its_own_work(
    region: RegionView,
    parts: Seq<Spanned>,
    meta: NodeMeta,
    named: Seq<usize>,
    upto: nat,
)
    requires
        upto <= parts.len() <= usize::MAX,
        region.nodes.len() + upto <= usize::MAX,
    ensures
        ({
            let walked = walk(region, parts, meta, named, upto);
            &&& region.nodes.is_prefix_of(walked.region.nodes)
            &&& walked.region.nodes.len() <= region.nodes.len() + upto
            &&& walked.region == RegionView { nodes: walked.region.nodes, ..region }
            &&& stages(
                region,
                walked.region,
                parts,
                meta,
                named,
                upto,
                walked.slots,
                walked.requests,
            )
            &&& forall|k: int|
                0 <= k < walked.requests.len() && is_lone(
                    parts[walked.slots[k] as int],
                    named.contains(walked.slots[k]),
                ) ==> (#[trigger] walked.requests[k])->Dispatch_expr.at < walked.region.nodes.len()
        }),
    decreases upto,
{
    let walked = walk(region, parts, meta, named, upto);
    if upto == 0 {
        assert(region.nodes =~= walked.region.nodes.take(region.nodes.len() as int));
    } else {
        let at = (upto - 1) as int;
        walks_stage_each_slot_by_its_own_work(region, parts, meta, named, at as nat);
        let earlier = walk(region, parts, meta, named, at as nat);
        assert(earlier.region.nodes.is_prefix_of(walked.region.nodes)) by {
            assert(earlier.region.nodes =~= walked.region.nodes.take(
                earlier.region.nodes.len() as int,
            ));
        }
        assert(region.nodes.is_prefix_of(walked.region.nodes)) by {
            assert(region.nodes =~= walked.region.nodes.take(region.nodes.len() as int));
        }
        let step = walk_slot(
            earlier.region,
            parts[at],
            named.contains(at as usize),
            region.keeps_raw(meta, at),
            meta,
        );
        assert(step is Some <==> named.contains(at as usize) || is_open(parts[at].value)
            && !kept_raw(region, meta, at));
        assert forall|k: int| 0 <= k < walked.slots.len() implies (#[trigger] walked.slots[k])
            < upto && evaluates(
            walked.region,
            parts[walked.slots[k] as int],
            named.contains(walked.slots[k]),
            walked.requests[k],
        ) by {
            if k < earlier.slots.len() {
                assert(walked.slots[k] == earlier.slots[k]);
                assert(walked.requests[k] == earlier.requests[k]);
                let slot = parts[earlier.slots[k] as int];
                if is_lone(slot, named.contains(earlier.slots[k])) {
                    let expr = earlier.requests[k]->Dispatch_expr;
                    assert(earlier.region.nodes[expr.at as int]
                        == walked.region.nodes[expr.at as int]);
                    assert(walked.region.parts(expr) == earlier.region.parts(expr));
                }
            }
        }
        assert forall|i: int| 0 <= i < upto implies (#[trigger] walked.slots.contains(i as usize)
            <==> named.contains(i as usize) || is_open(parts[i].value) && !kept_raw(
            region,
            meta,
            i,
        )) by {
            if i < at {
                assert(earlier.slots.contains(i as usize) <==> named.contains(i as usize)
                    || is_open(parts[i].value) && !kept_raw(region, meta, i));
                if earlier.slots.contains(i as usize) {
                    let k = choose|k: int|
                        0 <= k < earlier.slots.len() && earlier.slots[k] == i as usize;
                    assert(walked.slots[k] == i as usize);
                }
                if walked.slots.contains(i as usize) {
                    let k = choose|k: int|
                        0 <= k < walked.slots.len() && walked.slots[k] == i as usize;
                    assert(k < earlier.slots.len());
                    assert(earlier.slots[k] == i as usize);
                }
            } else if step is Some {
                assert(walked.slots[earlier.slots.len() as int] == at as usize);
            } else if walked.slots.contains(i as usize) {
                let k = choose|k: int| 0 <= k < walked.slots.len() && walked.slots[k] == i as usize;
                assert(earlier.slots[k] < at);
            }
        }
    }
}

/// Whether a slot is evaluated by an expression made for it.
pub open spec fn is_lone(slot: Spanned, by_name: bool) -> bool {
    by_name || !(slot.value is Expression || slot.value matches WorkingPart::Ast(
        ExpressionPart::Expression(_),
    ) || slot.value matches WorkingPart::Ast(ExpressionPart::ListLiteral(_))
        || slot.value matches WorkingPart::Ast(ExpressionPart::DictLiteral(_))
        || slot.value matches WorkingPart::Ast(ExpressionPart::RecordLiteral(_)))
}

/// A keyworded call with open slots waits for the work of exactly those slots, and then goes on with
/// the call in which each of them is left out and nothing else is changed. A call without open slots
/// is resolved at once.
pub proof fn calls_wait_for_their_open_slots(
    ctx: &DecideCtx,
    types: &TypeRegistry,
    region: RegionView,
    expr: ExprId,
)
    requires
        region.parts(expr).len() <= usize::MAX,
        region.nodes.len() + region.parts(expr).len() < usize::MAX,
    ensures
        ({
            let parts = region.parts(expr);
            let meta = region.meta(expr);
            let (outcome, after) = keyworded(ctx, types, region, expr);
            let open = exists|i: int|
                0 <= i < parts.len() && is_open((#[trigger] parts[i]).value) && !kept_raw(
                    region,
                    meta,
                    i,
                );
            &&& !open ==> (outcome, after) == resolved_and_invoked(ctx, types, region, expr)
            &&& open ==> {
                &&& outcome is Park
                &&& outcome->deps matches ParkDepsView::List(deps)
                    && outcome->continuation matches ContinuationView::Finish(
                    FinishView::EagerSubs { expr: call, part_indices, picked },
                ) && {
                    let requests = Seq::new(deps.len(), |k: int| deps[k]->Request_0);
                    &&& picked is None
                    &&& forall|k: int| 0 <= k < deps.len() ==> #[trigger] deps[k] is Request
                    &&& stages(
                        region,
                        after,
                        parts,
                        meta,
                        Seq::empty(),
                        parts.len(),
                        part_indices,
                        requests,
                    )
                    &&& after.meta(call) == meta
                    &&& after.parts(call).len() == parts.len()
                    &&& forall|i: int|
                        0 <= i < parts.len() ==> if is_open(parts[i].value) && !kept_raw(
                            region,
                            meta,
                            i,
                        ) {
                            (#[trigger] after.parts(call)[i]).value is StagedSlot
                        } else {
                            after.parts(call)[i] == parts[i]
                        }
                    &&& outcome->Park_error_frame matches Some(frame) && frame.expr == Some(call)
                        && frame.label is Bind
                }
            }
        }),
{
    let parts = region.parts(expr);
    let meta = region.meta(expr);
    let named = Seq::<usize>::empty();
    walks_stage_each_slot_by_its_own_work(region, parts, meta, named, parts.len());
    let walked = walk(region, parts, meta, named, parts.len());
    let (outcome, after) = keyworded(ctx, types, region, expr);
    if exists|i: int|
        0 <= i < parts.len() && is_open((#[trigger] parts[i]).value) && !kept_raw(
            region,
            meta,
            i,
        ) {
        let i = choose|i: int|
            0 <= i < parts.len() && is_open((#[trigger] parts[i]).value) && !kept_raw(
                region,
                meta,
                i,
            );
        assert(walked.slots.contains(i as usize));
        assert(walked.slots.len() > 0);
        let call = walked.region.next_node();
        assert(walked.region.nodes.is_prefix_of(after.nodes)) by {
            assert(walked.region.nodes =~= after.nodes.take(walked.region.nodes.len() as int));
        }
        assert forall|k: int| 0 <= k < walked.slots.len() implies (#[trigger] walked.slots[k])
            < parts.len() && evaluates(
            after,
            parts[walked.slots[k] as int],
            named.contains(walked.slots[k]),
            walked.requests[k],
        ) by {
            let slot = parts[walked.slots[k] as int];
            if is_lone(slot, false) {
                let own = walked.requests[k]->Dispatch_expr;
                assert(own.at < walked.region.nodes.len());
                assert(after.nodes[own.at as int] == walked.region.nodes[own.at as int]);
            }
        }
        if let OutcomeView::Park { deps: ParkDepsView::List(deps), .. } = outcome {
            let requests = Seq::new(deps.len(), |k: int| deps[k]->Request_0);
            assert(requests =~= walked.requests);
        }
        assert forall|i: int| 0 <= i < parts.len() implies if is_open(parts[i].value) && !kept_raw(
            region,
            meta,
            i,
        ) {
            (#[trigger] after.parts(call)[i]).value is StagedSlot
        } else {
            after.parts(call)[i] == parts[i]
        } by {
            assert(walked.slots.contains(i as usize) <==> is_open(parts[i].value) && !kept_raw(
                region,
                meta,
                i,
            ));
        }
    } else {
        if walked.slots.len() > 0 {
            let i = walked.slots[0] as int;
            assert(walked.slots.contains(i as usize));
            assert(is_open(parts[i].value));
        }
    }
}

/// Whether `after` is `before` with every bare name that has a value shown by that value, but for
/// the name that the form declares.
pub open spec fn shows_names(
    before: Seq<Spanned>,
    after: Seq<Spanned>,
    outcomes: Seq<Option<Resolution>>,
    declared: Option<usize>,
) -> bool {
    &&& after.len() == before.len()
    &&& forall|i: int|
        0 <= i < before.len() ==> {
            let own = #[trigger] after[i];
            match outcomes[i] {
                Some(Resolution::Resolved(value)) => if declared == Some(i as usize) {
                    own == before[i]
                } else {
                    own.span == before[i].span && (own.value matches WorkingPart::Spliced {
                        cell,
                        from_name,
                    } && cell == value && from_name == before[i].value.bare_name())
                },
                _ => own == before[i],
            }
        }
}

proof fn named_call_shows_names(
    region: RegionView,
    expr: ExprId,
    outcomes: Seq<Option<Resolution>>,
)
    requires
        region.nodes.len() < usize::MAX,
        outcomes.len() == region.parts(expr).len(),
    ensures
        shows_names(
            region.parts(expr),
            named_expr(region, expr, outcomes).1.parts(named_expr(region, expr, outcomes).0),
            outcomes,
            region.name_slot(expr),
        ),
{
    let before = region.parts(expr);
    let slot = region.name_slot(expr);
    let (named, grown) = named_expr(region, expr, outcomes);
    let after = grown.parts(named);
    assert forall|i: int| 0 <= i < before.len() implies ({
        let own = #[trigger] after[i];
        match outcomes[i] {
            Some(Resolution::Resolved(value)) => if slot == Some(i as usize) {
                own == before[i]
            } else {
                own.span == before[i].span && (own.value matches WorkingPart::Spliced {
                    cell,
                    from_name,
                } && cell == value && from_name == before[i].value.bare_name())
            },
            _ => own == before[i],
        }
    }) by {
        assert(shows_value(outcomes, slot, i) == (slot != Some(i as usize)
            && outcomes[i] matches Some(Resolution::Resolved(_))));
    }
}

/// A call that does not resolve says why: how many callables tie, that none takes it, or which name
/// is unbound. The call it shows is the one that was made, with each name shown by its own value. A
/// call that has to wait waits for exactly the producers it needs and then tries again.
pub proof fn unresolved_calls_say_why(
    ctx: &DecideCtx,
    types: &TypeRegistry,
    region: RegionView,
    expr: ExprId,
)
    requires
        region.nodes.len() < usize::MAX,
    ensures
        ({
            let outcomes = bare_outcomes_of(
                types,
                ctx.scope.levels@,
                region.parts(expr),
                ctx.chain,
            );
            let (outcome, after) = resolved_and_invoked(ctx, types, region, expr);
            let shown = |named: ExprId|
                shows_names(
                    region.parts(expr),
                    after.parts(named),
                    outcomes,
                    region.name_slot(expr),
                );
            match resolution_in(ctx, types, region, expr) {
                DispatchView::Resolved { .. } => true,
                DispatchView::Ambiguous(n) => {
                    &&& outcome is Done
                    &&& outcome->Done_0 is Err
                    &&& outcome->Done_0->Err_0.kind matches ErrorKindView::AmbiguousDispatch {
                        expr: named,
                        candidates,
                    } && candidates == n && shown(named)
                },
                DispatchView::Unmatched { .. } => {
                    &&& outcome is Done
                    &&& outcome->Done_0 is Err
                    &&& match ctx.diagnosis {
                        Some(text) => outcome->Done_0->Err_0.kind == ErrorKindView::ShapeError(
                            MessageView::Plain(text@),
                        ) && after == region,
                        None => outcome->Done_0->Err_0.kind matches ErrorKindView::DispatchFailed {
                            subject: Subject::Expr(named),
                            ..
                        } && shown(named),
                    }
                },
                DispatchView::UnboundName(name, role) => {
                    &&& outcome is Done
                    &&& outcome->Done_0 is Err
                    &&& after == region
                    &&& match ctx.diagnosis {
                        Some(text) => outcome->Done_0->Err_0.kind == ErrorKindView::ShapeError(
                            MessageView::Plain(text@),
                        ),
                        None => role is None ==> outcome->Done_0->Err_0.kind
                            == ErrorKindView::UnboundName(ctx.labels.text_of(name)),
                    }
                },
                DispatchView::ParkOnProducers(sources) => {
                    &&& outcome is Park
                    &&& after == region
                    &&& outcome->continuation == ContinuationView::Resume(Resume::Keyworded(expr))
                    &&& outcome->deps matches ParkDepsView::List(deps) && deps.len()
                        == sources.len() && forall|k: int|
                        0 <= k < deps.len() ==> #[trigger] deps[k] == Dep::Producer(sources[k])
                    &&& outcome->Park_error_frame matches Some(frame) && frame.expr == Some(expr)
                        && frame.label is DispatchPark
                },
            }
        }),
{
    named_call_shows_names(
        region,
        expr,
        bare_outcomes_of(types, ctx.scope.levels@, region.parts(expr), ctx.chain),
    );
}

} // verus!
