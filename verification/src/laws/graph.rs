//! Laws of the graph: a slot goes on with exactly what its outcome says, and waits for exactly the
//! slots that answer what it asked for.

use crate::dispatch::harness::{
    outcome_applied, realized, Bodies, Edge, RunView, SchedulerView, StatementBlock, StepView,
    Submitted,
};
use crate::dispatch::outcome::{ContinuationView, DepView, OutcomeView, WatchedDep, Work};
use crate::error::{ErrorView, FrameLabel, TraceFrame};
use crate::outcome::{BlockEntry, DepPlacement, FinishId, FramePlacement, Obligation};
use crate::value::{Carried, ExprId, NodeId};
use vstd::prelude::*;

verus! {

/// A slot that continues keeps what the outcome says: its work, its obligation, its block entry and
/// its place in the body, whatever they are. It waits for nothing. It runs in the frame that the
/// outcome placed it in, a fresh one under the outer scope where one was asked for. The slots that
/// were given up are freed, and nothing else of the graph changes.
pub proof fn continuing_slots_keep_what_the_outcome_says(
    bodies: &Bodies,
    graph: SchedulerView,
    idx: NodeId,
    work: Work,
    obligation: Option<Obligation>,
    frame: FramePlacement,
    block_entry: BlockEntry,
    body_index: usize,
    free: Seq<NodeId>,
)
    requires
        graph.frames.len() < usize::MAX,
    ensures
        ({
            let (step, after) = outcome_applied(
                bodies,
                graph,
                OutcomeView::Continue { work, obligation, frame, block_entry, body_index, free },
                idx,
            );
            &&& step is Replace
            &&& step->Replace_run == RunView::Now(work)
            &&& step->Replace_obligation == obligation
            &&& step->Replace_block_entry == block_entry
            &&& step->Replace_body_index == body_index
            &&& step->Replace_deps.len() == 0
            &&& step->Replace_park_count == 0
            &&& step->Replace_carrier is None
            &&& after.submitted == graph.submitted
            &&& after.results == graph.results
            &&& after.edges == graph.edges
            &&& after.freed == graph.freed + free
            &&& match frame {
                FramePlacement::Inherit => step->Replace_frame is None && after.frames
                    == graph.frames,
                FramePlacement::FreshChild { frame: own } => step->Replace_frame == Some(own)
                    && after.frames == graph.frames,
                FramePlacement::FreshTail { outer } => {
                    &&& after.frames.len() == graph.frames.len() + 1
                    &&& forall|i: int|
                        0 <= i < graph.frames.len() ==> #[trigger] after.frames[i]
                            == graph.frames[i]
                    &&& step->Replace_frame is Some
                    &&& step->Replace_frame->0.at == graph.frames.len()
                    &&& after.frames[step->Replace_frame->0.at as int] == outer
                },
            }
        }),
{
}

/// A finished slot has the result of its outcome, and a slot that forwards to another has the result
/// of that one, or is another name for it until it has one.
pub proof fn finished_slots_have_the_result(
    bodies: &Bodies,
    graph: SchedulerView,
    idx: NodeId,
    result: Result<Carried, ErrorView>,
    node: NodeId,
)
    ensures
        outcome_applied(bodies, graph, OutcomeView::Done(result), idx) == (
            StepView::Done(result),
            graph,
        ),
        outcome_applied(bodies, graph, OutcomeView::Forward(node), idx).1 == graph,
        node.at < graph.results.len() && graph.results[node.at as int] == Some(result)
            ==> outcome_applied(bodies, graph, OutcomeView::Forward(node), idx).0
            == StepView::Done(result),
        node.at >= graph.results.len() || graph.results[node.at as int] is None ==> outcome_applied(
            bodies,
            graph,
            OutcomeView::Forward(node),
            idx,
        ).0 == StepView::Alias(node),
{
}

/// Whether slot `id` was submitted with `what`, after the first `earlier` slots.
pub open spec fn submitted_as(
    graph: SchedulerView,
    earlier: nat,
    id: NodeId,
    what: Submitted,
) -> bool {
    earlier <= id.at < graph.submitted.len() && graph.submitted[id.at as int] == what
}

/// Whether `ids` are fresh slots for the statements of a block, one each, in order.
pub open spec fn runs_block(
    graph: SchedulerView,
    earlier: nat,
    statements: Seq<ExprId>,
    block: StatementBlock,
    ids: Seq<NodeId>,
) -> bool {
    ids.len() == statements.len() && forall|i: int|
        0 <= i < ids.len() ==> submitted_as(
            graph,
            earlier,
            #[trigger] ids[i],
            Submitted::Statement { expr: statements[i], block, index: i as usize },
        )
}

/// Whether `ids` are the slots that answer `dep`: the slot it names, or fresh ones for what it asks
/// to have run, where it asks to have it run.
pub open spec fn answers(
    bodies: &Bodies,
    graph: SchedulerView,
    earlier: nat,
    dep: DepView,
    ids: Seq<NodeId>,
) -> bool {
    match dep {
        DepView::Existing(node) => ids.len() == 1 && ids[0] == node,
        DepView::Dispatch {
            expr,
            placement: DepPlacement::OwnScope,
            binder_covered,
        } => ids.len() == 1 && submitted_as(
            graph,
            earlier,
            ids[0],
            Submitted::Here { expr, binder_covered },
        ),
        DepView::Dispatch {
            expr,
            placement: DepPlacement::ActiveFrame,
            binder_covered,
        } => ids.len() == 1 && submitted_as(
            graph,
            earlier,
            ids[0],
            Submitted::InFrame { expr, binder_covered },
        ),
        DepView::Dispatch { expr, placement: DepPlacement::InScope(scope), .. } => runs_block(
            graph,
            earlier,
            bodies.statements(expr),
            StatementBlock::Scope(scope),
            ids,
        ),
        DepView::ListLit(items) => ids.len() == 1 && submitted_as(
            graph,
            earlier,
            ids[0],
            Submitted::ListLit(items),
        ),
        DepView::DictLit(pairs) => ids.len() == 1 && submitted_as(
            graph,
            earlier,
            ids[0],
            Submitted::DictLit(pairs),
        ),
        DepView::RecordLit(fields) => ids.len() == 1 && submitted_as(
            graph,
            earlier,
            ids[0],
            Submitted::RecordLit(fields),
        ),
        DepView::BodyBlock { frame, statements } => runs_block(
            graph,
            earlier,
            statements,
            StatementBlock::Frame(frame),
            ids,
        ),
    }
}

/// Whether `ids` are the slots that answer `deps`, those of an earlier one before those of a later.
pub open spec fn answers_all(
    bodies: &Bodies,
    graph: SchedulerView,
    earlier: nat,
    deps: Seq<DepView>,
    ids: Seq<NodeId>,
) -> bool
    decreases deps.len(),
{
    if deps.len() == 0 {
        ids.len() == 0
    } else {
        exists|cut: int|
            {
                &&& 0 <= cut <= ids.len()
                &&& answers_all(
                    bodies,
                    graph,
                    earlier,
                    deps.drop_last(),
                    #[trigger] ids.take(cut),
                )
                &&& answers(bodies, graph, earlier, deps.last(), ids.skip(cut))
            }
    }
}

/// Whether the slots of `graph` after the first `earlier` ones are all among `ids`.
pub open spec fn all_awaited(graph: SchedulerView, earlier: nat, ids: Seq<NodeId>) -> bool {
    forall|n: int|
        earlier <= n < graph.submitted.len() ==> #[trigger] ids.contains(NodeId { at: n as usize })
}

/// Whether one edge to `idx` was added per slot of `ids`, in order, of which the first `park_count`
/// are parked on and the others owned.
pub open spec fn linked(
    before: Seq<Edge>,
    after: Seq<Edge>,
    ids: Seq<NodeId>,
    park_count: usize,
    idx: NodeId,
) -> bool {
    &&& after.len() == before.len() + ids.len()
    &&& forall|i: int| 0 <= i < before.len() ==> #[trigger] after[i] == before[i]
    &&& forall|i: int|
        0 <= i < ids.len() ==> {
            let edge = #[trigger] after[before.len() + i];
            &&& edge.from == ids[i]
            &&& edge.to == idx
            &&& edge.kind is Parked <==> i < park_count
        }
}

proof fn answers_stay(
    bodies: &Bodies,
    graph: SchedulerView,
    later: SchedulerView,
    earlier: nat,
    deps: Seq<DepView>,
    ids: Seq<NodeId>,
)
    requires
        answers_all(bodies, graph, earlier, deps, ids),
        graph.submitted.len() <= later.submitted.len(),
        forall|n: int|
            0 <= n < graph.submitted.len() ==> #[trigger] later.submitted[n] == graph.submitted[n],
    ensures
        answers_all(bodies, later, earlier, deps, ids),
    decreases deps.len(),
{
    if deps.len() > 0 {
        let cut = choose|cut: int|
            {
                &&& 0 <= cut <= ids.len()
                &&& answers_all(
                    bodies,
                    graph,
                    earlier,
                    deps.drop_last(),
                    #[trigger] ids.take(cut),
                )
                &&& answers(bodies, graph, earlier, deps.last(), ids.skip(cut))
            };
        answers_stay(bodies, graph, later, earlier, deps.drop_last(), ids.take(cut));
        let own = ids.skip(cut);
        assert forall|i: int, what: Submitted|
            0 <= i < own.len() && #[trigger] submitted_as(graph, earlier, own[i], what) implies
            submitted_as(later, earlier, own[i], what) by {
            assert(later.submitted[own[i].at as int] == graph.submitted[own[i].at as int]);
        }
        assert(answers(bodies, later, earlier, deps.last(), own));
    }
}

proof fn realizing_answers(
    bodies: &Bodies,
    graph: SchedulerView,
    deps: Seq<DepView>,
    upto: nat,
)
    requires
        upto <= deps.len(),
        realized(bodies, graph, deps, upto).1.submitted.len() <= usize::MAX,
    ensures
        ({
            let (ids, after) = realized(bodies, graph, deps, upto);
            &&& answers_all(bodies, after, graph.submitted.len(), deps.take(upto as int), ids)
            &&& all_awaited(after, graph.submitted.len(), ids)
            &&& graph.submitted.len() <= after.submitted.len()
            &&& forall|n: int|
                0 <= n < graph.submitted.len() ==> #[trigger] after.submitted[n]
                    == graph.submitted[n]
            &&& after == SchedulerView { submitted: after.submitted, ..graph }
        }),
    decreases upto,
{
    let (ids, after) = realized(bodies, graph, deps, upto);
    if upto > 0 {
        let (earlier, before) = realized(bodies, graph, deps, (upto - 1) as nat);
        assert(before.submitted.len() <= after.submitted.len());
        realizing_answers(bodies, graph, deps, (upto - 1) as nat);
        let dep = deps[upto - 1];
        let own = before.slots_of(bodies, dep);
        let cut = earlier.len() as int;
        let all = deps.take(upto as int);
        assert(all.drop_last() =~= deps.take(upto - 1));
        assert(ids.take(cut) =~= earlier);
        assert(ids.skip(cut) =~= own);
        answers_stay(bodies, before, after, graph.submitted.len(), all.drop_last(), earlier);
        assert forall|i: int| 0 <= i < own.len() && !(dep is Existing) implies submitted_as(
            after,
            graph.submitted.len(),
            #[trigger] own[i],
            crate::dispatch::harness::submissions(bodies, dep)[i],
        ) by {}
        assert(answers(bodies, after, graph.submitted.len(), dep, own));
        assert(answers_all(
            bodies,
            after,
            graph.submitted.len(),
            all.drop_last(),
            ids.take(cut),
        ));
        assert forall|n: int| graph.submitted.len() <= n < after.submitted.len() implies
            #[trigger] ids.contains(NodeId { at: n as usize }) by {
            if n < before.submitted.len() {
                assert(earlier.contains(NodeId { at: n as usize }));
                let k = choose|k: int|
                    0 <= k < earlier.len() && earlier[k] == (NodeId { at: n as usize });
                assert(ids[k] == earlier[k]);
            } else {
                let k = n - before.submitted.len();
                assert(ids[cut + k] == own[k]);
            }
        }
        assert forall|n: int| 0 <= n < graph.submitted.len() implies #[trigger] after.submitted[n]
            == graph.submitted[n] by {
            assert(before.submitted[n] == graph.submitted[n]);
        }
    }
}

/// A slot that parks waits for exactly the slots that answer its dependencies, in their order: those
/// it names, and a fresh one for everything it asks to have run. There is one edge per awaited slot,
/// and no slot is submitted that is not awaited. Once they landed, it goes on as it said it would.
pub proof fn waiting_slots_await_what_they_asked_for(
    bodies: &Bodies,
    graph: SchedulerView,
    idx: NodeId,
    deps: Seq<DepView>,
    park_count: usize,
    continuation: ContinuationView,
    error_frame: Option<TraceFrame>,
    free: Seq<NodeId>,
)
    requires
        !(continuation is Catch),
        outcome_applied(
            bodies,
            graph,
            OutcomeView::ParkThenContinue { deps, park_count, continuation, error_frame, free },
            idx,
        ).1.submitted.len() <= usize::MAX,
    ensures
        ({
            let (step, after) = outcome_applied(
                bodies,
                graph,
                OutcomeView::ParkThenContinue { deps, park_count, continuation, error_frame, free },
                idx,
            );
            &&& step is Replace
            &&& answers_all(bodies, after, graph.submitted.len(), deps, step->Replace_deps)
            &&& all_awaited(after, graph.submitted.len(), step->Replace_deps)
            &&& linked(graph.edges, after.edges, step->Replace_deps, park_count, idx)
            &&& step->Replace_park_count == park_count
            &&& step->Replace_frame is None
            &&& step->Replace_obligation is None
            &&& step->Replace_block_entry is Stay
            &&& step->Replace_body_index == 0
            &&& match continuation {
                ContinuationView::Finish(finish) => step->Replace_run == (RunView::Finish {
                    error_frame,
                    finish,
                }) && step->Replace_carrier is None,
                ContinuationView::Combine(combine) => step->Replace_run == (RunView::Combine {
                    error_frame: Some(TraceFrame { label: FrameLabel::Combine, expr: None }),
                    combine,
                }) && step->Replace_carrier is None,
                ContinuationView::Resume { carrier, resume } => step->Replace_run
                    == RunView::Resume(resume) && step->Replace_carrier == carrier,
                ContinuationView::Catch { .. } => true,
            }
            &&& forall|n: int|
                0 <= n < graph.submitted.len() ==> #[trigger] after.submitted[n]
                    == graph.submitted[n]
            &&& after.results == graph.results
            &&& after.freed == graph.freed + free
            &&& after.frames == graph.frames
        }),
{
    let start = SchedulerView { freed: graph.freed + free, ..graph };
    realizing_answers(bodies, start, deps, deps.len());
    assert(deps.take(deps.len() as int) =~= deps);
    let (ids, grown) = realized(bodies, start, deps, deps.len());
    let after = outcome_applied(
        bodies,
        graph,
        OutcomeView::ParkThenContinue { deps, park_count, continuation, error_frame, free },
        idx,
    ).1;
    answers_stay(bodies, grown, after, graph.submitted.len(), deps, ids);
}

/// A slot that watches another waits for that one alone and owns it: the slot it names, or a fresh
/// one for the expression it asks to have run, where it asks to have it run.
pub proof fn watching_slots_await_the_watched_one(
    bodies: &Bodies,
    graph: SchedulerView,
    idx: NodeId,
    watched: WatchedDep,
    finish: FinishId,
    error_frame: Option<TraceFrame>,
    free: Seq<NodeId>,
)
    requires
        graph.submitted.len() < usize::MAX,
    ensures
        ({
            let (step, after) = outcome_applied(
                bodies,
                graph,
                OutcomeView::ParkThenContinue {
                    deps: Seq::empty(),
                    park_count: 0,
                    continuation: ContinuationView::Catch { watched, finish },
                    error_frame,
                    free,
                },
                idx,
            );
            &&& step is Replace
            &&& step->Replace_run == RunView::Caught(finish)
            &&& step->Replace_deps.len() == 1
            &&& step->Replace_park_count == 0
            &&& step->Replace_frame is None
            &&& step->Replace_obligation is None
            &&& step->Replace_block_entry is Stay
            &&& linked(graph.edges, after.edges, step->Replace_deps, 0, idx)
            &&& after.freed == graph.freed + free
            &&& after.results == graph.results
            &&& after.frames == graph.frames
            &&& match watched {
                WatchedDep::Existing(node) => step->Replace_deps[0] == node && after.submitted
                    == graph.submitted,
                WatchedDep::Dispatch { expr, placement, binder_covered } => {
                    &&& after.submitted.len() == graph.submitted.len() + 1
                    &&& step->Replace_deps[0].at == graph.submitted.len()
                    &&& match placement {
                        DepPlacement::OwnScope => after.submitted.last() == (Submitted::Here {
                            expr,
                            binder_covered,
                        }),
                        DepPlacement::ActiveFrame => after.submitted.last() == (
                        Submitted::InFrame { expr, binder_covered }),
                        DepPlacement::InScope(scope) => after.submitted.last() == (
                        Submitted::Statement {
                            expr,
                            block: StatementBlock::Scope(scope),
                            index: 0,
                        }),
                    }
                },
            }
        }),
{
    let (step, after) = outcome_applied(
        bodies,
        graph,
        OutcomeView::ParkThenContinue {
            deps: Seq::empty(),
            park_count: 0,
            continuation: ContinuationView::Catch { watched, finish },
            error_frame,
            free,
        },
        idx,
    );
    assert(graph.submitted + Seq::<Submitted>::empty() =~= graph.submitted);
}

} // verus!
