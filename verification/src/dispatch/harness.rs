//! The write harness: the one place where a decided [`Outcome`] becomes writes to the scheduler's
//! graph. Slots are submitted in the order in which the outcome lists what it waits for, so a
//! continuation reads its results in that order too.

use super::outcome::{
    dep_views, Continuation, ContinuationView, DepView, DispatchDep, Finish, FinishView, Outcome,
    OutcomeView, Resume, WatchedDep, Work,
};
use crate::ast::{DictId, ListId, RecordId};
use crate::error::{ErrorView, FrameLabel, KError, TraceFrame};
use crate::ktype::ScopeId;
use crate::outcome::{
    result_view, BlockEntry, DepPlacement, FinishId, FrameId, FramePlacement, Obligation,
};
use crate::scope::{first_match, first_match_step};
use crate::value::{Carried, ExprId, NodeId};
use vstd::prelude::*;

verus! {

/// Where the statements of a block bind.
#[derive(Clone, Copy, PartialEq, Eq, Structural, Debug)]
pub enum StatementBlock {
    Scope(ScopeId),
    Frame(FrameId),
}

/// What a slot was submitted for.
#[derive(Clone, Copy, PartialEq, Eq, Structural, Debug)]
pub enum Submitted {
    /// In the scope of the slot that asked for it.
    Here { expr: ExprId, binder_covered: bool },
    /// In the scope of the active call frame.
    InFrame { expr: ExprId, binder_covered: bool },
    ListLit(ListId),
    DictLit(DictId),
    RecordLit(RecordId),
    /// As the statement at `index` of a block.
    Statement { expr: ExprId, block: StatementBlock, index: usize },
}

/// Whether a slot that is waited for is owned, so that it goes when its consumer has it.
#[derive(Clone, Copy, PartialEq, Eq, Structural, Debug)]
pub enum EdgeKind {
    Parked,
    Owned,
}

/// One slot waits for another.
#[derive(Clone, Copy, PartialEq, Eq, Structural, Debug)]
pub struct Edge {
    pub from: NodeId,
    pub to: NodeId,
    pub kind: EdgeKind,
}

/// How the bodies of a program split into statements. A body that is not listed is one statement.
pub struct Bodies {
    pub entries: Vec<BodyEntry>,
}

/// The statements of one body.
pub struct BodyEntry {
    pub body: ExprId,
    pub statements: Vec<ExprId>,
}

/// The scheduler's graph.
pub struct Scheduler {
    /// What every slot was submitted for, in the order of submission.
    pub submitted: Vec<Submitted>,
    /// What the slots came to, as far as they have.
    pub results: Vec<Option<Result<Carried, KError>>>,
    pub edges: Vec<Edge>,
    /// The slots that were given back.
    pub freed: Vec<NodeId>,
    /// The call frames that were opened, each by the scope it goes under.
    pub frames: Vec<ScopeId>,
}

/// The content of a [`Scheduler`].
#[verifier::ext_equal]
pub struct SchedulerView {
    pub submitted: Seq<Submitted>,
    pub results: Seq<Option<Result<Carried, ErrorView>>>,
    pub edges: Seq<Edge>,
    pub freed: Seq<NodeId>,
    pub frames: Seq<ScopeId>,
}

/// The content of a slot's result.
pub open spec fn slot_result(result: Option<Result<Carried, KError>>) -> Option<
    Result<Carried, ErrorView>,
> {
    match result {
        Some(own) => Some(result_view(own)),
        None => None,
    }
}

impl View for Scheduler {
    type V = SchedulerView;

    open spec fn view(&self) -> SchedulerView {
        SchedulerView {
            submitted: self.submitted@,
            results: self.results@.map_values(
                |result: Option<Result<Carried, KError>>| slot_result(result),
            ),
            edges: self.edges@,
            freed: self.freed@,
            frames: self.frames@,
        }
    }
}

/// What runs when a slot has its turn.
pub enum SlotRun {
    Now(Work),
    /// Runs once everything landed; an error of a dependency goes out under `error_frame` instead.
    Finish { error_frame: Option<TraceFrame>, finish: Finish },
    Combine { error_frame: Option<TraceFrame>, combine: FinishId },
    /// Runs on the result of the sole dependency, error or not.
    Caught(FinishId),
    Resume(Resume),
}

/// The content of a [`SlotRun`].
pub enum RunView {
    Now(Work),
    Finish { error_frame: Option<TraceFrame>, finish: FinishView },
    Combine { error_frame: Option<TraceFrame>, combine: FinishId },
    Caught(FinishId),
    Resume(Resume),
}

impl View for SlotRun {
    type V = RunView;

    open spec fn view(&self) -> RunView {
        match *self {
            SlotRun::Now(work) => RunView::Now(work),
            SlotRun::Finish { error_frame, finish } => RunView::Finish {
                error_frame,
                finish: finish@,
            },
            SlotRun::Combine { error_frame, combine } => RunView::Combine { error_frame, combine },
            SlotRun::Caught(finish) => RunView::Caught(finish),
            SlotRun::Resume(resume) => RunView::Resume(resume),
        }
    }
}

/// What becomes of a slot.
pub enum NodeStep {
    Done(Result<Carried, KError>),
    /// The slot gets new work. It waits for `deps`, the first `park_count` of which it only parks
    /// on.
    Replace {
        deps: Vec<NodeId>,
        park_count: usize,
        run: SlotRun,
        carrier: Option<ExprId>,
        frame: Option<FrameId>,
        obligation: Option<Obligation>,
        block_entry: BlockEntry,
        body_index: usize,
    },
    /// The slot is another name for this one.
    Alias(NodeId),
}

/// The content of a [`NodeStep`].
pub enum StepView {
    Done(Result<Carried, ErrorView>),
    Replace {
        deps: Seq<NodeId>,
        park_count: usize,
        run: RunView,
        carrier: Option<ExprId>,
        frame: Option<FrameId>,
        obligation: Option<Obligation>,
        block_entry: BlockEntry,
        body_index: usize,
    },
    Alias(NodeId),
}

impl View for NodeStep {
    type V = StepView;

    open spec fn view(&self) -> StepView {
        match *self {
            NodeStep::Done(result) => StepView::Done(result_view(result)),
            NodeStep::Replace {
                deps,
                park_count,
                run,
                carrier,
                frame,
                obligation,
                block_entry,
                body_index,
            } => StepView::Replace {
                deps: deps@,
                park_count,
                run: run@,
                carrier,
                frame,
                obligation,
                block_entry,
                body_index,
            },
            NodeStep::Alias(node) => StepView::Alias(node),
        }
    }
}

impl Bodies {
    /// The statements of a body.
    pub open spec fn statements(&self, body: ExprId) -> Seq<ExprId> {
        match first_match(self.entries@, |e: BodyEntry| e.body == body) {
            Some(entry) => entry.statements@,
            None => seq![body],
        }
    }

    /// The statements of a body.
    pub fn split_body_statements(&self, body: ExprId) -> (r: Vec<ExprId>)
        ensures
            r@ == self.statements(body),
    {
        let ghost wanted = |e: BodyEntry| e.body == body;
        let mut i: usize = 0;
        proof {
            assert(self.entries@.skip(0) =~= self.entries@);
        }
        while i < self.entries.len()
            invariant
                i <= self.entries.len(),
                wanted == (|e: BodyEntry| e.body == body),
                first_match(self.entries@, wanted) == first_match(
                    self.entries@.skip(i as int),
                    wanted,
                ),
            decreases self.entries.len() - i,
        {
            proof {
                first_match_step(self.entries@, wanted, i as int);
            }
            if self.entries[i].body == body {
                return copy_exprs(&self.entries[i].statements);
            }
            i = i + 1;
        }
        let mut r: Vec<ExprId> = Vec::new();
        r.push(body);
        assert(r@ =~= seq![body]);
        r
    }
}

/// Copies a run of expressions.
fn copy_exprs(items: &Vec<ExprId>) -> (r: Vec<ExprId>)
    ensures
        r@ == items@,
{
    let mut r: Vec<ExprId> = Vec::new();
    let mut i: usize = 0;
    while i < items.len()
        invariant
            i <= items.len(),
            r@ == items@.take(i as int),
        decreases items.len() - i,
    {
        r.push(items[i]);
        assert(items@.take(i as int + 1) =~= items@.take(i as int).push(items@[i as int]));
        i = i + 1;
    }
    assert(items@.take(i as int) =~= items@);
    r
}

/// The statements of a block as submissions, in order.
pub open spec fn block_submissions(statements: Seq<ExprId>, block: StatementBlock) -> Seq<Submitted> {
    Seq::new(
        statements.len(),
        |i: int| Submitted::Statement { expr: statements[i], block, index: i as usize },
    )
}

/// What has to be submitted for a dependency. Only a body comes to several slots.
pub open spec fn submissions(bodies: &Bodies, dep: DepView) -> Seq<Submitted> {
    match dep {
        DepView::Dispatch { expr, placement, binder_covered } => match placement {
            DepPlacement::OwnScope => seq![Submitted::Here { expr, binder_covered }],
            DepPlacement::ActiveFrame => seq![Submitted::InFrame { expr, binder_covered }],
            DepPlacement::InScope(scope) => block_submissions(
                bodies.statements(expr),
                StatementBlock::Scope(scope),
            ),
        },
        DepView::ListLit(items) => seq![Submitted::ListLit(items)],
        DepView::DictLit(pairs) => seq![Submitted::DictLit(pairs)],
        DepView::RecordLit(fields) => seq![Submitted::RecordLit(fields)],
        DepView::BodyBlock { frame, statements } => block_submissions(
            statements,
            StatementBlock::Frame(frame),
        ),
        DepView::Existing(_) => Seq::empty(),
    }
}

/// `count` slots from `first` on.
pub open spec fn slots_from(first: nat, count: nat) -> Seq<NodeId> {
    Seq::new(count, |i: int| NodeId { at: (first + i) as usize })
}

impl SchedulerView {
    /// The graph with more slots.
    pub open spec fn with_slots(self, more: Seq<Submitted>) -> SchedulerView {
        SchedulerView { submitted: self.submitted + more, ..self }
    }

    /// The slots that a dependency comes to.
    pub open spec fn slots_of(self, bodies: &Bodies, dep: DepView) -> Seq<NodeId> {
        match dep {
            DepView::Existing(node) => seq![node],
            _ => slots_from(self.submitted.len(), submissions(bodies, dep).len()),
        }
    }

    /// What a slot came to; one that has not come to anything has no result.
    pub open spec fn result_of(self, node: NodeId) -> Option<Result<Carried, ErrorView>> {
        if node.at < self.results.len() {
            self.results[node.at as int]
        } else {
            None
        }
    }
}

/// The first `upto` dependencies, submitted in order: the slots they come to, and the graph behind
/// it.
pub open spec fn realized(
    bodies: &Bodies,
    graph: SchedulerView,
    deps: Seq<DepView>,
    upto: nat,
) -> (Seq<NodeId>, SchedulerView)
    decreases upto,
{
    if upto == 0 {
        (Seq::empty(), graph)
    } else {
        let (earlier, before) = realized(bodies, graph, deps, (upto - 1) as nat);
        let dep = deps[upto - 1];
        (
            earlier + before.slots_of(bodies, dep),
            before.with_slots(submissions(bodies, dep)),
        )
    }
}

/// One edge per slot that is waited for: the first `park_count` are parked on, the others owned.
pub open spec fn edges_to(ids: Seq<NodeId>, park_count: usize, idx: NodeId) -> Seq<Edge> {
    Seq::new(
        ids.len(),
        |i: int|
            Edge {
                from: ids[i],
                to: idx,
                kind: if i < park_count {
                    EdgeKind::Parked
                } else {
                    EdgeKind::Owned
                },
            },
    )
}

/// What has to be submitted for a watched piece of work. A block is entered with the expression as
/// its only statement.
pub open spec fn watched_submissions(dep: WatchedDep) -> Seq<Submitted> {
    match dep {
        WatchedDep::Existing(_) => Seq::empty(),
        WatchedDep::Dispatch { expr, placement, binder_covered } => seq![
            match placement {
                DepPlacement::OwnScope => Submitted::Here { expr, binder_covered },
                DepPlacement::ActiveFrame => Submitted::InFrame { expr, binder_covered },
                DepPlacement::InScope(scope) => Submitted::Statement {
                    expr,
                    block: StatementBlock::Scope(scope),
                    index: 0,
                },
            },
        ],
    }
}

/// The slot that a watched piece of work comes to.
pub open spec fn watched_slot(graph: SchedulerView, dep: WatchedDep) -> NodeId {
    match dep {
        WatchedDep::Existing(node) => node,
        WatchedDep::Dispatch { .. } => NodeId { at: graph.submitted.len() as usize },
    }
}

/// The frame that a placement names, and the graph with the frame that it opens.
pub open spec fn placed(graph: SchedulerView, placement: FramePlacement) -> (
    Option<FrameId>,
    SchedulerView,
) {
    match placement {
        FramePlacement::FreshTail { outer } => (
            Some(FrameId { at: graph.frames.len() as usize }),
            SchedulerView { frames: graph.frames.push(outer), ..graph },
        ),
        FramePlacement::FreshChild { frame } => (Some(frame), graph),
        FramePlacement::Inherit => (None, graph),
    }
}

/// A slot that waits for `deps` in the frame, block and position it has.
pub open spec fn waiting(
    deps: Seq<NodeId>,
    park_count: usize,
    run: RunView,
    carrier: Option<ExprId>,
) -> StepView {
    StepView::Replace {
        deps,
        park_count,
        run,
        carrier,
        frame: None,
        obligation: None,
        block_entry: BlockEntry::Stay,
        body_index: 0,
    }
}

/// The frame of an error that a combining slot passes on.
pub open spec fn combine_frame() -> TraceFrame {
    TraceFrame { label: FrameLabel::Combine, expr: None }
}

/// The frame of an error that a combining slot passes on.
fn combine_error_frame() -> (r: TraceFrame)
    ensures
        r == combine_frame(),
{
    TraceFrame { label: FrameLabel::Combine, expr: None }
}

/// What a continuation over the slots `ids` comes to.
pub open spec fn installed(
    graph: SchedulerView,
    ids: Seq<NodeId>,
    park_count: usize,
    continuation: ContinuationView,
    error_frame: Option<TraceFrame>,
    idx: NodeId,
) -> (StepView, SchedulerView) {
    match continuation {
        ContinuationView::Finish(finish) => (
            waiting(ids, park_count, RunView::Finish { error_frame, finish }, None),
            graph,
        ),
        ContinuationView::Combine(finish) => (
            waiting(
                ids,
                park_count,
                RunView::Combine { error_frame: Some(combine_frame()), combine: finish },
                None,
            ),
            graph,
        ),
        ContinuationView::Catch { watched, finish } => {
            let from = watched_slot(graph, watched);
            (
                waiting(seq![from], 0, RunView::Caught(finish), None),
                SchedulerView {
                    edges: graph.edges.push(Edge { from, to: idx, kind: EdgeKind::Owned }),
                    ..graph.with_slots(watched_submissions(watched))
                },
            )
        },
        ContinuationView::Resume { carrier, resume } => (
            waiting(ids, park_count, RunView::Resume(resume), carrier),
            graph,
        ),
    }
}

/// What an outcome of the slot `idx` comes to.
pub open spec fn outcome_applied(
    bodies: &Bodies,
    graph: SchedulerView,
    outcome: OutcomeView,
    idx: NodeId,
) -> (StepView, SchedulerView) {
    match outcome {
        OutcomeView::Done(result) => (StepView::Done(result), graph),
        OutcomeView::Continue { work, obligation, frame, block_entry, body_index, free } => {
            let (own, after) = placed(
                SchedulerView { freed: graph.freed + free, ..graph },
                frame,
            );
            (
                StepView::Replace {
                    deps: Seq::empty(),
                    park_count: 0,
                    run: RunView::Now(work),
                    carrier: None,
                    frame: own,
                    obligation,
                    block_entry,
                    body_index,
                },
                after,
            )
        },
        OutcomeView::ParkThenContinue { deps, park_count, continuation, error_frame, free } => {
            let (ids, after) = realized(
                bodies,
                SchedulerView { freed: graph.freed + free, ..graph },
                deps,
                deps.len(),
            );
            installed(
                SchedulerView { edges: after.edges + edges_to(ids, park_count, idx), ..after },
                ids,
                park_count,
                continuation,
                error_frame,
                idx,
            )
        },
        OutcomeView::Forward(node) => (
            match graph.result_of(node) {
                Some(result) => StepView::Done(result),
                None => StepView::Alias(node),
            },
            graph,
        ),
    }
}

impl Scheduler {
    /// Gives slots back, in order.
    pub fn drain_free(&mut self, free: &Vec<NodeId>)
        ensures
            final(self)@ == (SchedulerView { freed: old(self)@.freed + free@, ..old(self)@ }),
    {
        let ghost before = self@;
        let mut i: usize = 0;
        proof {
            assert(before.freed + free@.take(0) =~= before.freed);
        }
        while i < free.len()
            invariant
                i <= free.len(),
                self@ == (SchedulerView { freed: before.freed + free@.take(i as int), ..before }),
            decreases free.len() - i,
        {
            self.freed.push(free[i]);
            proof {
                assert(before.freed + free@.take(i as int + 1) =~= (before.freed + free@.take(
                    i as int,
                )).push(free@[i as int]));
            }
            i = i + 1;
        }
        proof {
            assert(free@.take(i as int) =~= free@);
        }
    }

    /// Submits one slot.
    pub fn submit(&mut self, work: Submitted) -> (r: NodeId)
        ensures
            r == (NodeId { at: old(self)@.submitted.len() as usize }),
            final(self)@ == old(self)@.with_slots(seq![work]),
    {
        let ghost before = self@;
        let at: usize = self.submitted.len();
        self.submitted.push(work);
        assert(self@.submitted =~= before.submitted + seq![work]);
        assert(self@ =~= before.with_slots(seq![work]));
        NodeId { at }
    }

    /// Submits the statements of a block, in order, and adds their slots behind `ids`.
    fn submit_block(&mut self, statements: &Vec<ExprId>, block: StatementBlock, ids: &mut Vec<NodeId>)
        ensures
            final(self)@ == old(self)@.with_slots(block_submissions(statements@, block)),
            final(ids)@ == old(ids)@ + slots_from(old(self)@.submitted.len(), statements@.len()),
    {
        let ghost before = self@;
        let ghost first = ids@;
        let ghost all = block_submissions(statements@, block);
        let ghost slots = slots_from(before.submitted.len(), statements@.len());
        let mut i: usize = 0;
        proof {
            assert(before.submitted + all.take(0) =~= before.submitted);
            assert(first + slots.take(0) =~= first);
        }
        while i < statements.len()
            invariant
                i <= statements.len(),
                all == block_submissions(statements@, block),
                slots == slots_from(before.submitted.len(), statements@.len()),
                self@ == before.with_slots(all.take(i as int)),
                ids@ == first + slots.take(i as int),
            decreases statements.len() - i,
        {
            let own = Submitted::Statement { expr: statements[i], block, index: i };
            let node = self.submit(own);
            ids.push(node);
            proof {
                assert(before.submitted + all.take(i as int + 1) =~= (before.submitted + all.take(
                    i as int,
                )) + seq![own]);
                assert(first + slots.take(i as int + 1) =~= (first + slots.take(i as int)).push(
                    node,
                ));
            }
            i = i + 1;
        }
        proof {
            assert(all.take(i as int) =~= all);
            assert(slots.take(i as int) =~= slots);
        }
    }

    /// Submits what a dependency needs and adds the slots it comes to behind `ids`.
    fn realize_dep(&mut self, bodies: &Bodies, dep: &DispatchDep, ids: &mut Vec<NodeId>)
        ensures
            final(self)@ == old(self)@.with_slots(submissions(bodies, dep@)),
            final(ids)@ == old(ids)@ + old(self)@.slots_of(bodies, dep@),
    {
        let ghost before = self@;
        let ghost first = ids@;
        let single = match dep {
            DispatchDep::Dispatch { expr, placement, binder_covered } => match placement {
                DepPlacement::OwnScope => Submitted::Here {
                    expr: *expr,
                    binder_covered: *binder_covered,
                },
                DepPlacement::ActiveFrame => Submitted::InFrame {
                    expr: *expr,
                    binder_covered: *binder_covered,
                },
                DepPlacement::InScope(scope) => {
                    let statements = bodies.split_body_statements(*expr);
                    self.submit_block(&statements, StatementBlock::Scope(*scope), ids);
                    return ;
                },
            },
            DispatchDep::ListLit(items) => Submitted::ListLit(*items),
            DispatchDep::DictLit(pairs) => Submitted::DictLit(*pairs),
            DispatchDep::RecordLit(fields) => Submitted::RecordLit(*fields),
            DispatchDep::BodyBlock { frame, statements } => {
                self.submit_block(statements, StatementBlock::Frame(*frame), ids);
                return ;
            },
            DispatchDep::Existing(node) => {
                ids.push(*node);
                proof {
                    assert(self@ =~= before.with_slots(Seq::empty()));
                    assert(ids@ =~= first + seq![*node]);
                }
                return ;
            },
        };
        let node = self.submit(single);
        ids.push(node);
        proof {
            assert(slots_from(before.submitted.len(), 1) =~= seq![node]);
            assert(ids@ =~= first + slots_from(before.submitted.len(), 1));
        }
    }

    /// Submits what a watched piece of work needs.
    pub fn realize_catch_dep(&mut self, dep: WatchedDep) -> (r: NodeId)
        ensures
            r == watched_slot(old(self)@, dep),
            final(self)@ == old(self)@.with_slots(watched_submissions(dep)),
    {
        let ghost before = self@;
        match dep {
            WatchedDep::Existing(node) => {
                assert(self@ =~= before.with_slots(Seq::empty()));
                node
            },
            WatchedDep::Dispatch { expr, placement, binder_covered } => match placement {
                DepPlacement::OwnScope => self.submit(Submitted::Here { expr, binder_covered }),
                DepPlacement::ActiveFrame => self.submit(
                    Submitted::InFrame { expr, binder_covered },
                ),
                DepPlacement::InScope(scope) => self.submit(
                    Submitted::Statement {
                        expr,
                        block: StatementBlock::Scope(scope),
                        index: 0,
                    },
                ),
            },
        }
    }

    /// The frame that a placement names; a fresh one is opened.
    pub fn resolve_frame_placement(&mut self, placement: FramePlacement) -> (r: Option<FrameId>)
        ensures
            (r, final(self)@) == placed(old(self)@, placement),
    {
        match placement {
            FramePlacement::FreshTail { outer } => {
                let at: usize = self.frames.len();
                self.frames.push(outer);
                Some(FrameId { at })
            },
            FramePlacement::FreshChild { frame } => Some(frame),
            FramePlacement::Inherit => None,
        }
    }

    /// Makes the slot `idx` wait for every one of `ids`.
    fn add_edges(&mut self, ids: &Vec<NodeId>, park_count: usize, idx: NodeId)
        ensures
            final(self)@ == (SchedulerView {
                edges: old(self)@.edges + edges_to(ids@, park_count, idx),
                ..old(self)@
            }),
    {
        let ghost before = self@;
        let ghost all = edges_to(ids@, park_count, idx);
        let mut i: usize = 0;
        proof {
            assert(before.edges + all.take(0) =~= before.edges);
        }
        while i < ids.len()
            invariant
                i <= ids.len(),
                all == edges_to(ids@, park_count, idx),
                self@ == (SchedulerView { edges: before.edges + all.take(i as int), ..before }),
            decreases ids.len() - i,
        {
            let kind = if i < park_count {
                EdgeKind::Parked
            } else {
                EdgeKind::Owned
            };
            self.edges.push(Edge { from: ids[i], to: idx, kind });
            proof {
                assert(before.edges + all.take(i as int + 1) =~= (before.edges + all.take(
                    i as int,
                )).push(all[i as int]));
            }
            i = i + 1;
        }
        proof {
            assert(all.take(i as int) =~= all);
        }
    }

    /// Submits everything that `deps` need, in order.
    fn realize_all(&mut self, bodies: &Bodies, deps: &Vec<DispatchDep>) -> (r: Vec<NodeId>)
        ensures
            (r@, final(self)@) == realized(
                bodies,
                old(self)@,
                dep_views(deps@),
                deps@.len(),
            ),
    {
        let ghost before = self@;
        let mut ids: Vec<NodeId> = Vec::new();
        let mut i: usize = 0;
        proof {
            assert(ids@ =~= Seq::<NodeId>::empty());
        }
        while i < deps.len()
            invariant
                i <= deps.len(),
                (ids@, self@) == realized(bodies, before, dep_views(deps@), i as nat),
            decreases deps.len() - i,
        {
            assert(dep_views(deps@)[i as int] == deps@[i as int]@);
            self.realize_dep(bodies, &deps[i], &mut ids);
            i = i + 1;
        }
        ids
    }

    /// Turns an outcome of the slot `idx` into the writes it names, and says what becomes of the
    /// slot.
    pub fn apply_outcome(&mut self, bodies: &Bodies, outcome: Outcome, idx: NodeId) -> (r: NodeStep)
        ensures
            (r@, final(self)@) == outcome_applied(bodies, old(self)@, outcome@, idx),
    {
        match outcome {
            Outcome::Done(result) => NodeStep::Done(result),
            Outcome::Continue { work, obligation, frame, block_entry, body_index, free } => {
                self.drain_free(&free);
                let frame = self.resolve_frame_placement(frame);
                let deps: Vec<NodeId> = Vec::new();
                assert(deps@ =~= Seq::<NodeId>::empty());
                NodeStep::Replace {
                    deps,
                    park_count: 0,
                    run: SlotRun::Now(work),
                    carrier: None,
                    frame,
                    obligation,
                    block_entry,
                    body_index,
                }
            },
            Outcome::ParkThenContinue { deps, park_count, continuation, error_frame, free } => {
                self.drain_free(&free);
                let ids = self.realize_all(bodies, &deps);
                self.add_edges(&ids, park_count, idx);
                let (deps, park_count, run, carrier) = match continuation {
                    Continuation::Finish(finish) => (
                        ids,
                        park_count,
                        SlotRun::Finish { error_frame, finish },
                        None,
                    ),
                    Continuation::Combine(finish) => (
                        ids,
                        park_count,
                        SlotRun::Combine { error_frame: Some(combine_error_frame()), combine: finish },
                        None,
                    ),
                    Continuation::Catch { watched, finish } => {
                        let from = self.realize_catch_dep(watched);
                        self.edges.push(Edge { from, to: idx, kind: EdgeKind::Owned });
                        let mut sole: Vec<NodeId> = Vec::new();
                        sole.push(from);
                        assert(sole@ =~= seq![from]);
                        let none: usize = 0;
                        (sole, none, SlotRun::Caught(finish), None)
                    },
                    Continuation::Resume { carrier, resume } => (
                        ids,
                        park_count,
                        SlotRun::Resume(resume),
                        carrier,
                    ),
                };
                NodeStep::Replace {
                    deps,
                    park_count,
                    run,
                    carrier,
                    frame: None,
                    obligation: None,
                    block_entry: BlockEntry::Stay,
                    body_index: 0,
                }
            },
            Outcome::Forward(node) => {
                if node.at < self.results.len() {
                    assert(self@.results[node.at as int] == slot_result(
                        self.results@[node.at as int],
                    ));
                    match &self.results[node.at] {
                        Some(Ok(carried)) => NodeStep::Done(Ok(*carried)),
                        Some(Err(e)) => NodeStep::Done(Err(e.clone_for_propagation())),
                        None => NodeStep::Alias(node),
                    }
                } else {
                    NodeStep::Alias(node)
                }
            },
        }
    }
}

/// Realizing dependencies only ever adds slots: what is in the graph stays as it is.
pub proof fn realizing_adds_slots(
    bodies: &Bodies,
    graph: SchedulerView,
    deps: Seq<DepView>,
    upto: nat,
)
    requires
        upto <= deps.len(),
    ensures
        ({
            let (ids, after) = realized(bodies, graph, deps, upto);
            &&& graph.submitted.is_prefix_of(after.submitted)
            &&& after.edges == graph.edges
            &&& after.results == graph.results
            &&& after.freed == graph.freed
            &&& after.frames == graph.frames
        }),
    decreases upto,
{
    if upto > 0 {
        realizing_adds_slots(bodies, graph, deps, (upto - 1) as nat);
    }
}

/// A dependency that is no body comes to one slot, so results line up with the dependencies one
/// to one.
pub proof fn single_dependencies_line_up(
    bodies: &Bodies,
    graph: SchedulerView,
    deps: Seq<DepView>,
    upto: nat,
)
    requires
        upto <= deps.len(),
        forall|i: int|
            0 <= i < deps.len() ==> !(#[trigger] deps[i] is BodyBlock) && !(
            deps[i] matches DepView::Dispatch { placement: DepPlacement::InScope(_), .. }),
    ensures
        realized(bodies, graph, deps, upto).0.len() == upto,
    decreases upto,
{
    if upto > 0 {
        single_dependencies_line_up(bodies, graph, deps, (upto - 1) as nat);
        assert(!(deps[upto - 1] is BodyBlock));
    }
}

/// Every slot that is waited for gets one edge, and the edges keep the order of the slots: those
/// parked on come before those owned.
pub proof fn parked_edges_come_first(ids: Seq<NodeId>, park_count: usize, idx: NodeId, i: int)
    requires
        0 <= i < ids.len(),
    ensures
        edges_to(ids, park_count, idx).len() == ids.len(),
        edges_to(ids, park_count, idx)[i].from == ids[i],
        edges_to(ids, park_count, idx)[i].to == idx,
        edges_to(ids, park_count, idx)[i].kind is Parked <==> i < park_count,
{
}

} // verus!
