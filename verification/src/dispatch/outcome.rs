//! What a decision asks of the scheduler, with everything that it waits for listed in one run:
//! first what it only waits for, then what it owns.

use crate::ast::{DictId, ListId, RecordId, Span, Spanned};
use crate::error::{ErrorView, KError, TraceFrame};
use crate::outcome::{
    result_view, BlockEntry, DepPlacement, DepRequest, FinishId, FrameId, FramePlacement,
    Obligation,
};
use crate::scope::FoldDirection;
use crate::symbol::Symbol;
use crate::value::{Carried, ExprId, FnId, NodeId, ProducerId};
use vstd::prelude::*;

verus! {

/// Something that a slot waits for.
pub enum DispatchDep {
    /// `binder_covered` lets the expression declare what the statement around it has claimed.
    Dispatch { expr: ExprId, placement: DepPlacement, binder_covered: bool },
    ListLit(ListId),
    DictLit(DictId),
    RecordLit(RecordId),
    /// The statements of a body, in the frame of its call.
    BodyBlock { frame: FrameId, statements: Vec<ExprId> },
    /// A slot that is there already.
    Existing(NodeId),
}

/// The content of a [`DispatchDep`].
pub enum DepView {
    Dispatch { expr: ExprId, placement: DepPlacement, binder_covered: bool },
    ListLit(ListId),
    DictLit(DictId),
    RecordLit(RecordId),
    BodyBlock { frame: FrameId, statements: Seq<ExprId> },
    Existing(NodeId),
}

impl View for DispatchDep {
    type V = DepView;

    open spec fn view(&self) -> DepView {
        match *self {
            DispatchDep::Dispatch { expr, placement, binder_covered } => DepView::Dispatch {
                expr,
                placement,
                binder_covered,
            },
            DispatchDep::ListLit(items) => DepView::ListLit(items),
            DispatchDep::DictLit(pairs) => DepView::DictLit(pairs),
            DispatchDep::RecordLit(fields) => DepView::RecordLit(fields),
            DispatchDep::BodyBlock { frame, statements } => DepView::BodyBlock {
                frame,
                statements: statements@,
            },
            DispatchDep::Existing(node) => DepView::Existing(node),
        }
    }
}

/// One piece of work whose result is taken whether it failed or not.
#[derive(Clone, Copy, PartialEq, Eq, Structural, Debug)]
pub enum WatchedDep {
    Dispatch { expr: ExprId, placement: DepPlacement, binder_covered: bool },
    Existing(NodeId),
}

/// The content of a run of dependencies.
pub open spec fn dep_views(deps: Seq<DispatchDep>) -> Seq<DepView> {
    deps.map_values(|dep: DispatchDep| dep@)
}

/// The slot of a binder.
pub open spec fn slot_of(producer: ProducerId) -> NodeId {
    NodeId { at: producer.edge }
}

/// The slot of a binder.
pub fn producer_slot(producer: ProducerId) -> (r: NodeId)
    ensures
        r == slot_of(producer),
{
    NodeId { at: producer.edge }
}

/// What a slot does on its next turn, without waiting for anything.
#[derive(Clone, Copy, PartialEq, Eq, Structural, Debug)]
pub enum Work {
    /// Classify and route the expression.
    Dispatch(ExprId),
    /// Resolve an expression whose parts are evaluated.
    Resolve(ExprId),
    /// Run a resolved call.
    Invoke { function: FnId, expr: ExprId },
    /// Resolve a type name.
    TypeLeaf(Symbol),
}

/// What folds the pairs of a chain.
#[derive(Clone, Copy, PartialEq, Eq, Structural, Debug)]
pub enum Combiner {
    /// An operator, called infix.
    Keyword(Symbol),
    /// A function, called with its two arguments by name.
    Name(Symbol),
}

/// A decision that is made again once the producers it parked on have landed.
#[derive(Clone, Copy, PartialEq, Eq, Structural, Debug)]
pub enum Resume {
    /// On an expression as it stands.
    Initial(ExprId),
    /// On an expression whose parts are evaluated.
    Finish(ExprId),
    TypeLeaf(Symbol),
    TypeCall(ExprId),
}

/// What runs once every dependency has landed.
pub enum Finish {
    /// Splice the results into the holes of `expr`, then invoke `picked` or resolve again.
    EagerSubs { expr: ExprId, part_indices: Vec<usize>, picked: Option<FnId> },
    /// Pair neighbouring results and fold the pairs.
    Pairwise {
        operators: Vec<Spanned>,
        spans: Vec<Option<Span>>,
        combiner: Combiner,
        direction: FoldDirection,
        chain: ExprId,
    },
    /// Continue as the table of whoever runs the slot says.
    Own(FinishId),
}

/// The content of a [`Finish`].
pub enum FinishView {
    EagerSubs { expr: ExprId, part_indices: Seq<usize>, picked: Option<FnId> },
    Pairwise {
        operators: Seq<Spanned>,
        spans: Seq<Option<Span>>,
        combiner: Combiner,
        direction: FoldDirection,
        chain: ExprId,
    },
    Own(FinishId),
}

impl View for Finish {
    type V = FinishView;

    open spec fn view(&self) -> FinishView {
        match *self {
            Finish::EagerSubs { expr, part_indices, picked } => FinishView::EagerSubs {
                expr,
                part_indices: part_indices@,
                picked,
            },
            Finish::Pairwise { operators, spans, combiner, direction, chain } =>
                FinishView::Pairwise {
                operators: operators@,
                spans: spans@,
                combiner,
                direction,
                chain,
            },
            Finish::Own(finish) => FinishView::Own(finish),
        }
    }
}

/// What runs when a parked slot wakes.
pub enum Continuation {
    Finish(Finish),
    /// Combine the results of a builtin's dependencies.
    Combine(FinishId),
    /// Wait on one piece of work and run the builtin's continuation on its result, error or not.
    Catch { watched: WatchedDep, finish: FinishId },
    /// Decide again; `carrier` is the expression that a deadlock names.
    Resume { carrier: Option<ExprId>, resume: Resume },
}

/// The content of a [`Continuation`].
pub enum ContinuationView {
    Finish(FinishView),
    Combine(FinishId),
    Catch { watched: WatchedDep, finish: FinishId },
    Resume { carrier: Option<ExprId>, resume: Resume },
}

impl View for Continuation {
    type V = ContinuationView;

    open spec fn view(&self) -> ContinuationView {
        match *self {
            Continuation::Finish(finish) => ContinuationView::Finish(finish@),
            Continuation::Combine(finish) => ContinuationView::Combine(finish),
            Continuation::Catch { watched, finish } => ContinuationView::Catch { watched, finish },
            Continuation::Resume { carrier, resume } => ContinuationView::Resume {
                carrier,
                resume,
            },
        }
    }
}

/// What a decision asks of the scheduler.
pub enum Outcome {
    /// The slot is finished.
    Done(Result<Carried, KError>),
    /// The slot goes on with `work`. The slots of `free` are not needed any more.
    Continue {
        work: Work,
        obligation: Option<Obligation>,
        frame: FramePlacement,
        block_entry: BlockEntry,
        body_index: usize,
        free: Vec<NodeId>,
    },
    /// The slot waits for `deps`: it parks on the first `park_count` slots they come to and owns
    /// the others.
    ParkThenContinue {
        deps: Vec<DispatchDep>,
        park_count: usize,
        continuation: Continuation,
        error_frame: Option<TraceFrame>,
        free: Vec<NodeId>,
    },
    /// The slot's result is that of another slot.
    Forward(NodeId),
}

/// The content of an [`Outcome`].
pub enum OutcomeView {
    Done(Result<Carried, ErrorView>),
    Continue {
        work: Work,
        obligation: Option<Obligation>,
        frame: FramePlacement,
        block_entry: BlockEntry,
        body_index: usize,
        free: Seq<NodeId>,
    },
    ParkThenContinue {
        deps: Seq<DepView>,
        park_count: usize,
        continuation: ContinuationView,
        error_frame: Option<TraceFrame>,
        free: Seq<NodeId>,
    },
    Forward(NodeId),
}

impl View for Outcome {
    type V = OutcomeView;

    open spec fn view(&self) -> OutcomeView {
        match *self {
            Outcome::Done(result) => OutcomeView::Done(result_view(result)),
            Outcome::Continue { work, obligation, frame, block_entry, body_index, free } =>
                OutcomeView::Continue {
                work,
                obligation,
                frame,
                block_entry,
                body_index,
                free: free@,
            },
            Outcome::ParkThenContinue { deps, park_count, continuation, error_frame, free } =>
                OutcomeView::ParkThenContinue {
                deps: dep_views(deps@),
                park_count,
                continuation: continuation@,
                error_frame,
                free: free@,
            },
            Outcome::Forward(node) => OutcomeView::Forward(node),
        }
    }
}

/// A failed slot.
pub open spec fn failed(error: ErrorView) -> OutcomeView {
    OutcomeView::Done(Err(error))
}

/// Fails the slot.
pub fn fail(error: KError) -> (r: Outcome)
    ensures
        r@ == failed(error@),
{
    Outcome::Done(Err(error))
}

/// The binders of a run as dependencies, in order.
pub open spec fn parked_deps(sources: Seq<ProducerId>) -> Seq<DepView> {
    sources.map_values(|source: ProducerId| DepView::Existing(slot_of(source)))
}

/// The slot parks on `sources` and then makes its decision again.
pub open spec fn parked(
    sources: Seq<ProducerId>,
    carrier: Option<ExprId>,
    resume: Resume,
) -> OutcomeView {
    OutcomeView::ParkThenContinue {
        deps: parked_deps(sources),
        park_count: sources.len() as usize,
        continuation: ContinuationView::Resume { carrier, resume },
        error_frame: None,
        free: Seq::empty(),
    }
}

/// Parks on `sources`; on wake the decision is made again.
pub fn park_resume(sources: &Vec<ProducerId>, carrier: Option<ExprId>, resume: Resume) -> (r: Outcome)
    ensures
        r@ == parked(sources@, carrier, resume),
{
    let mut deps: Vec<DispatchDep> = Vec::new();
    let mut i: usize = 0;
    while i < sources.len()
        invariant
            i <= sources.len(),
            dep_views(deps@) == parked_deps(sources@).take(i as int),
        decreases sources.len() - i,
    {
        let ghost before = dep_views(deps@);
        let own = producer_slot(sources[i]);
        deps.push(DispatchDep::Existing(own));
        proof {
            assert(dep_views(deps@) =~= before.push(DepView::Existing(own)));
            assert(parked_deps(sources@).take(i as int + 1) =~= parked_deps(sources@).take(
                i as int,
            ).push(DepView::Existing(own)));
        }
        i = i + 1;
    }
    assert(parked_deps(sources@).take(i as int) =~= parked_deps(sources@));
    let free: Vec<NodeId> = Vec::new();
    assert(free@ =~= Seq::<NodeId>::empty());
    Outcome::ParkThenContinue {
        deps,
        park_count: sources.len(),
        continuation: Continuation::Resume { carrier, resume },
        error_frame: None,
        free,
    }
}

/// The slot goes on with `work` in the given frame, in the block and at the position it has.
pub open spec fn continued(
    work: Work,
    obligation: Option<Obligation>,
    frame: FramePlacement,
) -> OutcomeView {
    OutcomeView::Continue {
        work,
        obligation,
        frame,
        block_entry: BlockEntry::Stay,
        body_index: 0,
        free: Seq::empty(),
    }
}

/// Goes on with `work` in the given frame.
pub fn go_on(work: Work, obligation: Option<Obligation>, frame: FramePlacement) -> (r: Outcome)
    ensures
        r@ == continued(work, obligation, frame),
{
    let free: Vec<NodeId> = Vec::new();
    assert(free@ =~= Seq::<NodeId>::empty());
    Outcome::Continue {
        work,
        obligation,
        frame,
        block_entry: BlockEntry::Stay,
        body_index: 0,
        free,
    }
}

/// A staged piece of work as a dependency.
pub open spec fn dep_of(request: DepRequest, binder_covered: bool) -> DepView {
    match request {
        DepRequest::Dispatch { expr, placement } => DepView::Dispatch {
            expr,
            placement,
            binder_covered,
        },
        DepRequest::ListLit(items) => DepView::ListLit(items),
        DepRequest::DictLit(pairs) => DepView::DictLit(pairs),
        DepRequest::RecordLit(fields) => DepView::RecordLit(fields),
    }
}

/// A staged piece of work as a dependency.
pub fn request_dep(request: DepRequest, binder_covered: bool) -> (r: DispatchDep)
    ensures
        r@ == dep_of(request, binder_covered),
{
    match request {
        DepRequest::Dispatch { expr, placement } => DispatchDep::Dispatch {
            expr,
            placement,
            binder_covered,
        },
        DepRequest::ListLit(items) => DispatchDep::ListLit(items),
        DepRequest::DictLit(pairs) => DispatchDep::DictLit(pairs),
        DepRequest::RecordLit(fields) => DispatchDep::RecordLit(fields),
    }
}

} // verus!
