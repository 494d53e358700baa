//! What a decision asks of the scheduler.
//!
//! A decision never touches the scheduler: it returns an [`Outcome`], plain data that says what the
//! slot is to do next. Whatever has to run once dependencies have landed is named by a
//! [`Continuation`], which holds everything the later step needs.

use crate::ast::{DictId, ListId, RecordId, Span, Spanned};
use crate::error::{ErrorView, FrameLabel, KError, TraceFrame};
use crate::ktype::{Field, KType, ScopeId};
use crate::scope::FoldDirection;
use crate::symbol::Symbol;
use crate::value::{Carried, ExprId, FnId, ProducerId};
use vstd::prelude::*;

verus! {

/// A call frame.
#[derive(Clone, Copy, PartialEq, Eq, Structural, Debug)]
pub struct FrameId {
    pub at: usize,
}

/// A builtin's own continuation, by its place in the table of whoever runs builtins.
#[derive(Clone, Copy, PartialEq, Eq, Structural, Debug)]
pub struct FinishId {
    pub at: usize,
}

/// Where a sub-dispatch runs.
#[derive(Clone, Copy, PartialEq, Eq, Structural, Debug)]
pub enum DepPlacement {
    /// In the scope of the slot that asks for it.
    OwnScope,
    /// In the scope of the active call frame.
    ActiveFrame,
    /// As a block of its own in the given scope.
    InScope(ScopeId),
}

/// Work that a slot asks for and then waits on.
#[derive(Clone, Copy, PartialEq, Eq, Structural, Debug)]
pub enum DepRequest {
    Dispatch { expr: ExprId, placement: DepPlacement },
    ListLit(ListId),
    DictLit(DictId),
    RecordLit(RecordId),
}

/// One dependency of a slot: a producer that already exists, or work that has to be submitted.
#[derive(Clone, Copy, PartialEq, Eq, Structural, Debug)]
pub enum Dep {
    Producer(ProducerId),
    Request(DepRequest),
}

/// Where the statements of a block bind.
#[derive(Clone, Copy, PartialEq, Eq, Structural, Debug)]
pub enum BodyPlacement {
    Frame(FrameId),
    Overlay(ScopeId),
}

/// A block of statements that a slot waits on.
pub enum BlockRequest {
    Body { statements: Vec<ExprId>, placement: BodyPlacement },
    Scope { expr: ExprId, scope: ScopeId },
}

/// The content of a [`BlockRequest`].
pub enum BlockView {
    Body { statements: Seq<ExprId>, placement: BodyPlacement },
    Scope { expr: ExprId, scope: ScopeId },
}

impl View for BlockRequest {
    type V = BlockView;

    open spec fn view(&self) -> BlockView {
        match *self {
            BlockRequest::Body { statements, placement } => BlockView::Body {
                statements: statements@,
                placement,
            },
            BlockRequest::Scope { expr, scope } => BlockView::Scope { expr, scope },
        }
    }
}

/// What a slot waits on.
pub enum ParkDeps {
    List(Vec<Dep>),
    Block(BlockRequest),
}

/// The content of a [`ParkDeps`].
pub enum ParkDepsView {
    List(Seq<Dep>),
    Block(BlockView),
}

impl View for ParkDeps {
    type V = ParkDepsView;

    open spec fn view(&self) -> ParkDepsView {
        match *self {
            ParkDeps::List(deps) => ParkDepsView::List(deps@),
            ParkDeps::Block(block) => ParkDepsView::Block(block@),
        }
    }
}

/// Which call frame a continuing slot runs in.
#[derive(Clone, Copy, PartialEq, Eq, Structural, Debug)]
pub enum FramePlacement {
    /// The frame it already has.
    Inherit,
    /// A new frame under the scope that the callable was defined in.
    FreshTail { outer: ScopeId },
    /// The given new frame.
    FreshChild { frame: FrameId },
}

/// Which block a continuing slot enters.
#[derive(Clone, Copy, PartialEq, Eq, Structural, Debug)]
pub enum BlockEntry {
    /// It stays in the block it is in.
    Stay,
    /// The scope of a call frame.
    FrameScope(FrameId),
    /// An overlay over the current scope.
    Overlay(ScopeId),
}

/// What happens to a continuing slot's lexical position.
#[derive(Clone, Copy, PartialEq, Eq, Structural, Debug)]
pub enum ChainOp {
    Unchanged,
    /// It moves to the given position of the block that it enters.
    EnterBlock { index: usize },
}

/// The declared return that a result is checked against.
#[derive(Clone, Copy, PartialEq, Eq, Structural, Debug)]
pub enum ReturnContract {
    /// The return type of the callable's signature.
    Function { func: FnId, site: ExprId },
    /// A return type that was computed for this call.
    PerCall { func: FnId, ret: KType, site: ExprId },
}

/// The declared return of a tail call.
#[derive(Clone, Copy, PartialEq, Eq, Structural, Debug)]
pub enum TailContract {
    Eager(Option<ReturnContract>),
    /// The last leading statement computes the return type.
    FromLastResult { func: FnId, site: ExprId },
}

/// A declared return that a chain of tail calls has taken on.
#[derive(Clone, Copy, PartialEq, Eq, Structural, Debug)]
pub struct Obligation {
    pub contract: ReturnContract,
}

/// What a slot does on its next turn, without waiting for anything.
pub enum Work {
    /// Classify and route the expression.
    Dispatch(ExprId),
    /// Resolve the expression against the overloads in scope.
    Keyworded(ExprId),
    /// Run a builtin over the expression's slots.
    Builtin { function: FnId, expr: ExprId },
    /// Run the statements of a user body in a frame that holds its parameters.
    Body { leading: Vec<ExprId>, tail: ExprId, contract: TailContract },
    /// Fail.
    Fail(KError),
}

/// The content of a [`Work`].
pub enum WorkView {
    Dispatch(ExprId),
    Keyworded(ExprId),
    Builtin { function: FnId, expr: ExprId },
    Body { leading: Seq<ExprId>, tail: ExprId, contract: TailContract },
    Fail(ErrorView),
}

impl View for Work {
    type V = WorkView;

    open spec fn view(&self) -> WorkView {
        match *self {
            Work::Dispatch(expr) => WorkView::Dispatch(expr),
            Work::Keyworded(expr) => WorkView::Keyworded(expr),
            Work::Builtin { function, expr } => WorkView::Builtin { function, expr },
            Work::Body { leading, tail, contract } => WorkView::Body {
                leading: leading@,
                tail,
                contract,
            },
            Work::Fail(error) => WorkView::Fail(error@),
        }
    }
}

/// A decision that is made again once the producers it parked on have landed.
#[derive(Clone, Copy, PartialEq, Eq, Structural, Debug)]
pub enum Resume {
    FunctionValue(ExprId),
    Keyworded(ExprId),
    OperatorChain(ExprId),
    TypeLeaf(Symbol),
    TypeCall(ExprId),
}

/// How a construction turns its resolved values into one.
pub enum CtorKind {
    /// A wrapper around one value.
    NewType { identity: KType },
    /// A wrapper around a record, one value per field.
    RecordNewType { identity: KType, field_names: Vec<Symbol> },
    /// One tagged variant out of `schema`.
    Tagged { schema: Vec<Field>, member: KType, tag: Symbol },
    /// An identity wrapper, whose sole type argument is the type of its value.
    ApplyConstructor { constructor: KType },
}

/// The content of a [`CtorKind`].
pub enum CtorView {
    NewType { identity: KType },
    RecordNewType { identity: KType, field_names: Seq<Symbol> },
    Tagged { schema: Seq<Field>, member: KType, tag: Symbol },
    ApplyConstructor { constructor: KType },
}

impl View for CtorKind {
    type V = CtorView;

    open spec fn view(&self) -> CtorView {
        match *self {
            CtorKind::NewType { identity } => CtorView::NewType { identity },
            CtorKind::RecordNewType { identity, field_names } => CtorView::RecordNewType {
                identity,
                field_names: field_names@,
            },
            CtorKind::Tagged { schema, member, tag } => CtorView::Tagged {
                schema: schema@,
                member,
                tag,
            },
            CtorKind::ApplyConstructor { constructor } => CtorView::ApplyConstructor { constructor },
        }
    }
}

/// What runs once every dependency has landed.
pub enum Finish {
    /// Splice the results into the holes of `expr`, then invoke `picked` or resolve again.
    EagerSubs { expr: ExprId, part_indices: Vec<usize>, picked: Option<FnId> },
    /// Pair neighbouring results and fold the pairs.
    Pairwise {
        operators: Vec<Spanned>,
        spans: Vec<Option<Span>>,
        combiner: Symbol,
        direction: FoldDirection,
        chain: ExprId,
    },
    /// Bind the parameters of a type constructor.
    NamedTypeArgs { identity: KType, params: Vec<Symbol>, names: Vec<Symbol> },
    /// Build a value of a nominal type.
    Construct(CtorKind),
    /// Apply what the head evaluated to.
    Head { expr: ExprId, type_only: bool },
    /// Hand the sole result on.
    Literal,
    /// Walk a list of typed fields again; its sub-dispatches begin at result `first_sub`.
    FieldList { fields: ExprId, first_sub: usize, error_frame: Option<TraceFrame> },
    /// Continue with the tail of a body whose leading statements have run.
    Tail {
        tail: ExprId,
        contract: TailContract,
        fresh_child: bool,
        placement: BodyPlacement,
        body_index: usize,
    },
    /// Run a builtin's own continuation.
    Await(FinishId),
}

/// The content of a [`Finish`].
pub enum FinishView {
    EagerSubs { expr: ExprId, part_indices: Seq<usize>, picked: Option<FnId> },
    Pairwise {
        operators: Seq<Spanned>,
        spans: Seq<Option<Span>>,
        combiner: Symbol,
        direction: FoldDirection,
        chain: ExprId,
    },
    NamedTypeArgs { identity: KType, params: Seq<Symbol>, names: Seq<Symbol> },
    Construct(CtorView),
    Head { expr: ExprId, type_only: bool },
    Literal,
    FieldList { fields: ExprId, first_sub: usize, error_frame: Option<TraceFrame> },
    Tail {
        tail: ExprId,
        contract: TailContract,
        fresh_child: bool,
        placement: BodyPlacement,
        body_index: usize,
    },
    Await(FinishId),
}

impl View for Finish {
    type V = FinishView;

    open spec fn view(&self) -> FinishView {
        match *self {
            Finish::EagerSubs { expr, part_indices, picked } => FinishView::EagerSubs {
                expr,
                part_indices: part_indices@,
                picked,
            },
            Finish::Pairwise { operators, spans, combiner, direction, chain } =>
                FinishView::Pairwise {
                operators: operators@,
                spans: spans@,
                combiner,
                direction,
                chain,
            },
            Finish::NamedTypeArgs { identity, params, names } => FinishView::NamedTypeArgs {
                identity,
                params: params@,
                names: names@,
            },
            Finish::Construct(kind) => FinishView::Construct(kind@),
            Finish::Head { expr, type_only } => FinishView::Head { expr, type_only },
            Finish::Literal => FinishView::Literal,
            Finish::FieldList { fields, first_sub, error_frame } => FinishView::FieldList {
                fields,
                first_sub,
                error_frame,
            },
            Finish::Tail { tail, contract, fresh_child, placement, body_index } =>
                FinishView::Tail { tail, contract, fresh_child, placement, body_index },
            Finish::Await(finish) => FinishView::Await(finish),
        }
    }
}

/// What runs when a parked slot wakes.
pub enum Continuation {
    Resume(Resume),
    Finish(Finish),
    /// Wait on one piece of work and run the builtin's continuation on its result, error or not.
    Catch { watched: DepRequest, finish: FinishId },
}

/// The content of a [`Continuation`].
pub enum ContinuationView {
    Resume(Resume),
    Finish(FinishView),
    Catch { watched: DepRequest, finish: FinishId },
}

impl View for Continuation {
    type V = ContinuationView;

    open spec fn view(&self) -> ContinuationView {
        match *self {
            Continuation::Resume(resume) => ContinuationView::Resume(resume),
            Continuation::Finish(finish) => ContinuationView::Finish(finish@),
            Continuation::Catch { watched, finish } => ContinuationView::Catch { watched, finish },
        }
    }
}

/// A call of a user-defined callable whose arguments are all delivered.
pub struct UserCall {
    pub function: FnId,
    /// One value per parameter, in declaration order.
    pub arguments: Vec<Carried>,
    /// The scope that the callable was defined in; the call's frame goes under it.
    pub outer: ScopeId,
    /// The declared return that the slot's tail chain has already taken on.
    pub obligation: Option<Obligation>,
    /// The call itself.
    pub expr: ExprId,
}

/// The content of a [`UserCall`].
#[verifier::ext_equal]
pub struct UserCallView {
    pub function: FnId,
    pub arguments: Seq<Carried>,
    pub outer: ScopeId,
    pub obligation: Option<Obligation>,
    pub expr: ExprId,
}

impl View for UserCall {
    type V = UserCallView;

    open spec fn view(&self) -> UserCallView {
        UserCallView {
            function: self.function,
            arguments: self.arguments@,
            outer: self.outer,
            obligation: self.obligation,
            expr: self.expr,
        }
    }
}

/// What a decision asks of the scheduler.
pub enum Outcome {
    /// The slot is finished.
    Done(Result<Carried, KError>),
    /// The slot goes on with `work`, under the declared return it has taken on.
    Continue {
        work: Work,
        obligation: Option<Obligation>,
        frame: FramePlacement,
        chain: ChainOp,
        block_entry: BlockEntry,
        label: ExprId,
    },
    /// The slot waits, then runs its continuation. An error of a dependency is passed on under
    /// `error_frame`.
    Park { deps: ParkDeps, continuation: Continuation, error_frame: Option<TraceFrame> },
    /// The slot's result is that of the producer.
    Forward(ProducerId),
    /// The arguments are bound in a new frame, and the callable says what its body runs.
    Enter(UserCall),
    /// The fields of a record type are walked.
    Elaborate { fields: ExprId },
}

/// The content of an [`Outcome`].
pub enum OutcomeView {
    Done(Result<Carried, ErrorView>),
    Continue {
        work: WorkView,
        obligation: Option<Obligation>,
        frame: FramePlacement,
        chain: ChainOp,
        block_entry: BlockEntry,
        label: ExprId,
    },
    Park { deps: ParkDepsView, continuation: ContinuationView, error_frame: Option<TraceFrame> },
    Forward(ProducerId),
    Enter(UserCallView),
    Elaborate { fields: ExprId },
}

/// The content of a result.
pub open spec fn result_view(result: Result<Carried, KError>) -> Result<Carried, ErrorView> {
    match result {
        Ok(carried) => Ok(carried),
        Err(error) => Err(error@),
    }
}

impl View for Outcome {
    type V = OutcomeView;

    open spec fn view(&self) -> OutcomeView {
        match *self {
            Outcome::Done(result) => OutcomeView::Done(result_view(result)),
            Outcome::Continue { work, obligation, frame, chain, block_entry, label } =>
                OutcomeView::Continue {
                work: work@,
                obligation,
                frame,
                chain,
                block_entry,
                label,
            },
            Outcome::Park { deps, continuation, error_frame } => OutcomeView::Park {
                deps: deps@,
                continuation: continuation@,
                error_frame,
            },
            Outcome::Forward(producer) => OutcomeView::Forward(producer),
            Outcome::Enter(call) => OutcomeView::Enter(call@),
            Outcome::Elaborate { fields } => OutcomeView::Elaborate { fields },
        }
    }
}

/// The frame that the combination of dependency results adds to an error.
pub open spec fn dep_frame() -> TraceFrame {
    TraceFrame { label: FrameLabel::DepFinish, expr: None }
}

/// The frame that the combination of dependency results adds to an error.
pub fn dep_error_frame() -> (r: TraceFrame)
    ensures
        r == dep_frame(),
{
    TraceFrame { label: FrameLabel::DepFinish, expr: None }
}

/// The frame that work on an expression adds to an error.
pub open spec fn expr_frame(label: FrameLabel, expr: ExprId) -> TraceFrame {
    TraceFrame { label, expr: Some(expr) }
}

/// The frame that work on an expression adds to an error.
pub fn working_frame(label: FrameLabel, expr: ExprId) -> (r: TraceFrame)
    ensures
        r == expr_frame(label, expr),
{
    TraceFrame { label, expr: Some(expr) }
}

/// Every producer as a dependency, in order.
pub open spec fn producer_deps(sources: Seq<ProducerId>) -> Seq<Dep> {
    sources.map_values(|source: ProducerId| Dep::Producer(source))
}

/// Every request as a dependency, in order.
pub open spec fn request_deps(requests: Seq<DepRequest>) -> Seq<Dep> {
    requests.map_values(|request: DepRequest| Dep::Request(request))
}

/// A sub-dispatch in the scope of the slot that asks for it.
pub open spec fn own_dispatch(expr: ExprId) -> DepRequest {
    DepRequest::Dispatch { expr, placement: DepPlacement::OwnScope }
}

/// The slot waits for `sources` and then makes its decision again.
pub open spec fn parked(
    sources: Seq<ProducerId>,
    error_frame: Option<TraceFrame>,
    resume: Resume,
) -> OutcomeView {
    OutcomeView::Park {
        deps: ParkDepsView::List(producer_deps(sources)),
        continuation: ContinuationView::Resume(resume),
        error_frame,
    }
}

/// The slot waits for `deps` and then runs `finish`.
pub open spec fn awaiting(
    deps: Seq<Dep>,
    error_frame: Option<TraceFrame>,
    finish: FinishView,
) -> OutcomeView {
    OutcomeView::Park {
        deps: ParkDepsView::List(deps),
        continuation: ContinuationView::Finish(finish),
        error_frame,
    }
}

/// The slot goes on in place: same frame, same block, same position.
pub open spec fn in_place(work: WorkView, obligation: Option<Obligation>, label: ExprId) -> OutcomeView {
    OutcomeView::Continue {
        work,
        obligation,
        frame: FramePlacement::Inherit,
        chain: ChainOp::Unchanged,
        block_entry: BlockEntry::Stay,
        label,
    }
}

/// The slot goes on with a fresh dispatch of `inner`, under the declared return it has taken on.
pub open spec fn becomes(inner: ExprId, obligation: Option<Obligation>) -> OutcomeView {
    in_place(WorkView::Dispatch(inner), obligation, inner)
}

/// A failed slot.
pub open spec fn failed(error: ErrorView) -> OutcomeView {
    OutcomeView::Done(Err(error))
}

/// A finished slot.
pub open spec fn finished(carried: Carried) -> OutcomeView {
    OutcomeView::Done(Ok(carried))
}

/// Parks on `sources`; on wake the decision is made again.
pub fn park_resume(sources: Vec<ProducerId>, resume: Resume) -> (r: Outcome)
    ensures
        r@ == parked(sources@, None, resume),
{
    park_resume_labelled(sources, None, resume)
}

/// Parks on `sources` under an error frame; on wake the decision is made again.
pub fn park_resume_labelled(
    sources: Vec<ProducerId>,
    error_frame: Option<TraceFrame>,
    resume: Resume,
) -> (r: Outcome)
    ensures
        r@ == parked(sources@, error_frame, resume),
{
    let mut deps: Vec<Dep> = Vec::new();
    let mut i: usize = 0;
    while i < sources.len()
        invariant
            i <= sources.len(),
            deps@ == producer_deps(sources@).take(i as int),
        decreases sources.len() - i,
    {
        deps.push(Dep::Producer(sources[i]));
        assert(producer_deps(sources@).take(i as int + 1) =~= producer_deps(sources@).take(
            i as int,
        ).push(Dep::Producer(sources@[i as int])));
        i = i + 1;
    }
    assert(producer_deps(sources@).take(i as int) =~= producer_deps(sources@));
    Outcome::Park {
        deps: ParkDeps::List(deps),
        continuation: Continuation::Resume(resume),
        error_frame,
    }
}

/// Waits for work that has to be submitted, in order, and then runs `finish`.
pub fn await_requests(
    requests: Vec<DepRequest>,
    error_frame: Option<TraceFrame>,
    finish: Finish,
) -> (r: Outcome)
    ensures
        r@ == awaiting(request_deps(requests@), error_frame, finish@),
{
    let mut deps: Vec<Dep> = Vec::new();
    let mut i: usize = 0;
    while i < requests.len()
        invariant
            i <= requests.len(),
            deps@ == request_deps(requests@).take(i as int),
        decreases requests.len() - i,
    {
        deps.push(Dep::Request(requests[i]));
        assert(request_deps(requests@).take(i as int + 1) =~= request_deps(requests@).take(
            i as int,
        ).push(Dep::Request(requests@[i as int])));
        i = i + 1;
    }
    assert(request_deps(requests@).take(i as int) =~= request_deps(requests@));
    Outcome::Park {
        deps: ParkDeps::List(deps),
        continuation: Continuation::Finish(finish),
        error_frame,
    }
}

/// The slot's result is that of the binder behind `source`.
pub fn forward_to_producer(source: ProducerId) -> (r: Outcome)
    ensures
        r@ == OutcomeView::Forward(source),
{
    Outcome::Forward(source)
}

/// Goes on in place.
pub fn continue_inline(work: Work, obligation: Option<Obligation>, label: ExprId) -> (r: Outcome)
    ensures
        r@ == in_place(work@, obligation, label),
{
    Outcome::Continue {
        work,
        obligation,
        frame: FramePlacement::Inherit,
        chain: ChainOp::Unchanged,
        block_entry: BlockEntry::Stay,
        label,
    }
}

/// Goes on with a fresh dispatch of `inner`.
pub fn become_dispatch(obligation: Option<Obligation>, inner: ExprId) -> (r: Outcome)
    ensures
        r@ == becomes(inner, obligation),
{
    continue_inline(Work::Dispatch(inner), obligation, inner)
}

/// Fails the slot.
pub fn fail(error: KError) -> (r: Outcome)
    ensures
        r@ == failed(error@),
{
    Outcome::Done(Err(error))
}

/// Work that fails on its first turn.
pub fn decide_error(error: KError) -> (r: Work)
    ensures
        r@ == WorkView::Fail(error@),
{
    Work::Fail(error)
}

/// The declared return that a slot answers to: the one it has taken on wins over a new one.
pub open spec fn kept_first(
    established: Option<Obligation>,
    contract: Option<ReturnContract>,
) -> Option<Obligation> {
    match established {
        Some(own) => Some(own),
        None => match contract {
            Some(own) => Some(Obligation { contract: own }),
            None => None,
        },
    }
}

/// The declared return that a slot answers to.
pub fn keep_first(established: Option<Obligation>, contract: Option<ReturnContract>) -> (r: Option<
    Obligation,
>)
    ensures
        r == kept_first(established, contract),
{
    match established {
        Some(own) => Some(own),
        None => match contract {
            Some(own) => Some(Obligation { contract: own }),
            None => None,
        },
    }
}

/// The position that a tail takes in the block it enters.
pub open spec fn tail_chain(block_entry: BlockEntry, body_index: usize) -> ChainOp {
    match block_entry {
        BlockEntry::Stay => ChainOp::Unchanged,
        _ => ChainOp::EnterBlock { index: body_index },
    }
}

/// The slot goes on with `tail`.
pub open spec fn tail_continued(
    established: Option<Obligation>,
    tail: ExprId,
    contract: Option<ReturnContract>,
    frame: FramePlacement,
    block_entry: BlockEntry,
    body_index: usize,
) -> OutcomeView {
    OutcomeView::Continue {
        work: WorkView::Dispatch(tail),
        obligation: kept_first(established, contract),
        frame,
        chain: tail_chain(block_entry, body_index),
        block_entry,
        label: tail,
    }
}

/// Goes on with `tail`, under the first declared return of the chain.
pub fn tail_continue(
    established: Option<Obligation>,
    tail: ExprId,
    contract: Option<ReturnContract>,
    frame: FramePlacement,
    block_entry: BlockEntry,
    body_index: usize,
) -> (r: Outcome)
    ensures
        r@ == tail_continued(established, tail, contract, frame, block_entry, body_index),
{
    let chain = match block_entry {
        BlockEntry::Stay => ChainOp::Unchanged,
        _ => ChainOp::EnterBlock { index: body_index },
    };
    Outcome::Continue {
        work: Work::Dispatch(tail),
        obligation: keep_first(established, contract),
        frame,
        chain,
        block_entry,
        label: tail,
    }
}

/// A chain of tail calls answers to its first caller: once a declared return is taken on, no
/// later tail replaces it.
pub proof fn first_declared_return_is_kept(
    established: Obligation,
    first: Option<ReturnContract>,
    second: Option<ReturnContract>,
)
    ensures
        kept_first(Some(established), first) == Some(established),
        kept_first(kept_first(None, first), second) == if first is Some {
            kept_first(None, first)
        } else {
            kept_first(None, second)
        },
{
}

} // verus!
