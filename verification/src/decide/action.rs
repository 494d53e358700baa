//! The action harness: what a builtin body asks for, as an [`Outcome`].

use crate::error::{raised, ErrorKindView, ErrorView, KError, KErrorKind};
use crate::ktype::TypeRegistry;
use crate::outcome::{
    dep_error_frame, dep_frame, fail, failed, result_view, tail_continue, tail_continued,
    BlockEntry, BlockRequest, BlockView, BodyPlacement, Continuation, ContinuationView, Dep,
    DepRequest, Finish, FinishId, FinishView, FramePlacement, Obligation, Outcome, OutcomeView,
    ParkDeps, ParkDepsView, ReturnContract, TailContract,
};
use crate::region::{Region, RegionView};
use crate::symbol::Labels;
use crate::text::enclosed;
use crate::value::{Carried, ExprId};
use vstd::pervasive::unreached;
use vstd::prelude::*;

verus! {

/// A write to a binding table, by its place among the writes of the run.
#[derive(Clone, Copy, PartialEq, Eq, Structural, Debug)]
pub struct WriteOp {
    pub at: usize,
}

/// What a builtin body asks for next.
pub enum ActionKind {
    Done(Result<Carried, KError>),
    /// Run `leading` in the block that is entered, then go on with `tail`.
    Tail {
        leading: Vec<ExprId>,
        tail: ExprId,
        contract: TailContract,
        frame_placement: FramePlacement,
        block_entry: BlockEntry,
    },
    /// Wait for `deps`, in the order given, then run `finish`.
    AwaitDeps { deps: Vec<Dep>, finish: FinishId },
    /// Wait for a block, then run `finish`.
    AwaitBlock { block: BlockRequest, finish: FinishId },
    /// Wait for one piece of work and run `finish` on its result, error or not.
    Catch { watched: DepRequest, finish: FinishId },
}

/// What a builtin body asks for: writes to the binding tables, and what comes next.
pub struct Action {
    pub effects: Vec<WriteOp>,
    pub next: ActionKind,
}

/// The content of an [`ActionKind`].
pub enum ActionView {
    Done(Result<Carried, ErrorView>),
    Tail {
        leading: Seq<ExprId>,
        tail: ExprId,
        contract: TailContract,
        frame_placement: FramePlacement,
        block_entry: BlockEntry,
    },
    AwaitDeps { deps: Seq<Dep>, finish: FinishId },
    AwaitBlock { block: BlockView, finish: FinishId },
    Catch { watched: DepRequest, finish: FinishId },
}

impl View for ActionKind {
    type V = ActionView;

    open spec fn view(&self) -> ActionView {
        match *self {
            ActionKind::Done(result) => ActionView::Done(result_view(result)),
            ActionKind::Tail { leading, tail, contract, frame_placement, block_entry } =>
                ActionView::Tail {
                leading: leading@,
                tail,
                contract,
                frame_placement,
                block_entry,
            },
            ActionKind::AwaitDeps { deps, finish } => ActionView::AwaitDeps {
                deps: deps@,
                finish,
            },
            ActionKind::AwaitBlock { block, finish } => ActionView::AwaitBlock {
                block: block@,
                finish,
            },
            ActionKind::Catch { watched, finish } => ActionView::Catch { watched, finish },
        }
    }
}

/// Where the leading statements of a tail bind, and whether the frame is a new one; a placement
/// that no leading statement can run in has none.
pub open spec fn block_of(frame: FramePlacement, entry: BlockEntry) -> Option<(bool, BodyPlacement)> {
    match (frame, entry) {
        (
            FramePlacement::FreshChild { frame: own },
            BlockEntry::FrameScope(block),
        ) => if own == block {
            Some((true, BodyPlacement::Frame(block)))
        } else {
            None
        },
        (FramePlacement::Inherit, BlockEntry::FrameScope(block)) => Some(
            (false, BodyPlacement::Frame(block)),
        ),
        (FramePlacement::Inherit, BlockEntry::Overlay(overlay)) => Some(
            (false, BodyPlacement::Overlay(overlay)),
        ),
        _ => None,
    }
}

/// Where the leading statements of a tail bind.
pub fn block_placement(frame: FramePlacement, entry: BlockEntry) -> (r: Option<
    (bool, BodyPlacement),
>)
    ensures
        r == block_of(frame, entry),
{
    match (frame, entry) {
        (FramePlacement::FreshChild { frame: own }, BlockEntry::FrameScope(block)) => {
            if own == block {
                Some((true, BodyPlacement::Frame(block)))
            } else {
                None
            }
        },
        (FramePlacement::Inherit, BlockEntry::FrameScope(block)) => Some(
            (false, BodyPlacement::Frame(block)),
        ),
        (FramePlacement::Inherit, BlockEntry::Overlay(overlay)) => Some(
            (false, BodyPlacement::Overlay(overlay)),
        ),
        _ => None,
    }
}

/// The placement that a tail is rebuilt with once its leading statements have run.
pub open spec fn rebuilt(fresh_child: bool, placement: BodyPlacement) -> (FramePlacement, BlockEntry) {
    match placement {
        BodyPlacement::Frame(frame) => (
            if fresh_child {
                FramePlacement::FreshChild { frame }
            } else {
                FramePlacement::Inherit
            },
            BlockEntry::FrameScope(frame),
        ),
        BodyPlacement::Overlay(overlay) => (FramePlacement::Inherit, BlockEntry::Overlay(overlay)),
    }
}

/// The position of a tail in its block: behind the parameters and the leading statements. A tail
/// that enters no block keeps the block's start.
pub open spec fn tail_index(leading: nat, entry: BlockEntry) -> usize {
    if entry is Stay {
        0
    } else {
        (leading + 1) as usize
    }
}

/// Whether an action is one that a body may return: a tail with leading statements enters a block
/// that they can run in, and a tail without any does not leave its return type to the last of
/// them.
pub open spec fn lowerable(next: ActionView) -> bool {
    match next {
        ActionView::Tail { leading, contract, frame_placement, block_entry, .. } => {
            if leading.len() == 0 {
                contract is Eager
            } else {
                block_of(frame_placement, block_entry) is Some && leading.len() < usize::MAX
            }
        },
        _ => true,
    }
}

/// What an action comes to.
pub open spec fn lowered(established: Option<Obligation>, next: ActionView) -> OutcomeView {
    match next {
        ActionView::Done(result) => OutcomeView::Done(result),
        ActionView::Tail { leading, tail, contract, frame_placement, block_entry } => {
            let body_index = tail_index(leading.len(), block_entry);
            if leading.len() == 0 {
                tail_continued(
                    established,
                    tail,
                    contract->Eager_0,
                    frame_placement,
                    block_entry,
                    body_index,
                )
            } else {
                let (fresh_child, placement) = block_of(frame_placement, block_entry)->0;
                OutcomeView::Park {
                    deps: ParkDepsView::Block(BlockView::Body { statements: leading, placement }),
                    continuation: ContinuationView::Finish(
                        FinishView::Tail { tail, contract, fresh_child, placement, body_index },
                    ),
                    error_frame: Some(dep_frame()),
                }
            }
        },
        ActionView::AwaitDeps { deps, finish } => OutcomeView::Park {
            deps: ParkDepsView::List(deps),
            continuation: ContinuationView::Finish(FinishView::Await(finish)),
            error_frame: Some(dep_frame()),
        },
        ActionView::AwaitBlock { block, finish } => OutcomeView::Park {
            deps: ParkDepsView::Block(block),
            continuation: ContinuationView::Finish(FinishView::Await(finish)),
            error_frame: Some(dep_frame()),
        },
        ActionView::Catch { watched, finish } => OutcomeView::Park {
            deps: ParkDepsView::List(Seq::empty()),
            continuation: ContinuationView::Catch { watched, finish },
            error_frame: None,
        },
    }
}

/// Hands an action's writes to the step's sink, in order, and turns what comes next into an
/// outcome.
pub fn run_action(
    established: Option<Obligation>,
    effects: &mut Vec<WriteOp>,
    action: Action,
) -> (r: Outcome)
    requires
        lowerable(action.next@),
    ensures
        r@ == lowered(established, action.next@),
        final(effects)@ == old(effects)@ + action.effects@,
{
    deposit_effects(effects, &action.effects);
    match action.next {
        ActionKind::Done(result) => Outcome::Done(result),
        ActionKind::Tail { leading, tail, contract, frame_placement, block_entry } => {
            let body_index: usize = if matches!(block_entry, BlockEntry::Stay) {
                0
            } else if leading.len() == 0 {
                1
            } else {
                leading.len() + 1
            };
            if leading.len() == 0 {
                let contract = match contract {
                    TailContract::Eager(contract) => contract,
                    TailContract::FromLastResult { .. } => unreached(),
                };
                return tail_continue(
                    established,
                    tail,
                    contract,
                    frame_placement,
                    block_entry,
                    body_index,
                );
            }
            match block_placement(frame_placement, block_entry) {
                Some((fresh_child, placement)) => Outcome::Park {
                    deps: ParkDeps::Block(BlockRequest::Body { statements: leading, placement }),
                    continuation: Continuation::Finish(
                        Finish::Tail { tail, contract, fresh_child, placement, body_index },
                    ),
                    error_frame: Some(dep_error_frame()),
                },
                None => unreached(),
            }
        },
        ActionKind::AwaitDeps { deps, finish } => Outcome::Park {
            deps: ParkDeps::List(deps),
            continuation: Continuation::Finish(Finish::Await(finish)),
            error_frame: Some(dep_error_frame()),
        },
        ActionKind::AwaitBlock { block, finish } => Outcome::Park {
            deps: ParkDeps::Block(block),
            continuation: Continuation::Finish(Finish::Await(finish)),
            error_frame: Some(dep_error_frame()),
        },
        ActionKind::Catch { watched, finish } => {
            let r = Outcome::Park {
                deps: ParkDeps::List(Vec::new()),
                continuation: Continuation::Catch { watched, finish },
                error_frame: None,
            };
            assert(r@->deps->List_0 =~= Seq::<Dep>::empty());
            r
        },
    }
}

/// Appends a batch of writes to the step's sink, in order.
pub fn deposit_effects(effects: &mut Vec<WriteOp>, ops: &Vec<WriteOp>)
    ensures
        final(effects)@ == old(effects)@ + ops@,
{
    let ghost before = effects@;
    let mut i: usize = 0;
    while i < ops.len()
        invariant
            i <= ops.len(),
            effects@ == before + ops@.take(i as int),
        decreases ops.len() - i,
    {
        effects.push(ops[i]);
        assert(before + ops@.take(i as int + 1) =~= (before + ops@.take(i as int)).push(
            ops@[i as int],
        ));
        i = i + 1;
    }
    assert(ops@.take(i as int) =~= ops@);
}

/// A return-type expression that evaluated to a value.
pub open spec fn non_type_return(
    types: &TypeRegistry,
    labels: &Labels,
    region: RegionView,
    object: crate::value::ObjId,
) -> ErrorView {
    raised(
        ErrorKindView::shape_error(
            "FN deferred return-type expression produced a non-type "@ + types.name_text(
                labels,
                region.object(object).ktype(),
            ) + " value"@,
        ),
    )
}

/// The declared return of a tail whose leading statements have come to `results`.
pub open spec fn settled(
    types: &TypeRegistry,
    labels: &Labels,
    region: RegionView,
    contract: TailContract,
    results: Seq<Carried>,
) -> Result<Option<ReturnContract>, ErrorView> {
    match contract {
        TailContract::Eager(own) => Ok(own),
        TailContract::FromLastResult { func, site } => match results.last() {
            Carried::Type(ret) => Ok(Some(ReturnContract::PerCall { func, ret, site })),
            Carried::Object(object) => Err(non_type_return(types, labels, region, object)),
            Carried::UnresolvedType(name) => Err(
                raised(ErrorKindView::UnboundName(labels.text_of(name))),
            ),
        },
    }
}

/// The declared return of a tail whose leading statements have come to `results`.
pub fn settle_contract(
    types: &TypeRegistry,
    labels: &Labels,
    region: &Region,
    contract: TailContract,
    results: &Vec<Carried>,
) -> (r: Result<Option<ReturnContract>, KError>)
    requires
        contract is FromLastResult ==> results@.len() > 0,
    ensures
        match r {
            Ok(own) => settled(types, labels, region@, contract, results@) == Ok::<
                Option<ReturnContract>,
                ErrorView,
            >(own),
            Err(e) => settled(types, labels, region@, contract, results@) == Err::<
                Option<ReturnContract>,
                ErrorView,
            >(e@),
        },
{
    match contract {
        TailContract::Eager(own) => Ok(own),
        TailContract::FromLastResult { func, site } => match results[results.len() - 1] {
            Carried::Type(ret) => Ok(Some(ReturnContract::PerCall { func, ret, site })),
            Carried::Object(object) => Err(
                KError::new(
                    KErrorKind::shape_error(
                        enclosed(
                            "FN deferred return-type expression produced a non-type ",
                            types.name(labels, region.object_type(object)).as_str(),
                            " value",
                        ),
                    ),
                ),
            ),
            Carried::UnresolvedType(name) => Err(
                KError::new(KErrorKind::UnboundName(labels.render(name))),
            ),
        },
    }
}

/// What a tail comes to once its leading statements have come to `results`.
pub open spec fn tail_finished(
    types: &TypeRegistry,
    labels: &Labels,
    region: RegionView,
    established: Option<Obligation>,
    tail: ExprId,
    contract: TailContract,
    fresh_child: bool,
    placement: BodyPlacement,
    body_index: usize,
    results: Seq<Carried>,
) -> OutcomeView {
    match settled(types, labels, region, contract, results) {
        Ok(own) => {
            let (frame, entry) = rebuilt(fresh_child, placement);
            tail_continued(established, tail, own, frame, entry, body_index)
        },
        Err(e) => failed(e),
    }
}

/// Goes on with a tail whose leading statements have run. The first declared return of the chain
/// is kept, whatever this tail declares.
pub fn finish_tail(
    types: &TypeRegistry,
    labels: &Labels,
    region: &Region,
    established: Option<Obligation>,
    tail: ExprId,
    contract: TailContract,
    fresh_child: bool,
    placement: BodyPlacement,
    body_index: usize,
    results: &Vec<Carried>,
) -> (r: Outcome)
    requires
        contract is FromLastResult ==> results@.len() > 0,
    ensures
        r@ == tail_finished(
            types,
            labels,
            region@,
            established,
            tail,
            contract,
            fresh_child,
            placement,
            body_index,
            results@,
        ),
{
    match settle_contract(types, labels, region, contract, results) {
        Ok(own) => {
            let (frame, entry) = match placement {
                BodyPlacement::Frame(frame) => (
                    if fresh_child {
                        FramePlacement::FreshChild { frame }
                    } else {
                        FramePlacement::Inherit
                    },
                    BlockEntry::FrameScope(frame),
                ),
                BodyPlacement::Overlay(overlay) => (
                    FramePlacement::Inherit,
                    BlockEntry::Overlay(overlay),
                ),
            };
            tail_continue(established, tail, own, frame, entry, body_index)
        },
        Err(e) => fail(e),
    }
}

/// A tail comes back from its leading statements with the placement that it parked with.
pub proof fn parked_tails_keep_their_placement(frame: FramePlacement, entry: BlockEntry)
    ensures
        block_of(frame, entry) matches Some((fresh_child, placement)) ==> rebuilt(
            fresh_child,
            placement,
        ) == (frame, entry),
{
}

} // verus!
