//! Laws of bodies: a body runs its leading statements first and its tail last, in the frame and the
//! block it was given, under the first declared return of its chain.

use crate::decide::action::{lowerable, lowered, tail_finished, ActionView};
use crate::decide::exec::{body_action, body_of_call, ExecView, PerCallReturn};
use crate::error::{ErrorKindView, ErrorView};
use crate::ktype::TypeRegistry;
use crate::outcome::{
    BlockEntry, BlockView, BodyPlacement, ChainOp, ContinuationView, Dep, DepRequest, FinishId,
    FinishView, FrameId, FramePlacement, Obligation, OutcomeView, ParkDepsView, ReturnContract,
    TailContract, UserCallView, WorkView,
};
use crate::region::RegionView;
use crate::symbol::Labels;
use crate::value::{Carried, ExprId};
use vstd::prelude::*;

verus! {

/// A call goes on with the body of its own callable, in a fresh frame under the scope that the
/// callable was defined in, under the obligation of the call. The body promises the declared return
/// of the callable, or the one that was computed for this call; one that is still an expression runs
/// as the last leading statement.
pub proof fn calls_run_their_own_body(
    call: UserCallView,
    leading: Seq<ExprId>,
    tail: ExprId,
    ret: PerCallReturn,
    type_expr: ExprId,
    error: ErrorView,
)
    ensures
        ({
            let outcome = body_of_call(call, ExecView::Tail { leading, tail, ret });
            &&& outcome is Continue
            &&& outcome->frame == (FramePlacement::FreshTail { outer: call.outer })
            &&& outcome->obligation == call.obligation
            &&& outcome->block_entry is Stay
            &&& outcome->Continue_chain is Unchanged
            &&& outcome->label == call.expr
            &&& outcome->work matches WorkView::Body {
                leading: first,
                tail: last,
                contract: TailContract::Eager(Some(contract)),
            } && first == leading && last == tail && match ret {
                PerCallReturn::FromSignature => contract == (ReturnContract::Function {
                    func: call.function,
                    site: call.expr,
                }),
                PerCallReturn::Resolved(own) => contract == (ReturnContract::PerCall {
                    func: call.function,
                    ret: own,
                    site: call.expr,
                }),
            }
        }),
        ({
            let outcome = body_of_call(
                call,
                ExecView::DeferredExprTail { type_expr, leading, tail },
            );
            &&& outcome is Continue
            &&& outcome->frame == (FramePlacement::FreshTail { outer: call.outer })
            &&& outcome->obligation == call.obligation
            &&& outcome->block_entry is Stay
            &&& outcome->Continue_chain is Unchanged
            &&& outcome->label == call.expr
            &&& outcome->work matches WorkView::Body { leading: first, tail: last, contract }
                && first.len() == leading.len() + 1 && first.last() == type_expr && (forall|i: int|
                0 <= i < leading.len() ==> #[trigger] first[i] == leading[i]) && last == tail
                && contract == (TailContract::FromLastResult {
                func: call.function,
                site: call.expr,
            })
        }),
        body_of_call(call, ExecView::Errored(error)) == OutcomeView::Done(Err(error)),
{
}

/// The obligation that a slot goes on under: the one it is under already, else the declared return
/// of what it goes on with.
pub open spec fn goes_on_under(
    obligation: Option<Obligation>,
    established: Option<Obligation>,
    contract: Option<ReturnContract>,
) -> bool {
    &&& established is Some ==> obligation == established
    &&& established is None ==> (obligation is Some <==> contract is Some)
    &&& established is None && contract is Some ==> obligation->0.contract == contract->0
}

/// Whether an outcome goes on with `tail` in the given frame and block, at the given place of that
/// block where it enters one.
pub open spec fn goes_on_with(
    outcome: OutcomeView,
    tail: ExprId,
    frame: FramePlacement,
    entry: BlockEntry,
    index: nat,
) -> bool {
    &&& outcome is Continue
    &&& outcome->work == WorkView::Dispatch(tail)
    &&& outcome->frame == frame
    &&& outcome->block_entry == entry
    &&& outcome->label == tail
    &&& entry is Stay ==> outcome->Continue_chain is Unchanged
    &&& !(entry is Stay) ==> (outcome->Continue_chain matches ChainOp::EnterBlock { index: own }
        && own == index)
}

/// A tail without leading statements goes on at once. One with leading statements waits for all of
/// them, in order, and keeps what it needs for when they ran; its own place in the block is behind
/// them.
pub proof fn tails_run_behind_their_leading_statements(
    established: Option<Obligation>,
    leading: Seq<ExprId>,
    tail: ExprId,
    contract: TailContract,
    frame: FramePlacement,
    entry: BlockEntry,
)
    requires
        lowerable(
            ActionView::Tail {
                leading,
                tail,
                contract,
                frame_placement: frame,
                block_entry: entry,
            },
        ),
    ensures
        ({
            let outcome = lowered(
                established,
                ActionView::Tail {
                    leading,
                    tail,
                    contract,
                    frame_placement: frame,
                    block_entry: entry,
                },
            );
            &&& leading.len() == 0 ==> goes_on_with(outcome, tail, frame, entry, 1) && (
            contract matches TailContract::Eager(own) && goes_on_under(
                outcome->obligation,
                established,
                own,
            ))
            &&& leading.len() > 0 ==> {
                &&& outcome is Park
                &&& outcome->deps matches ParkDepsView::Block(
                    BlockView::Body { statements, placement },
                ) && statements == leading && match entry {
                    BlockEntry::FrameScope(block) => placement == BodyPlacement::Frame(block),
                    BlockEntry::Overlay(overlay) => placement == BodyPlacement::Overlay(overlay),
                    BlockEntry::Stay => false,
                }
                &&& outcome->continuation matches ContinuationView::Finish(
                    FinishView::Tail {
                        tail: last,
                        contract: own,
                        fresh_child,
                        placement,
                        body_index,
                    },
                ) && last == tail && own == contract && body_index == leading.len() + 1
                    && fresh_child == (frame is FreshChild)
                &&& outcome->Park_error_frame matches Some(label) && label.label is DepFinish
                    && label.expr is None
            }
        }),
{
}

/// A parked tail goes on, once its leading statements ran, exactly where it was to go on before, and
/// at the place it had then. A declared return that the last statement computes is the type that it
/// came to; anything but a type is refused.
pub proof fn parked_tails_go_on_as_they_were(
    types: &TypeRegistry,
    labels: &Labels,
    region: RegionView,
    established: Option<Obligation>,
    leading: Seq<ExprId>,
    tail: ExprId,
    contract: TailContract,
    frame: FramePlacement,
    entry: BlockEntry,
    results: Seq<Carried>,
)
    requires
        leading.len() > 0,
        lowerable(
            ActionView::Tail {
                leading,
                tail,
                contract,
                frame_placement: frame,
                block_entry: entry,
            },
        ),
    ensures
        lowered(
            established,
            ActionView::Tail {
                leading,
                tail,
                contract,
                frame_placement: frame,
                block_entry: entry,
            },
        )->continuation matches ContinuationView::Finish(
            FinishView::Tail { tail: last, contract: own, fresh_child, placement, body_index },
        ) && {
            let outcome = tail_finished(
                types,
                labels,
                region,
                established,
                last,
                own,
                fresh_child,
                placement,
                body_index,
                results,
            );
            match contract {
                TailContract::Eager(declared) => goes_on_with(
                    outcome,
                    tail,
                    frame,
                    entry,
                    leading.len() + 1,
                ) && goes_on_under(outcome->obligation, established, declared),
                TailContract::FromLastResult { func, site } => match results.last() {
                    Carried::Type(ret) => goes_on_with(
                        outcome,
                        tail,
                        frame,
                        entry,
                        leading.len() + 1,
                    ) && goes_on_under(
                        outcome->obligation,
                        established,
                        Some(ReturnContract::PerCall { func, ret, site }),
                    ),
                    Carried::Object(_) => outcome is Done && outcome->Done_0 is Err
                        && outcome->Done_0->Err_0.kind is ShapeError,
                    Carried::UnresolvedType(name) => outcome is Done && outcome->Done_0 is Err
                        && outcome->Done_0->Err_0.kind == ErrorKindView::UnboundName(
                        labels.text_of(name),
                    ),
                },
            }
        },
{
}

/// An action that is done is done with its result; one that waits waits for exactly what it lists
/// and then runs the continuation it names.
pub proof fn actions_wait_for_what_they_list(
    established: Option<Obligation>,
    result: Result<Carried, ErrorView>,
    deps: Seq<Dep>,
    block: BlockView,
    watched: DepRequest,
    finish: FinishId,
)
    ensures
        lowered(established, ActionView::Done(result)) == OutcomeView::Done(result),
        ({
            let outcome = lowered(established, ActionView::AwaitDeps { deps, finish });
            &&& outcome is Park
            &&& outcome->deps == ParkDepsView::List(deps)
            &&& outcome->continuation == ContinuationView::Finish(FinishView::Await(finish))
            &&& outcome->Park_error_frame matches Some(label) && label.label is DepFinish
        }),
        ({
            let outcome = lowered(established, ActionView::AwaitBlock { block, finish });
            &&& outcome is Park
            &&& outcome->deps == ParkDepsView::Block(block)
            &&& outcome->continuation == ContinuationView::Finish(FinishView::Await(finish))
            &&& outcome->Park_error_frame matches Some(label) && label.label is DepFinish
        }),
        ({
            let outcome = lowered(established, ActionView::Catch { watched, finish });
            &&& outcome is Park
            &&& outcome->deps matches ParkDepsView::List(none) && none.len() == 0
            &&& outcome->continuation == (ContinuationView::Catch { watched, finish })
            &&& outcome->Park_error_frame is None
        }),
{
}

/// A body whose frame is set up runs in that frame, and its statements bind in it.
pub proof fn bodies_bind_in_their_own_frame(
    established: Option<Obligation>,
    leading: Seq<ExprId>,
    tail: ExprId,
    contract: TailContract,
    cart: FrameId,
)
    requires
        leading.len() < usize::MAX,
        leading.len() == 0 ==> contract is Eager,
    ensures
        ({
            let outcome = lowered(established, body_action(leading, tail, contract, cart));
            &&& leading.len() == 0 ==> goes_on_with(
                outcome,
                tail,
                FramePlacement::Inherit,
                BlockEntry::FrameScope(cart),
                1,
            )
            &&& leading.len() > 0 ==> outcome is Park && outcome->deps == ParkDepsView::Block(
                BlockView::Body { statements: leading, placement: BodyPlacement::Frame(cart) },
            )
        }),
{
}

} // verus!
