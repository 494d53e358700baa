//! Invoking a resolved call: a builtin runs on the slot's next turn, a user-defined callable gets
//! its arguments delivered and enters a frame of its own.

use super::action::{lowerable, lowered, run_action, Action, ActionKind, ActionView, WriteOp};
use super::DecideCtx;
use crate::ast::{ExpressionPart, KLiteral, Spanned, WorkingPart};
use crate::error::{raised, ErrorKindView, ErrorView, KError, KErrorKind};
use crate::function::{
    call_error, parameter_slots, part_slots, validate_call_args, Body, Functions,
};
use crate::ktype::{KType, TypeRegistry};
use crate::outcome::{
    continue_inline, fail, failed, in_place, BlockEntry, ChainOp, FrameId, FramePlacement, Obligation,
    Outcome, OutcomeView, ReturnContract, TailContract, UserCall, UserCallView, Work, WorkView,
};
use crate::region::{Region, RegionView};
use crate::text::owned;
use crate::value::{Carried, ExprId, FnId, KObject, ObjectView};
use vstd::prelude::*;

verus! {

/// The declared return that a body settles on for one call.
#[derive(Clone, Copy, PartialEq, Eq, Structural, Debug)]
pub enum PerCallReturn {
    FromSignature,
    Resolved(KType),
}

/// What the body of a user-defined callable runs once its parameters are bound.
pub enum ExecOutcome {
    Tail { leading: Vec<ExprId>, tail: ExprId, ret: PerCallReturn },
    /// The return type is itself an expression of the body.
    DeferredExprTail { type_expr: ExprId, leading: Vec<ExprId>, tail: ExprId },
    Errored(KError),
}

/// The content of an [`ExecOutcome`].
pub enum ExecView {
    Tail { leading: Seq<ExprId>, tail: ExprId, ret: PerCallReturn },
    DeferredExprTail { type_expr: ExprId, leading: Seq<ExprId>, tail: ExprId },
    Errored(ErrorView),
}

impl View for ExecOutcome {
    type V = ExecView;

    open spec fn view(&self) -> ExecView {
        match *self {
            ExecOutcome::Tail { leading, tail, ret } => ExecView::Tail {
                leading: leading@,
                tail,
                ret,
            },
            ExecOutcome::DeferredExprTail { type_expr, leading, tail } =>
                ExecView::DeferredExprTail { type_expr, leading: leading@, tail },
            ExecOutcome::Errored(e) => ExecView::Errored(e@),
        }
    }
}

/// The resolved value in each slot of a call.
pub open spec fn spliced_cells(parts: Seq<Spanned>) -> Seq<Option<Carried>> {
    parts.map_values(
        |part: Spanned|
            match part.value {
                WorkingPart::Spliced { cell, .. } => Some(cell),
                _ => None,
            },
    )
}

/// The resolved value in each slot of a call, one entry per slot.
pub fn carriers_from_expr(parts: &Vec<Spanned>) -> (r: Vec<Option<Carried>>)
    ensures
        r@ == spliced_cells(parts@),
{
    let mut r: Vec<Option<Carried>> = Vec::new();
    let mut i: usize = 0;
    while i < parts.len()
        invariant
            i <= parts.len(),
            r@ == spliced_cells(parts@).take(i as int),
        decreases parts.len() - i,
    {
        let own = match parts[i].value {
            WorkingPart::Spliced { cell, .. } => Some(cell),
            _ => None,
        };
        r.push(own);
        assert(spliced_cells(parts@).take(i as int + 1) =~= spliced_cells(parts@).take(
            i as int,
        ).push(own));
        i = i + 1;
    }
    assert(spliced_cells(parts@).take(i as int) =~= spliced_cells(parts@));
    r
}

/// The value of a literal.
pub open spec fn literal_object(literal: KLiteral) -> ObjectView {
    match literal {
        KLiteral::Number(bits) => ObjectView::Number(bits),
        KLiteral::Str(text) => ObjectView::Str(text),
        KLiteral::Bool(b) => ObjectView::Bool(b),
        KLiteral::Null => ObjectView::Null,
    }
}

/// The value of a literal.
pub fn to_kobject(literal: KLiteral) -> (r: KObject)
    ensures
        r@ == literal_object(literal),
{
    match literal {
        KLiteral::Number(bits) => KObject::Number(bits),
        KLiteral::Str(text) => KObject::Str(text),
        KLiteral::Bool(b) => KObject::Bool(b),
        KLiteral::Null => KObject::Null,
    }
}

/// The error of a slot that holds no value when it is bound.
pub open spec fn unresolved_argument() -> ErrorView {
    raised(
        ErrorKindView::User("exec: a call argument was not a resolved value at the bind site"@),
    )
}

/// What delivering the values of a run of slots comes to.
pub struct DeliveryView {
    pub region: RegionView,
    pub cells: Seq<Option<Carried>>,
    pub error: Option<ErrorView>,
}

/// Delivers one slot: a literal and a quoted expression become objects, a keyword has no value, and
/// a resolved value is there already.
pub open spec fn deliver_slot(
    region: RegionView,
    part: WorkingPart,
    cell: Option<Carried>,
) -> Result<(RegionView, Option<Carried>), ErrorView> {
    match part {
        WorkingPart::Ast(ExpressionPart::Keyword(_)) => Ok((region, cell)),
        WorkingPart::Spliced { .. } => Ok((region, cell)),
        WorkingPart::Ast(ExpressionPart::Literal(literal)) => Ok(
            (
                region.with_object(literal_object(literal), false),
                Some(Carried::Object(region.next_object())),
            ),
        ),
        WorkingPart::Ast(ExpressionPart::QuotedExpression(body)) => Ok(
            (
                region.with_object(ObjectView::KExpression(body), false),
                Some(Carried::Object(region.next_object())),
            ),
        ),
        _ => Err(unresolved_argument()),
    }
}

/// Delivers the first `upto` slots; the first slot that holds no value ends it.
pub open spec fn delivered(
    region: RegionView,
    parts: Seq<Spanned>,
    cells: Seq<Option<Carried>>,
    upto: nat,
) -> DeliveryView
    decreases upto,
{
    if upto == 0 {
        DeliveryView { region, cells, error: None }
    } else {
        let at = (upto - 1) as int;
        let earlier = delivered(region, parts, cells, at as nat);
        if earlier.error is Some {
            earlier
        } else {
            match deliver_slot(earlier.region, parts[at].value, earlier.cells[at]) {
                Ok((after, cell)) => DeliveryView {
                    region: after,
                    cells: earlier.cells.update(at, cell),
                    error: None,
                },
                Err(e) => DeliveryView { error: Some(e), ..earlier },
            }
        }
    }
}

/// Fills the entry of every slot that holds a value, so that each can be bound.
pub fn deliver_value_args(
    region: &mut Region,
    parts: &Vec<Spanned>,
    cells: &mut Vec<Option<Carried>>,
) -> (r: Result<(), KError>)
    requires
        old(cells)@.len() == parts@.len(),
    ensures
        ({
            let all = delivered(old(region)@, parts@, old(cells)@, parts@.len());
            &&& final(region)@ == all.region
            &&& final(cells)@ == all.cells
            &&& match r {
                Ok(_) => all.error is None,
                Err(e) => all.error == Some(e@),
            }
        }),
{
    let ghost before = region@;
    let ghost first = cells@;
    let mut i: usize = 0;
    while i < parts.len()
        invariant
            i <= parts.len(),
            cells@.len() == parts@.len(),
            region@ == delivered(before, parts@, first, i as nat).region,
            cells@ == delivered(before, parts@, first, i as nat).cells,
            delivered(before, parts@, first, i as nat).error is None,
            before == old(region)@,
            first == old(cells)@,
        decreases parts.len() - i,
    {
        match parts[i].value {
            WorkingPart::Ast(ExpressionPart::Keyword(_)) => {
                assert(cells@.update(i as int, cells@[i as int]) =~= cells@);
            },
            WorkingPart::Spliced { .. } => {
                assert(cells@.update(i as int, cells@[i as int]) =~= cells@);
            },
            WorkingPart::Ast(ExpressionPart::Literal(literal)) => {
                let object = region.add_object(to_kobject(literal), false);
                cells.set(i, Some(Carried::Object(object)));
            },
            WorkingPart::Ast(ExpressionPart::QuotedExpression(body)) => {
                let object = region.add_object(KObject::KExpression(body), false);
                cells.set(i, Some(Carried::Object(object)));
            },
            _ => {
                proof {
                    error_ends_delivery(before, parts@, first, i as nat + 1, parts@.len());
                }
                return Err(
                    KError::new(
                        KErrorKind::User(
                            owned("exec: a call argument was not a resolved value at the bind site"),
                        ),
                    ),
                );
            },
        }
        i = i + 1;
    }
    Ok(())
}

/// Nothing is delivered behind the first slot that holds no value.
proof fn error_ends_delivery(
    region: RegionView,
    parts: Seq<Spanned>,
    cells: Seq<Option<Carried>>,
    upto: nat,
    end: nat,
)
    requires
        upto <= end,
        delivered(region, parts, cells, upto).error is Some,
    ensures
        delivered(region, parts, cells, end) == delivered(region, parts, cells, upto),
    decreases end - upto,
{
    if upto < end {
        error_ends_delivery(region, parts, cells, upto, (end - 1) as nat);
    }
}

/// The values of the parameters among `cells`, in declaration order.
pub open spec fn parameter_cells(slots: Seq<usize>, cells: Seq<Option<Carried>>) -> Seq<Carried>
    decreases slots.len(),
{
    if slots.len() == 0 {
        Seq::empty()
    } else {
        let earlier = parameter_cells(slots.drop_last(), cells);
        if slots.last() < cells.len() {
            match cells[slots.last() as int] {
                Some(cell) => earlier.push(cell),
                None => earlier,
            }
        } else {
            earlier
        }
    }
}

/// The values of a call's parameters, in declaration order.
pub fn parameter_carriers(functions: &Functions, picked: FnId, cells: &Vec<Option<Carried>>) -> (r:
    Vec<Carried>)
    ensures
        r@ == parameter_cells(part_slots(functions.signature(picked)), cells@),
{
    let slots = parameter_slots(&functions.signature_of(picked));
    let mut r: Vec<Carried> = Vec::new();
    let mut i: usize = 0;
    proof {
        assert(slots@.take(0) =~= Seq::<usize>::empty());
    }
    while i < slots.len()
        invariant
            i <= slots.len(),
            r@ == parameter_cells(slots@.take(i as int), cells@),
        decreases slots.len() - i,
    {
        proof {
            assert(slots@.take(i as int + 1).drop_last() =~= slots@.take(i as int));
        }
        let slot: usize = slots[i];
        if slot < cells.len() {
            if let Some(cell) = cells[slot] {
                r.push(cell);
            }
        }
        i = i + 1;
    }
    assert(slots@.take(i as int) =~= slots@);
    r
}

/// What entering a user-defined callable comes to.
pub open spec fn entered(
    ctx: &DecideCtx,
    types: &TypeRegistry,
    region: RegionView,
    picked: FnId,
    expr: ExprId,
) -> (OutcomeView, RegionView) {
    let parts = region.parts(expr);
    match call_error(types, ctx.labels, region, ctx.functions.signature(picked), parts) {
        Some(e) => (failed(e), region),
        None => {
            let all = delivered(region, parts, spliced_cells(parts), parts.len());
            match all.error {
                Some(e) => (failed(e), all.region),
                None => (
                    OutcomeView::Enter(
                        UserCallView {
                            function: picked,
                            arguments: parameter_cells(
                                part_slots(ctx.functions.signature(picked)),
                                all.cells,
                            ),
                            outer: ctx.functions.captured(picked),
                            obligation: ctx.obligation,
                            expr,
                        },
                    ),
                    all.region,
                ),
            }
        },
    }
}

/// Enters a user-defined callable: checks the arguments and delivers them.
pub fn enter_user_fn(
    ctx: &DecideCtx,
    types: &TypeRegistry,
    region: &mut Region,
    picked: FnId,
    expr: ExprId,
) -> (r: Outcome)
    ensures
        (r@, final(region)@) == entered(ctx, types, old(region)@, picked, expr),
{
    let parts = region.parts_of(expr);
    let elements = ctx.functions.signature_of(picked);
    if let Err(e) = validate_call_args(types, ctx.labels, region, &elements, &parts) {
        return fail(e);
    }
    let mut cells = carriers_from_expr(&parts);
    if let Err(e) = deliver_value_args(region, &parts, &mut cells) {
        return fail(e);
    }
    Outcome::Enter(
        UserCall {
            function: picked,
            arguments: parameter_carriers(ctx.functions, picked, &cells),
            outer: ctx.functions.captured_scope(picked),
            obligation: ctx.obligation,
            expr,
        },
    )
}

/// What invoking a resolved call comes to.
pub open spec fn invoked(
    ctx: &DecideCtx,
    types: &TypeRegistry,
    region: RegionView,
    picked: FnId,
    expr: ExprId,
) -> (OutcomeView, RegionView) {
    match ctx.functions.body(picked) {
        Body::Builtin(_) => (
            in_place(WorkView::Builtin { function: picked, expr }, ctx.obligation, expr),
            region,
        ),
        Body::User => entered(ctx, types, region, picked, expr),
    }
}

/// Invokes a resolved call. A builtin runs on the slot's next turn, under the declared return that
/// the slot has taken on.
pub fn invoke_continue(
    ctx: &DecideCtx,
    types: &TypeRegistry,
    region: &mut Region,
    picked: FnId,
    expr: ExprId,
) -> (r: Outcome)
    ensures
        (r@, final(region)@) == invoked(ctx, types, old(region)@, picked, expr),
{
    match ctx.functions.body_of(picked) {
        Body::Builtin(_) => continue_inline(
            Work::Builtin { function: picked, expr },
            ctx.obligation,
            expr,
        ),
        Body::User => enter_user_fn(ctx, types, region, picked, expr),
    }
}

/// Goes on from a builtin whose arguments were bound and which has run to `ran`.
pub fn invoke_builtin(
    established: Option<Obligation>,
    effects: &mut Vec<WriteOp>,
    ran: Result<Action, KError>,
) -> (r: Outcome)
    requires
        ran matches Ok(action) ==> lowerable(action.next@),
    ensures
        match ran {
            Ok(action) => r@ == lowered(established, action.next@) && final(effects)@
                == old(effects)@ + action.effects@,
            Err(e) => r@ == failed(e@) && final(effects)@ == old(effects)@,
        },
{
    match ran {
        Ok(action) => run_action(established, effects, action),
        Err(e) => fail(e),
    }
}

/// The slot goes on with a body in the frame that holds its parameters.
pub open spec fn body_entered(
    call: UserCallView,
    leading: Seq<ExprId>,
    tail: ExprId,
    contract: TailContract,
) -> OutcomeView {
    OutcomeView::Continue {
        work: WorkView::Body { leading, tail, contract },
        obligation: call.obligation,
        frame: FramePlacement::FreshTail { outer: call.outer },
        chain: ChainOp::Unchanged,
        block_entry: BlockEntry::Stay,
        label: call.expr,
    }
}

/// What a call comes to once its body has said what it runs.
pub open spec fn body_of_call(call: UserCallView, ran: ExecView) -> OutcomeView {
    match ran {
        ExecView::Tail { leading, tail, ret } => {
            let contract = match ret {
                PerCallReturn::FromSignature => ReturnContract::Function {
                    func: call.function,
                    site: call.expr,
                },
                PerCallReturn::Resolved(ret) => ReturnContract::PerCall {
                    func: call.function,
                    ret,
                    site: call.expr,
                },
            };
            body_entered(call, leading, tail, TailContract::Eager(Some(contract)))
        },
        ExecView::DeferredExprTail { type_expr, leading, tail } => body_entered(
            call,
            leading.push(type_expr),
            tail,
            TailContract::FromLastResult { func: call.function, site: call.expr },
        ),
        ExecView::Errored(e) => failed(e),
    }
}

/// Goes on with the body of a call. A return type that is an expression joins the leading
/// statements as the last of them.
pub fn body_continue(call: &UserCall, ran: ExecOutcome) -> (r: Outcome)
    ensures
        r@ == body_of_call(call@, ran@),
{
    let (leading, tail, contract) = match ran {
        ExecOutcome::Tail { leading, tail, ret } => {
            let contract = match ret {
                PerCallReturn::FromSignature => ReturnContract::Function {
                    func: call.function,
                    site: call.expr,
                },
                PerCallReturn::Resolved(ret) => ReturnContract::PerCall {
                    func: call.function,
                    ret,
                    site: call.expr,
                },
            };
            (leading, tail, TailContract::Eager(Some(contract)))
        },
        ExecOutcome::DeferredExprTail { type_expr, leading, tail } => {
            let mut run = leading;
            run.push(type_expr);
            (run, tail, TailContract::FromLastResult { func: call.function, site: call.expr })
        },
        ExecOutcome::Errored(e) => {
            return fail(e);
        },
    };
    Outcome::Continue {
        work: Work::Body { leading, tail, contract },
        obligation: call.obligation,
        frame: FramePlacement::FreshTail { outer: call.outer },
        chain: ChainOp::Unchanged,
        block_entry: BlockEntry::Stay,
        label: call.expr,
    }
}

/// A body as the action that runs it: its statements enter the frame that holds the parameters.
pub open spec fn body_action(
    leading: Seq<ExprId>,
    tail: ExprId,
    contract: TailContract,
    cart: FrameId,
) -> ActionView {
    ActionView::Tail {
        leading,
        tail,
        contract,
        frame_placement: FramePlacement::Inherit,
        block_entry: BlockEntry::FrameScope(cart),
    }
}

/// Runs the statements of a body in the frame that holds its parameters.
pub fn run_body(
    established: Option<Obligation>,
    leading: Vec<ExprId>,
    tail: ExprId,
    contract: TailContract,
    cart: FrameId,
) -> (r: Outcome)
    requires
        lowerable(body_action(leading@, tail, contract, cart)),
    ensures
        r@ == lowered(established, body_action(leading@, tail, contract, cart)),
{
    let mut effects: Vec<WriteOp> = Vec::new();
    run_action(
        established,
        &mut effects,
        Action {
            effects: Vec::new(),
            next: ActionKind::Tail {
                leading,
                tail,
                contract,
                frame_placement: FramePlacement::Inherit,
                block_entry: BlockEntry::FrameScope(cart),
            },
        },
    )
}

/// Every body that a call enters can be run in its frame.
pub proof fn entered_bodies_run(call: UserCallView, ran: ExecView, cart: FrameId)
    requires
        ran matches ExecView::Tail { leading, .. } ==> leading.len() < usize::MAX - 1,
        ran matches ExecView::DeferredExprTail { leading, .. } ==> leading.len() < usize::MAX - 1,
    ensures
        body_of_call(call, ran) matches OutcomeView::Continue { work, .. } ==> (
        work matches WorkView::Body { leading, tail, contract } && lowerable(
            body_action(leading, tail, contract, cart),
        )),
{
}

proof fn delivery_reaches_every_slot(
    region: RegionView,
    parts: Seq<Spanned>,
    cells: Seq<Option<Carried>>,
    upto: nat,
    i: int,
)
    requires
        upto <= parts.len(),
        cells.len() == parts.len(),
        0 <= i < parts.len(),
        parts[i].value is Spliced ==> cells[i] is Some,
        delivered(region, parts, cells, upto).error is None,
    ensures
        delivered(region, parts, cells, upto).cells.len() == parts.len(),
        i >= upto ==> delivered(region, parts, cells, upto).cells[i] == cells[i],
        i < upto ==> is_keyword(parts[i].value) || delivered(region, parts, cells, upto).cells[i] is Some,
    decreases upto,
{
    if upto > 0 {
        delivery_reaches_every_slot(region, parts, cells, (upto - 1) as nat, i);
    }
}

/// Whether a part is a keyword.
pub open spec fn is_keyword(part: WorkingPart) -> bool {
    part matches WorkingPart::Ast(ExpressionPart::Keyword(_))
}

/// Once the arguments of a call are delivered, every slot but the keywords has its value.
pub proof fn delivered_calls_are_complete(region: RegionView, parts: Seq<Spanned>, i: int)
    requires
        0 <= i < parts.len(),
        delivered(region, parts, spliced_cells(parts), parts.len()).error is None,
    ensures
        ({
            let cells = delivered(region, parts, spliced_cells(parts), parts.len()).cells;
            &&& cells.len() == parts.len()
            &&& is_keyword(parts[i].value) || cells[i] is Some
        }),
{
    delivery_reaches_every_slot(region, parts, spliced_cells(parts), parts.len(), i);
}

} // verus!
