//! Running a resolved call in the frame that it was given: the arguments are bound by parameter
//! name, the callable says what its body runs, and the body is entered.

use crate::decide::action::lowered;
use crate::decide::exec::{
    body_action, carriers_from_expr, deliver_value_args, delivered, run_body, spliced_cells,
    ExecOutcome, ExecView, PerCallReturn,
};
use crate::decide::DecideCtx;
use crate::error::{ErrorView, KError};
use crate::function::{call_error, validate_call_args, Body, SignatureElement};
use crate::ktype::TypeRegistry;
use crate::outcome::{
    fail, failed, FrameId, Obligation, Outcome, OutcomeView, ReturnContract, TailContract,
};
use crate::region::{Region, RegionView};
use crate::symbol::Symbol;
use crate::value::{Carried, Cell, ExprId, FnId};
use vstd::prelude::*;

verus! {

/// A call of a user-defined callable, bound in its frame.
pub struct BoundCall {
    pub function: FnId,
    /// The value of every parameter, by name.
    pub arguments: Vec<Cell>,
    pub frame: FrameId,
    /// Whether the slot has taken on a declared return already; then the body need not settle its
    /// own.
    pub in_chain: bool,
    pub expr: ExprId,
}

/// The content of a [`BoundCall`].
pub struct BoundView {
    pub function: FnId,
    pub arguments: Seq<Cell>,
    pub frame: FrameId,
    pub in_chain: bool,
    pub expr: ExprId,
}

impl View for BoundCall {
    type V = BoundView;

    open spec fn view(&self) -> BoundView {
        BoundView {
            function: self.function,
            arguments: self.arguments@,
            frame: self.frame,
            in_chain: self.in_chain,
            expr: self.expr,
        }
    }
}

/// What an invoked call waits to be told.
pub enum Invocation {
    /// What the builtin at `at` of the builtin table does with its arguments. `carriers` holds the
    /// resolved ones.
    Builtin { at: usize, carriers: Vec<Cell> },
    /// What the body runs.
    Body(BoundCall),
    Failed(KError),
}

/// The content of an [`Invocation`].
pub enum InvocationView {
    Builtin { at: usize, carriers: Seq<Cell> },
    Body(BoundView),
    Failed(ErrorView),
}

impl View for Invocation {
    type V = InvocationView;

    open spec fn view(&self) -> InvocationView {
        match *self {
            Invocation::Builtin { at, carriers } => InvocationView::Builtin {
                at,
                carriers: carriers@,
            },
            Invocation::Body(call) => InvocationView::Body(call@),
            Invocation::Failed(e) => InvocationView::Failed(e@),
        }
    }
}

/// `cells` with `name` bound to `value`: in the place it already has, or behind the others.
pub open spec fn with_cell(cells: Seq<Cell>, name: Symbol, value: Carried) -> Seq<Cell>
    decreases cells.len(),
{
    if cells.len() == 0 {
        seq![Cell { name, value }]
    } else if cells[0].name == name {
        cells.update(0, Cell { name, value })
    } else {
        seq![cells[0]] + with_cell(cells.drop_first(), name, value)
    }
}

/// Binding behind a run of cells that do not hold the name leaves the run as it is.
proof fn cell_is_put_behind(front: Seq<Cell>, back: Seq<Cell>, name: Symbol, value: Carried)
    requires
        forall|k: int| 0 <= k < front.len() ==> front[k].name != name,
    ensures
        with_cell(front + back, name, value) == front + with_cell(back, name, value),
    decreases front.len(),
{
    if front.len() == 0 {
        assert(front + back =~= back);
        assert(front + with_cell(back, name, value) =~= with_cell(back, name, value));
    } else {
        let rest = front.drop_first();
        assert((front + back).drop_first() =~= rest + back);
        assert((front + back)[0] == front[0]);
        cell_is_put_behind(rest, back, name, value);
        assert(seq![front[0]] + (rest + with_cell(back, name, value)) =~= front + with_cell(
            back,
            name,
            value,
        ));
    }
}

/// Binds a name.
fn put_cell(cells: &mut Vec<Cell>, name: Symbol, value: Carried)
    ensures
        final(cells)@ == with_cell(old(cells)@, name, value),
{
    let ghost before = cells@;
    let mut i: usize = 0;
    while i < cells.len()
        invariant
            i <= cells.len(),
            cells@ == before,
            before == old(cells)@,
            forall|k: int| 0 <= k < i ==> before[k].name != name,
        decreases cells.len() - i,
    {
        if cells[i].name == name {
            cells.set(i, Cell { name, value });
            proof {
                let front = before.take(i as int);
                let back = before.skip(i as int);
                assert(front + back =~= before);
                cell_is_put_behind(front, back, name, value);
                assert(cells@ =~= front + back.update(0, Cell { name, value }));
            }
            return ;
        }
        i = i + 1;
    }
    cells.push(Cell { name, value });
    proof {
        cell_is_put_behind(before, Seq::empty(), name, value);
        assert(before + Seq::<Cell>::empty() =~= before);
        assert(cells@ =~= before + seq![Cell { name, value }]);
    }
}

/// The values of the first `upto` slots under the names of their parameters.
pub open spec fn named_upto(
    elements: Seq<SignatureElement>,
    cells: Seq<Option<Carried>>,
    upto: nat,
) -> Seq<Cell>
    decreases upto,
{
    if upto == 0 {
        Seq::empty()
    } else {
        let at = (upto - 1) as int;
        let earlier = named_upto(elements, cells, at as nat);
        if at < elements.len() {
            match (elements[at], cells[at]) {
                (SignatureElement::Argument(arg), Some(value)) => with_cell(
                    earlier,
                    arg.name,
                    value,
                ),
                _ => earlier,
            }
        } else {
            earlier
        }
    }
}

/// The values of all slots under the names of their parameters.
pub open spec fn named_carriers(elements: Seq<SignatureElement>, cells: Seq<Option<Carried>>) -> Seq<
    Cell,
> {
    named_upto(elements, cells, cells.len())
}

/// Binds the values of a call's slots to the names of their parameters. A slot without a value
/// binds nothing.
pub fn map_arg_carriers(elements: &Vec<SignatureElement>, cells: &Vec<Option<Carried>>) -> (r: Vec<
    Cell,
>)
    ensures
        r@ == named_carriers(elements@, cells@),
{
    let mut r: Vec<Cell> = Vec::new();
    let mut slot: usize = 0;
    proof {
        assert(r@ =~= Seq::<Cell>::empty());
    }
    while slot < cells.len()
        invariant
            slot <= cells.len(),
            r@ == named_upto(elements@, cells@, slot as nat),
        decreases cells.len() - slot,
    {
        if slot < elements.len() {
            if let Some(value) = cells[slot] {
                if let SignatureElement::Argument(arg) = elements[slot] {
                    put_cell(&mut r, arg.name, value);
                }
            }
        }
        slot = slot + 1;
    }
    r
}

/// What invoking a resolved call in `frame` comes to.
pub open spec fn invoked(
    ctx: &DecideCtx,
    types: &TypeRegistry,
    region: RegionView,
    picked: FnId,
    expr: ExprId,
    frame: Option<FrameId>,
) -> (InvocationView, RegionView) {
    let parts = region.parts(expr);
    let elements = ctx.functions.signature(picked);
    match ctx.functions.body(picked) {
        Body::Builtin(at) => (
            InvocationView::Builtin { at, carriers: named_carriers(elements, spliced_cells(parts)) },
            region,
        ),
        Body::User => match call_error(types, ctx.labels, region, elements, parts) {
            Some(e) => (InvocationView::Failed(e), region),
            None => {
                let all = delivered(region, parts, spliced_cells(parts), parts.len());
                match all.error {
                    Some(e) => (InvocationView::Failed(e), all.region),
                    None => (
                        InvocationView::Body(
                            BoundView {
                                function: picked,
                                arguments: named_carriers(elements, all.cells),
                                frame: frame->0,
                                in_chain: ctx.obligation is Some,
                                expr,
                            },
                        ),
                        all.region,
                    ),
                }
            },
        },
    }
}

/// Invokes a resolved call. A user-defined callable has its arguments checked, delivered and bound
/// by name in the frame that the call was given.
pub fn invoke(
    ctx: &DecideCtx,
    types: &TypeRegistry,
    region: &mut Region,
    picked: FnId,
    expr: ExprId,
    frame: Option<FrameId>,
) -> (r: Invocation)
    requires
        ctx.functions.body(picked) is User ==> frame is Some,
    ensures
        (r@, final(region)@) == invoked(ctx, types, old(region)@, picked, expr, frame),
{
    let parts = region.parts_of(expr);
    let elements = ctx.functions.signature_of(picked);
    let mut cells = carriers_from_expr(&parts);
    if let Body::Builtin(at) = ctx.functions.body_of(picked) {
        return Invocation::Builtin { at, carriers: map_arg_carriers(&elements, &cells) };
    }
    if let Err(e) = validate_call_args(types, ctx.labels, region, &elements, &parts) {
        return Invocation::Failed(e);
    }
    if let Err(e) = deliver_value_args(region, &parts, &mut cells) {
        return Invocation::Failed(e);
    }
    Invocation::Body(
        BoundCall {
            function: picked,
            arguments: map_arg_carriers(&elements, &cells),
            frame: frame.unwrap(),
            in_chain: ctx.obligation.is_some(),
            expr,
        },
    )
}

/// What a call comes to once its body has said what it runs.
pub open spec fn body_run(
    established: Option<Obligation>,
    call: BoundView,
    ran: ExecView,
) -> OutcomeView {
    match ran {
        ExecView::Tail { leading, tail, ret } => {
            let contract = match ret {
                PerCallReturn::FromSignature => ReturnContract::Function {
                    func: call.function,
                    site: call.expr,
                },
                PerCallReturn::Resolved(ret) => ReturnContract::PerCall {
                    func: call.function,
                    ret,
                    site: call.expr,
                },
            };
            lowered(
                established,
                body_action(leading, tail, TailContract::Eager(Some(contract)), call.frame),
            )
        },
        ExecView::DeferredExprTail { type_expr, leading, tail } => lowered(
            established,
            body_action(
                leading.push(type_expr),
                tail,
                TailContract::FromLastResult { func: call.function, site: call.expr },
                call.frame,
            ),
        ),
        ExecView::Errored(e) => failed(e),
    }
}

/// Whether the statements of a body can be counted.
pub open spec fn countable(ran: ExecView) -> bool {
    match ran {
        ExecView::Tail { leading, .. } => leading.len() < usize::MAX,
        ExecView::DeferredExprTail { leading, .. } => leading.len() < usize::MAX - 1,
        ExecView::Errored(_) => true,
    }
}

/// Runs the body of a call in its frame. The tail stays in that frame, behind the leading
/// statements; a return type that is an expression runs as the last of them.
pub fn run_invoked(established: Option<Obligation>, call: &BoundCall, ran: ExecOutcome) -> (r: Outcome)
    requires
        countable(ran@),
    ensures
        r@ == body_run(established, call@, ran@),
{
    match ran {
        ExecOutcome::Tail { leading, tail, ret } => {
            let contract = match ret {
                PerCallReturn::FromSignature => ReturnContract::Function {
                    func: call.function,
                    site: call.expr,
                },
                PerCallReturn::Resolved(ret) => ReturnContract::PerCall {
                    func: call.function,
                    ret,
                    site: call.expr,
                },
            };
            run_body(
                established,
                leading,
                tail,
                TailContract::Eager(Some(contract)),
                call.frame,
            )
        },
        ExecOutcome::DeferredExprTail { type_expr, leading, tail } => {
            let mut statements = leading;
            statements.push(type_expr);
            run_body(
                established,
                statements,
                tail,
                TailContract::FromLastResult { func: call.function, site: call.expr },
                call.frame,
            )
        },
        ExecOutcome::Errored(e) => fail(e),
    }
}

/// Binding a name twice keeps its place and the second value, and binds no other name.
pub proof fn binding_replaces_in_place(cells: Seq<Cell>, name: Symbol, value: Carried, other: Symbol)
    ensures
        crate::matching::cell_named(with_cell(cells, name, value), name) == Some(value),
        other != name ==> crate::matching::cell_named(with_cell(cells, name, value), other)
            == crate::matching::cell_named(cells, other),
    decreases cells.len(),
{
    let after = with_cell(cells, name, value);
    if cells.len() == 0 {
        assert(after[0].name == name);
        assert(after.drop_first() =~= Seq::<Cell>::empty());
        assert(crate::matching::cell_named(Seq::<Cell>::empty(), other) is None);
    } else if cells[0].name == name {
        assert(after[0].name == name);
        assert(after.drop_first() =~= cells.drop_first());
    } else {
        assert(after.drop_first() =~= with_cell(cells.drop_first(), name, value));
        binding_replaces_in_place(cells.drop_first(), name, value, other);
    }
}

} // verus!
