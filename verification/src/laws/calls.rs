//! Laws of calls: a picked call carries the value of each name in that name's own slot, and a body
//! is entered with one argument per parameter, in the order of the signature.

use crate::ast::{ExpressionPart, KLiteral, Spanned, WorkingPart};
use crate::decide::exec::{delivered, entered, parameter_cells, spliced_cells};
use crate::decide::keyworded::{
    filled_parts, resolution_in, resolved_and_invoked, result_for, subs_landed, wrapped_expr,
};
use crate::decide::resolve::bare_outcomes_of;
use crate::decide::resolve_dispatch::DispatchView;
use crate::decide::resolve_type_identifier::{gated, TypeResolutionView};
use crate::decide::DecideCtx;
use crate::error::ErrorKindView;
use crate::function::{call_error, carried_text, first_slot_error, part_slots, SignatureElement};
use crate::ktype::TypeRegistry;
use crate::outcome::{BlockEntry, ChainOp, FramePlacement, OutcomeView, WorkView};
use crate::region::RegionView;
use crate::scope::{value_in, LexicalFrame, NameLookup, ScopeLevel};
use crate::symbol::Labels;
use crate::value::{Carried, ExprId, FnId, ObjectView};
use vstd::prelude::*;

verus! {

/// Whether `cell` is what the bare name in a part means to the reader: the value that the name is
/// bound to, or the sealed type of a type name that no value is about to be bound to.
pub open spec fn stands_for(
    types: &TypeRegistry,
    levels: Seq<ScopeLevel>,
    chain: Option<&LexicalFrame>,
    part: WorkingPart,
    cell: Carried,
) -> bool {
    match part {
        WorkingPart::Ast(ExpressionPart::Identifier(name)) => value_in(levels, name, chain) == Some(
            NameLookup::Bound(cell),
        ),
        WorkingPart::Ast(ExpressionPart::Type(name)) => cell matches Carried::Type(kt) && gated(
            types,
            levels,
            name,
            chain,
        ) == TypeResolutionView::Done(kt) && !(value_in(levels, name, chain) matches Some(
            NameLookup::Parked(_),
        )),
        _ => false,
    }
}

/// Whether the slots at `taken` hold the values of their own names, and every other slot is as it
/// stands in `before`.
pub open spec fn names_by_value(
    types: &TypeRegistry,
    levels: Seq<ScopeLevel>,
    chain: Option<&LexicalFrame>,
    before: Seq<Spanned>,
    after: Seq<Spanned>,
    taken: Seq<usize>,
) -> bool {
    &&& after.len() == before.len()
    &&& forall|i: int|
        0 <= i < before.len() && !taken.contains(i as usize) ==> #[trigger] after[i] == before[i]
    &&& forall|i: int, cell: Carried|
        0 <= i < before.len() && taken.contains(i as usize) && #[trigger] stands_for(
            types,
            levels,
            chain,
            before[i].value,
            cell,
        ) ==> after[i].span == before[i].span && (
        after[i].value matches WorkingPart::Spliced { cell: own, .. } && own == cell)
}

/// The expression that an outcome goes on to call, with the callable.
pub open spec fn call_of(outcome: OutcomeView) -> Option<(FnId, ExprId)> {
    match outcome {
        OutcomeView::Continue { work: WorkView::Builtin { function, expr }, .. } => Some(
            (function, expr),
        ),
        OutcomeView::Enter(user) => Some((user.function, user.expr)),
        _ => None,
    }
}

/// A picked call is invoked over the expression with each name that the pick takes by value replaced
/// by the value that this very name means in scope; every other slot goes in as it stands.
pub proof fn picks_take_each_name_by_its_own_value(
    ctx: &DecideCtx,
    types: &TypeRegistry,
    region: RegionView,
    expr: ExprId,
)
    requires
        region.nodes.len() < usize::MAX,
    ensures
        ({
            let (outcome, after) = resolved_and_invoked(ctx, types, region, expr);
            resolution_in(ctx, types, region, expr) matches DispatchView::Resolved {
                function,
                wrap_indices,
            } ==> (call_of(outcome) matches Some((invoked, call)) ==> {
                &&& invoked == function
                &&& names_by_value(
                    types,
                    ctx.scope.levels@,
                    ctx.chain,
                    region.parts(expr),
                    after.parts(call),
                    wrap_indices,
                )
                &&& after.meta(call) == region.meta(expr)
            }) && (ctx.functions.body(function) is Builtin ==> (
            outcome matches OutcomeView::Continue {
                work: WorkView::Builtin { .. },
                obligation,
                frame: FramePlacement::Inherit,
                chain: ChainOp::Unchanged,
                block_entry: BlockEntry::Stay,
                ..
            } && obligation == ctx.obligation)) && (ctx.functions.body(function) is User ==> (
            outcome is Enter || outcome matches OutcomeView::Done(Err(_))))
        }),
{
    let parts = region.parts(expr);
    let outcomes = bare_outcomes_of(types, ctx.scope.levels@, parts, ctx.chain);
    if let DispatchView::Resolved { function, wrap_indices } = resolution_in(
        ctx,
        types,
        region,
        expr,
    ) {
        let (call, grown) = wrapped_expr(region, expr, outcomes, wrap_indices);
        let call_parts = grown.parts(call);
        delivery_keeps_nodes(grown, call_parts, spliced_cells(call_parts), call_parts.len());
        assert(names_by_value(
            types,
            ctx.scope.levels@,
            ctx.chain,
            parts,
            call_parts,
            wrap_indices,
        ));
    }
}

/// Delivering the slots of a call stores objects and changes nothing else.
pub proof fn delivery_keeps_nodes(
    region: RegionView,
    parts: Seq<Spanned>,
    cells: Seq<Option<Carried>>,
    upto: nat,
)
    requires
        upto <= cells.len(),
    ensures
        delivered(region, parts, cells, upto).region.nodes == region.nodes,
        region.objects.is_prefix_of(delivered(region, parts, cells, upto).region.objects),
        delivered(region, parts, cells, upto).cells.len() == cells.len(),
    decreases upto,
{
    if upto > 0 {
        delivery_keeps_nodes(region, parts, cells, (upto - 1) as nat);
        let earlier = delivered(region, parts, cells, (upto - 1) as nat).region.objects;
        let all = delivered(region, parts, cells, upto).region.objects;
        assert(region.objects =~= earlier.take(region.objects.len() as int));
        assert(region.objects =~= all.take(region.objects.len() as int));
    }
}

/// How many of the first `upto` elements of a signature are parameters.
pub open spec fn parameters_before(elements: Seq<SignatureElement>, upto: int) -> int
    decreases upto,
{
    if upto <= 0 {
        0
    } else if elements[upto - 1] is Argument {
        parameters_before(elements, upto - 1) + 1
    } else {
        parameters_before(elements, upto - 1)
    }
}

/// Whether an object is what a literal of the program denotes.
pub open spec fn denotes(literal: KLiteral, object: ObjectView) -> bool {
    match literal {
        KLiteral::Number(bits) => object == ObjectView::Number(bits),
        KLiteral::Str(text) => object == ObjectView::Str(text),
        KLiteral::Bool(b) => object == ObjectView::Bool(b),
        KLiteral::Null => object == ObjectView::Null,
    }
}

/// Whether `argument` is the value of a slot: the cell that is spliced there, or a new object for a
/// literal or for quoted code.
pub open spec fn is_value_of(
    before: RegionView,
    after: RegionView,
    part: WorkingPart,
    argument: Carried,
) -> bool {
    match part {
        WorkingPart::Spliced { cell, .. } => argument == cell,
        WorkingPart::Ast(ExpressionPart::Literal(literal)) => argument matches Carried::Object(at)
            && at.at >= before.objects.len() && denotes(literal, after.object(at)),
        WorkingPart::Ast(ExpressionPart::QuotedExpression(code)) => argument matches Carried::Object(
            at,
        ) && at.at >= before.objects.len() && after.object(at) == ObjectView::KExpression(code),
        _ => false,
    }
}

/// Once every slot of a call is delivered, each but the keywords has its own value.
pub proof fn deliveries_hold_slot_values(
    region: RegionView,
    parts: Seq<Spanned>,
    upto: nat,
    later: RegionView,
    i: int,
)
    requires
        upto <= parts.len(),
        region.objects.len() + parts.len() <= usize::MAX,
        delivered(region, parts, spliced_cells(parts), upto).error is None,
        delivered(region, parts, spliced_cells(parts), upto).region.objects.is_prefix_of(
            later.objects,
        ),
        0 <= i < upto,
        !(parts[i].value matches WorkingPart::Ast(ExpressionPart::Keyword(_))),
    ensures
        delivered(region, parts, spliced_cells(parts), upto).cells[i] matches Some(cell)
            && is_value_of(region, later, parts[i].value, cell),
        delivered(region, parts, spliced_cells(parts), upto).region.objects.len()
            <= region.objects.len() + upto,
    decreases upto,
{
    let cells = spliced_cells(parts);
    let at = (upto - 1) as int;
    let earlier = delivered(region, parts, cells, at as nat);
    let all = delivered(region, parts, cells, upto);
    delivery_keeps_nodes(region, parts, cells, at as nat);
    delivery_grows_slowly(region, parts, cells, at as nat);
    assert(earlier.error is None);
    assert(earlier.region.objects.is_prefix_of(all.region.objects)) by {
        assert(earlier.region.objects =~= all.region.objects.take(
            earlier.region.objects.len() as int,
        ));
    }
    assert(earlier.region.objects.is_prefix_of(later.objects)) by {
        assert(earlier.region.objects =~= later.objects.take(earlier.region.objects.len() as int));
    }
    if i < at {
        deliveries_hold_slot_values(region, parts, at as nat, later, i);
    } else {
        delivery_leaves_later_cells(region, parts, cells, at as nat, i);
        if all.region.objects.len() > earlier.region.objects.len() {
            let place = earlier.region.objects.len() as int;
            assert(all.region.objects[place] == later.objects[place]);
        }
    }
}

proof fn delivery_grows_slowly(
    region: RegionView,
    parts: Seq<Spanned>,
    cells: Seq<Option<Carried>>,
    upto: nat,
)
    ensures
        delivered(region, parts, cells, upto).region.objects.len() <= region.objects.len() + upto,
    decreases upto,
{
    if upto > 0 {
        delivery_grows_slowly(region, parts, cells, (upto - 1) as nat);
    }
}

proof fn delivery_leaves_later_cells(
    region: RegionView,
    parts: Seq<Spanned>,
    cells: Seq<Option<Carried>>,
    upto: nat,
    i: int,
)
    requires
        upto <= i < cells.len(),
    ensures
        delivered(region, parts, cells, upto).cells[i] == cells[i],
    decreases upto,
{
    if upto > 0 {
        delivery_leaves_later_cells(region, parts, cells, (upto - 1) as nat, i);
        delivery_keeps_nodes(region, parts, cells, (upto - 1) as nat);
    }
}

proof fn parameters_line_up(
    elements: Seq<SignatureElement>,
    cells: Seq<Option<Carried>>,
    upto: int,
)
    requires
        0 <= upto <= elements.len(),
        elements.len() == cells.len(),
        elements.len() <= usize::MAX,
        forall|i: int|
            0 <= i < elements.len() && #[trigger] elements[i] is Argument ==> cells[i] is Some,
    ensures
        ({
            let arguments = parameter_cells(part_slots(elements.take(upto)), cells);
            &&& arguments.len() == parameters_before(elements, upto)
            &&& forall|i: int|
                0 <= i < upto && #[trigger] elements[i] is Argument ==> 0 <= parameters_before(
                    elements,
                    i,
                ) < arguments.len() && arguments[parameters_before(elements, i)] == cells[i]->0
        }),
    decreases upto,
{
    if upto > 0 {
        let at = upto - 1;
        parameters_line_up(elements, cells, at);
        assert(elements.take(upto).drop_last() =~= elements.take(at));
        let earlier = part_slots(elements.take(at));
        if elements[at] is Argument {
            assert(earlier.push(at as usize).drop_last() =~= earlier);
            let before = parameter_cells(earlier, cells);
            let arguments = parameter_cells(part_slots(elements.take(upto)), cells);
            assert(arguments == before.push(cells[at]->0));
            assert forall|i: int|
                0 <= i < upto && #[trigger] elements[i] is Argument implies 0 <= parameters_before(
                elements,
                i,
            ) < arguments.len() && arguments[parameters_before(elements, i)] == cells[i]->0 by {
                if i < at {
                    assert(before[parameters_before(elements, i)] == cells[i]->0);
                }
            }
        }
    } else {
        assert(elements.take(0) =~= Seq::<SignatureElement>::empty());
    }
}

/// A body of user code is entered with exactly one argument per parameter: the argument of the
/// parameter at slot `i` is the value in slot `i` of the call, and it comes behind the arguments of
/// all parameters in front of it. The call goes under the scope that the callable captured.
pub proof fn bodies_are_entered_with_the_slots_of_the_call(
    ctx: &DecideCtx,
    types: &TypeRegistry,
    region: RegionView,
    picked: FnId,
    expr: ExprId,
)
    requires
        region.objects.len() + region.parts(expr).len() <= usize::MAX,
        forall|i: int|
            0 <= i < region.parts(expr).len() && i < ctx.functions.signature(picked).len()
                && #[trigger] ctx.functions.signature(picked)[i] is Argument ==> !(region.parts(
                expr,
            )[i].value matches WorkingPart::Ast(ExpressionPart::Keyword(_))),
    ensures
        ({
            let (outcome, after) = entered(ctx, types, region, picked, expr);
            let elements = ctx.functions.signature(picked);
            let parts = region.parts(expr);
            outcome matches OutcomeView::Enter(user) ==> {
                &&& user.function == picked
                &&& user.expr == expr
                &&& user.obligation == ctx.obligation
                &&& user.outer == ctx.functions.captured(picked)
                &&& elements.len() == parts.len()
                &&& user.arguments.len() == parameters_before(elements, elements.len() as int)
                &&& forall|i: int|
                    0 <= i < elements.len() && #[trigger] elements[i] is Argument ==> 0
                        <= parameters_before(elements, i) < user.arguments.len() && is_value_of(
                        region,
                        after,
                        parts[i].value,
                        user.arguments[parameters_before(elements, i)],
                    )
            }
        }),
{
    let elements = ctx.functions.signature(picked);
    let parts = region.parts(expr);
    let cells = spliced_cells(parts);
    let all = delivered(region, parts, cells, parts.len());
    let (outcome, after) = entered(ctx, types, region, picked, expr);
    if outcome is Enter {
        delivery_keeps_nodes(region, parts, cells, parts.len());
        assert(all.region.objects =~= all.region.objects.take(all.region.objects.len() as int));
        assert forall|i: int|
            0 <= i < elements.len() && #[trigger] elements[i] is Argument implies all.cells[i] matches Some(
            cell,
        ) && is_value_of(region, after, parts[i].value, cell) by {
            deliveries_hold_slot_values(region, parts, parts.len(), after, i);
        }
        assert(elements.len() <= usize::MAX);
        parameters_line_up(elements, all.cells, elements.len() as int);
        assert(elements.take(elements.len() as int) =~= elements);
    }
}

/// The results of staged work fill the very slots that they were staged for: slot `slots[k]` holds
/// result `k`, and no other slot changes.
pub proof fn results_fill_their_own_slots(
    ctx: &DecideCtx,
    types: &TypeRegistry,
    region: RegionView,
    expr: ExprId,
    slots: Seq<usize>,
    picked: Option<FnId>,
    results: Seq<Carried>,
    k: int,
)
    requires
        region.nodes.len() < usize::MAX,
        slots.no_duplicates(),
        slots.len() == results.len(),
        0 <= k < slots.len(),
        forall|j: int| 0 <= j < slots.len() ==> #[trigger] slots[j] < region.parts(expr).len(),
    ensures
        ({
            let (outcome, after) = subs_landed(ctx, types, region, expr, slots, picked, results);
            let filled = after.parts(ExprId { at: region.nodes.len() as usize });
            &&& filled.len() == region.parts(expr).len()
            &&& filled[slots[k] as int].value matches WorkingPart::Spliced { cell, .. } && cell
                == results[k]
            &&& filled[slots[k] as int].span == region.parts(expr)[slots[k] as int].span
            &&& forall|i: int|
                0 <= i < filled.len() && i <= usize::MAX && !slots.contains(i as usize)
                    ==> #[trigger] filled[i] == region.parts(expr)[i]
            &&& picked is None ==> (outcome matches OutcomeView::Continue {
                work: WorkView::Keyworded(next),
                obligation,
                ..
            } && next.at == region.nodes.len() && obligation == ctx.obligation)
            &&& picked is Some ==> (call_of(outcome) matches Some((function, call))
                ==> Some(function) == picked && call.at == region.nodes.len())
        }),
{
    result_is_its_own(slots, results, k);
    let grown = region.with_node(
        filled_parts(region.parts(expr), slots, results),
        region.meta(expr),
    );
    let call = region.next_node();
    let parts = grown.parts(call);
    delivery_keeps_nodes(grown, parts, spliced_cells(parts), parts.len());
    assert forall|i: int|
        0 <= i < parts.len() && i <= usize::MAX && !slots.contains(i as usize) implies
        #[trigger] parts[i] == region.parts(expr)[i] by {
        others_have_none(slots, results, i);
    }
}

proof fn result_is_its_own(slots: Seq<usize>, results: Seq<Carried>, k: int)
    requires
        slots.no_duplicates(),
        slots.len() == results.len(),
        0 <= k < slots.len(),
    ensures
        result_for(slots, results, slots[k] as int) == Some(results[k]),
    decreases slots.len(),
{
    if k > 0 {
        assert(slots[0] != slots[k]);
        assert(slots.drop_first().no_duplicates()) by {
            assert forall|a: int, b: int|
                0 <= a < slots.drop_first().len() && 0 <= b < slots.drop_first().len() && a
                    != b implies slots.drop_first()[a] != slots.drop_first()[b] by {
                assert(slots[a + 1] != slots[b + 1]);
            }
        }
        result_is_its_own(slots.drop_first(), results.drop_first(), k - 1);
    }
}

proof fn others_have_none(slots: Seq<usize>, results: Seq<Carried>, i: int)
    requires
        0 <= i <= usize::MAX,
        !slots.contains(i as usize),
    ensures
        result_for(slots, results, i) is None,
    decreases slots.len(),
{
    if slots.len() > 0 && results.len() > 0 {
        assert(slots[0] != i as usize);
        assert forall|j: int| 0 <= j < slots.drop_first().len() implies slots.drop_first()[j]
            != i as usize by {
            assert(slots[j + 1] != i as usize);
        }
        others_have_none(slots.drop_first(), results.drop_first(), i);
    }
}

/// Whether the value in a slot of a call is one that its parameter refuses.
pub open spec fn refused_at(
    types: &TypeRegistry,
    region: RegionView,
    elements: Seq<SignatureElement>,
    parts: Seq<Spanned>,
    i: int,
) -> bool {
    elements[i] matches SignatureElement::Argument(arg)
        && parts[i].value matches WorkingPart::Spliced { cell, .. } && !types.accepts(
        region,
        arg.ktype,
        cell,
    )
}

proof fn first_error_is_first_refusal(
    types: &TypeRegistry,
    labels: &Labels,
    region: RegionView,
    elements: Seq<SignatureElement>,
    parts: Seq<Spanned>,
    from: int,
)
    requires
        0 <= from <= elements.len(),
        elements.len() == parts.len(),
    ensures
        match first_slot_error(types, labels, region, elements, parts, from) {
            None => forall|i: int|
                from <= i < elements.len() ==> !#[trigger] refused_at(
                    types,
                    region,
                    elements,
                    parts,
                    i,
                ),
            Some(error) => exists|i: int|
                {
                    &&& from <= i < elements.len()
                    &&& #[trigger] refused_at(types, region, elements, parts, i)
                    &&& forall|j: int|
                        from <= j < i ==> !#[trigger] refused_at(types, region, elements, parts, j)
                    &&& error.frames.len() == 0
                    &&& error.kind matches ErrorKindView::TypeMismatch { arg, expected, got }
                        && arg == labels.text_of(elements[i]->Argument_0.name) && expected
                        == types.name_text(labels, elements[i]->Argument_0.ktype) && got
                        == carried_text(
                        types,
                        labels,
                        region,
                        parts[i].value->Spliced_cell,
                    )
                },
        },
    decreases elements.len() - from,
{
    if from < elements.len() {
        first_error_is_first_refusal(types, labels, region, elements, parts, from + 1);
        if refused_at(types, region, elements, parts, from) {
            let error = first_slot_error(types, labels, region, elements, parts, from)->0;
            assert(error.kind is TypeMismatch);
        } else {
            assert(first_slot_error(types, labels, region, elements, parts, from)
                == first_slot_error(types, labels, region, elements, parts, from + 1));
        }
    }
}

/// A call is refused exactly when its slots are not as many as the elements of the signature, or
/// some parameter does not take the value in its slot; the error names the first such parameter, its
/// type, and the type of what it got.
pub proof fn calls_are_checked_slot_by_slot(
    types: &TypeRegistry,
    labels: &Labels,
    region: RegionView,
    elements: Seq<SignatureElement>,
    parts: Seq<Spanned>,
)
    ensures
        call_error(types, labels, region, elements, parts) is None <==> elements.len()
            == parts.len() && forall|i: int|
            0 <= i < elements.len() ==> !#[trigger] refused_at(types, region, elements, parts, i),
        elements.len() != parts.len() && elements.len() <= usize::MAX && parts.len() <= usize::MAX
            ==> (call_error(types, labels, region, elements, parts) matches Some(error)
            && error.kind matches ErrorKindView::ArityMismatch { expected, got } && expected
            == elements.len() && got == parts.len()),
        elements.len() == parts.len() ==> (call_error(
            types,
            labels,
            region,
            elements,
            parts,
        ) matches Some(error) ==> exists|i: int|
            {
                &&& 0 <= i < elements.len()
                &&& #[trigger] refused_at(types, region, elements, parts, i)
                &&& forall|j: int|
                    0 <= j < i ==> !#[trigger] refused_at(types, region, elements, parts, j)
                &&& error.kind matches ErrorKindView::TypeMismatch { arg, expected, got } && arg
                    == labels.text_of(elements[i]->Argument_0.name) && expected == types.name_text(
                    labels,
                    elements[i]->Argument_0.ktype,
                ) && got == carried_text(types, labels, region, parts[i].value->Spliced_cell)
            }),
{
    if elements.len() == parts.len() {
        first_error_is_first_refusal(types, labels, region, elements, parts, 0);
    }
}

/// Whether a slot of a call is ready to be bound: a keyword, a value, a literal or quoted code.
pub open spec fn is_ready(part: WorkingPart) -> bool {
    match part {
        WorkingPart::Spliced { .. } => true,
        WorkingPart::Ast(ast) => ast is Keyword || ast is Literal || ast is QuotedExpression,
        _ => false,
    }
}

proof fn ready_slots_deliver(
    region: RegionView,
    parts: Seq<Spanned>,
    cells: Seq<Option<Carried>>,
    upto: nat,
)
    ensures
        delivered(region, parts, cells, upto).error is None <==> forall|i: int|
            0 <= i < upto ==> is_ready((#[trigger] parts[i]).value),
    decreases upto,
{
    if upto > 0 {
        let at = (upto - 1) as int;
        ready_slots_deliver(region, parts, cells, at as nat);
        assert(is_ready(parts[at].value) || !is_ready(parts[at].value));
    }
}

/// A body is entered exactly when the call fits the signature and every slot is ready to be bound;
/// otherwise the call fails.
pub proof fn bodies_are_entered_unless_refused(
    ctx: &DecideCtx,
    types: &TypeRegistry,
    region: RegionView,
    picked: FnId,
    expr: ExprId,
)
    ensures
        ({
            let (outcome, after) = entered(ctx, types, region, picked, expr);
            let parts = region.parts(expr);
            let error = call_error(
                types,
                ctx.labels,
                region,
                ctx.functions.signature(picked),
                parts,
            );
            &&& outcome is Enter <==> error is None && forall|i: int|
                0 <= i < parts.len() ==> is_ready((#[trigger] parts[i]).value)
            &&& !(outcome is Enter) ==> outcome is Done && outcome->Done_0 is Err
            &&& error matches Some(e) ==> (outcome, after) == (OutcomeView::Done(Err(e)), region)
        }),
{
    let parts = region.parts(expr);
    ready_slots_deliver(region, parts, spliced_cells(parts), parts.len());
}

} // verus!
