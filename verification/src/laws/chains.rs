//! Laws of operator chains: however a chain is reduced, its operands and operators go in as they
//! stand, each in its own place and each exactly once.

use crate::ast::{is_chain, keywords_of, ExpressionPart, Span, Spanned, WorkingPart};
use crate::decide::operator_chain as decided;
use crate::decide::operator_chain::{pairs_built, parsed_operands};
use crate::decide::DecideCtx;
use crate::dispatch::operator_chain as dispatched;
use crate::dispatch::operator_chain::CombinerArguments;
use crate::dispatch::outcome as slots;
use crate::dispatch::outcome::{Combiner, DepView, Work};
use crate::outcome::{
    own_dispatch, ContinuationView, Dep, DepPlacement, DepRequest, FinishView, Obligation,
    OutcomeView, ParkDepsView, WorkView,
};
use crate::region::{NodeMeta, RegionView};
use crate::scope::{group_in, FoldDirection, LexicalFrame, ReductionMode, ScopeLevel};
use crate::symbol::{Labels, Symbol};
use crate::value::{Carried, ExprId};
use vstd::prelude::*;

verus! {

/// Whether `expr` calls the last operator of `parts` on everything before it, nested the same way,
/// and on the last operand.
pub open spec fn nests_left(region: RegionView, expr: ExprId, parts: Seq<Spanned>) -> bool
    decreases parts.len(),
{
    let own = region.parts(expr);
    let end = parts.len() as int;
    &&& parts.len() >= 3
    &&& own.len() == 3
    &&& own[1] == parts[end - 2]
    &&& own[2] == parts[end - 1]
    &&& if parts.len() == 3 {
        own[0] == parts[0]
    } else {
        own[0].value matches WorkingPart::Expression(inner) && nests_left(
            region,
            inner,
            parts.take(end - 2),
        )
    }
}

/// Whether `expr` calls the first operator of `parts` on the first operand and on everything after
/// it, nested the same way.
pub open spec fn nests_right(region: RegionView, expr: ExprId, parts: Seq<Spanned>) -> bool
    decreases parts.len(),
{
    let own = region.parts(expr);
    &&& parts.len() >= 3
    &&& own.len() == 3
    &&& own[0] == parts[0]
    &&& own[1] == parts[1]
    &&& if parts.len() == 3 {
        own[2] == parts[2]
    } else {
        own[2].value matches WorkingPart::Expression(inner) && nests_right(
            region,
            inner,
            parts.skip(2),
        )
    }
}

/// Whether `expr` calls the first operator on the list of all operands.
pub open spec fn lists_operands(region: RegionView, expr: ExprId, parts: Seq<Spanned>) -> bool {
    let own = region.parts(expr);
    &&& own.len() == 2
    &&& own[0] == parts[1]
    &&& own[1].value matches WorkingPart::Ast(ExpressionPart::ListLiteral(list)) && {
        &&& 2 * region.list(list).len() == parts.len() + 1
        &&& forall|i: int|
            0 <= i < region.list(list).len() ==> WorkingPart::Ast(#[trigger] region.list(list)[i])
                == parts[2 * i].value
    }
}

/// Whether `exprs` are one expression per operand, in order, each made of that operand alone.
pub open spec fn isolates_operands(
    region: RegionView,
    exprs: Seq<ExprId>,
    parts: Seq<Spanned>,
) -> bool {
    &&& 2 * exprs.len() == parts.len() + 1
    &&& forall|i: int|
        0 <= i < exprs.len() ==> {
            let own = region.parts(#[trigger] exprs[i]);
            own.len() == 1 && own[0] == parts[2 * i]
        }
}

/// Whether `operators` are the operators of `parts`, and `spans` where its operands stand.
pub open spec fn keeps_operators(
    parts: Seq<Spanned>,
    operators: Seq<Spanned>,
    spans: Seq<Option<Span>>,
) -> bool {
    &&& 2 * operators.len() + 1 == parts.len()
    &&& spans.len() == operators.len() + 1
    &&& forall|i: int| 0 <= i < operators.len() ==> #[trigger] operators[i] == parts[2 * i + 1]
    &&& forall|i: int| 0 <= i < spans.len() ==> #[trigger] spans[i] == parts[2 * i].span
}

/// What stands between two pairs: an operator, or a function that takes both by name.
pub enum Joint {
    Keyword(Symbol),
    Call { function: Symbol, names: CombinerArguments },
}

/// Whether `expr` joins `left` and `right`, in this order.
pub open spec fn joins(
    region: RegionView,
    joint: Joint,
    expr: ExprId,
    left: ExprId,
    right: ExprId,
) -> bool {
    let own = region.parts(expr);
    match joint {
        Joint::Keyword(symbol) => {
            &&& own.len() == 3
            &&& own[0].value == WorkingPart::Expression(left)
            &&& own[1].value == WorkingPart::Ast(ExpressionPart::Keyword(symbol))
            &&& own[2].value == WorkingPart::Expression(right)
        },
        Joint::Call { function, names } => {
            &&& own.len() == 2
            &&& own[0].value == WorkingPart::Ast(ExpressionPart::Identifier(function))
            &&& own[1].value matches WorkingPart::Ast(ExpressionPart::RecordLiteral(record)) && {
                let args = region.record(record);
                &&& args.len() == 2
                &&& args[0].name == names.left
                &&& args[0].value == ExpressionPart::Expression(left)
                &&& args[1].name == names.right
                &&& args[1].value == ExpressionPart::Expression(right)
            }
        },
    }
}

/// Whether `expr` joins everything before the last pair, joined the same way, with the last pair.
pub open spec fn joins_left(
    region: RegionView,
    joint: Joint,
    expr: ExprId,
    pairs: Seq<ExprId>,
) -> bool
    decreases pairs.len(),
{
    if pairs.len() <= 1 {
        pairs.len() == 1 && expr == pairs[0]
    } else {
        exists|inner: ExprId|
            joins_left(region, joint, inner, pairs.drop_last()) && #[trigger] joins(
                region,
                joint,
                expr,
                inner,
                pairs.last(),
            )
    }
}

/// Whether `expr` joins the first pair with everything after it, joined the same way.
pub open spec fn joins_right(
    region: RegionView,
    joint: Joint,
    expr: ExprId,
    pairs: Seq<ExprId>,
) -> bool
    decreases pairs.len(),
{
    if pairs.len() <= 1 {
        pairs.len() == 1 && expr == pairs[0]
    } else {
        exists|inner: ExprId|
            joins_right(region, joint, inner, pairs.drop_first()) && #[trigger] joins(
                region,
                joint,
                expr,
                pairs[0],
                inner,
            )
    }
}

/// Whether `expr` joins the pairs in the given direction.
pub open spec fn joins_pairs(
    region: RegionView,
    joint: Joint,
    direction: FoldDirection,
    expr: ExprId,
    pairs: Seq<ExprId>,
) -> bool {
    match direction {
        FoldDirection::Left => joins_left(region, joint, expr, pairs),
        FoldDirection::Right => joins_right(region, joint, expr, pairs),
    }
}

/// Whether a slot holds the value of an operand, where that operand stood.
pub open spec fn holds_result(slot: Spanned, cell: Carried, span: Option<Span>) -> bool {
    slot.span == span && slot.value == (WorkingPart::Spliced { cell, from_name: None })
}

/// Whether pair number `i` calls operator number `i` of the chain on results `i` and `i + 1`, for
/// every operator.
pub open spec fn pairs_up(
    region: RegionView,
    pairs: Seq<ExprId>,
    operators: Seq<Spanned>,
    spans: Seq<Option<Span>>,
    results: Seq<Carried>,
) -> bool {
    &&& pairs.len() == operators.len()
    &&& forall|i: int|
        0 <= i < operators.len() ==> {
            let own = region.parts(#[trigger] pairs[i]);
            &&& own.len() == 3
            &&& holds_result(own[0], results[i], spans[i])
            &&& own[1] == operators[i]
            &&& holds_result(own[2], results[i + 1], spans[i + 1])
        }
}

proof fn prefix_of_later<A>(first: Seq<A>, second: Seq<A>, third: Seq<A>)
    requires
        first.is_prefix_of(second),
        second.is_prefix_of(third),
    ensures
        first.is_prefix_of(third),
{
    assert(first =~= third.take(first.len() as int)) by {
        assert forall|i: int| 0 <= i < first.len() implies first[i] == third[i] by {
            assert(first[i] == second[i]);
            assert(second[i] == third[i]);
        }
    }
}

proof fn pushed_is_longer<A>(items: Seq<A>, item: A)
    ensures
        items.is_prefix_of(items.push(item)),
{
    assert(items =~= items.push(item).take(items.len() as int));
}

proof fn left_nest(
    region: RegionView,
    parts: Seq<Spanned>,
    meta: NodeMeta,
    count: nat,
    later: RegionView,
)
    requires
        1 <= count,
        2 * count < parts.len(),
        region.nodes.len() + count <= usize::MAX,
        decided::nested_left(region, parts, meta, count).1.nodes.is_prefix_of(later.nodes),
    ensures
        decided::nested_left(region, parts, meta, count).1.nodes.len() == region.nodes.len() + count,
        nests_left(
            later,
            decided::nested_left(region, parts, meta, count).0,
            parts.take(2 * count as int + 1),
        ),
    decreases count,
{
    let (acc, grown) = decided::nested_left(region, parts, meta, count);
    let all = parts.take(2 * count as int + 1);
    if count == 1 {
        assert(grown.nodes[region.nodes.len() as int] == later.nodes[region.nodes.len() as int]);
    } else {
        let (inner, before) = decided::nested_left(region, parts, meta, (count - 1) as nat);
        pushed_is_longer(before.nodes, grown.nodes.last());
        prefix_of_later(before.nodes, grown.nodes, later.nodes);
        left_nest(region, parts, meta, (count - 1) as nat, later);
        assert(grown.nodes[before.nodes.len() as int] == later.nodes[before.nodes.len() as int]);
        assert(all.take(2 * count - 1) =~= parts.take(2 * count - 1));
    }
}

proof fn right_nest(
    region: RegionView,
    parts: Seq<Spanned>,
    meta: NodeMeta,
    count: nat,
    later: RegionView,
)
    requires
        1 <= count,
        2 * count < parts.len(),
        region.nodes.len() + count <= usize::MAX,
        decided::nested_right(region, parts, meta, count).1.nodes.is_prefix_of(later.nodes),
    ensures
        decided::nested_right(region, parts, meta, count).1.nodes.len() == region.nodes.len()
            + count,
        nests_right(
            later,
            decided::nested_right(region, parts, meta, count).0,
            parts.skip(parts.len() - 1 - 2 * count),
        ),
    decreases count,
{
    let (acc, grown) = decided::nested_right(region, parts, meta, count);
    let end = parts.len() as int;
    let all = parts.skip(end - 1 - 2 * count);
    if count == 1 {
        assert(grown.nodes[region.nodes.len() as int] == later.nodes[region.nodes.len() as int]);
    } else {
        let (inner, before) = decided::nested_right(region, parts, meta, (count - 1) as nat);
        pushed_is_longer(before.nodes, grown.nodes.last());
        prefix_of_later(before.nodes, grown.nodes, later.nodes);
        right_nest(region, parts, meta, (count - 1) as nat, later);
        assert(grown.nodes[before.nodes.len() as int] == later.nodes[before.nodes.len() as int]);
        assert(all.skip(2) =~= parts.skip(end + 1 - 2 * count));
    }
}

proof fn requests_isolate(region: RegionView, parts: Seq<Spanned>, meta: NodeMeta) -> (exprs: Seq<
    ExprId,
>)
    requires
        parts.len() % 2 == 1,
        region.nodes.len() + parts.len() <= usize::MAX,
    ensures
        ({
            let (requests, grown) = decided::operand_requests(
                region,
                decided::operands_of(parts),
                meta,
            );
            &&& isolates_operands(grown, exprs, parts)
            &&& requests.len() == exprs.len()
            &&& forall|i: int|
                0 <= i < exprs.len() ==> #[trigger] requests[i] == (DepRequest::Dispatch {
                    expr: exprs[i],
                    placement: DepPlacement::OwnScope,
                })
        }),
{
    let operands = decided::operands_of(parts);
    decided::operands_are_evaluated_once(region, operands, meta);
    let (requests, grown) = decided::operand_requests(region, operands, meta);
    let exprs = Seq::new(
        operands.len(),
        |i: int| ExprId { at: (region.nodes.len() + i) as usize },
    );
    assert forall|i: int| 0 <= i < exprs.len() implies ({
        let own = grown.parts(#[trigger] exprs[i]);
        own.len() == 1 && own[0] == parts[2 * i]
    }) by {
        assert(requests[i] == own_dispatch(exprs[i]));
    }
    exprs
}

/// A chain that one group declares goes on the way the group says. Folded, it becomes nested calls
/// that hold the parts of the chain as they stand, under the obligation of the slot. Taken as a
/// whole, it becomes one call on the list of its operands. Taken pair by pair, it waits for each
/// operand once, in order, and keeps its operators for when they landed.
pub proof fn chains_are_reduced_as_their_group_says(
    ctx: &DecideCtx,
    region: RegionView,
    expr: ExprId,
)
    requires
        is_chain(region.parts(expr)),
        region.nodes.len() + region.parts(expr).len() <= usize::MAX,
        region.lists.len() < usize::MAX,
    ensures
        ({
            let parts = region.parts(expr);
            let operators = keywords_of(parts);
            let (outcome, after) = decided::chain_decided(ctx, region, expr);
            let group = group_in(ctx.scope.levels@, operators, ctx.chain);
            &&& group is None ==> !(outcome is Continue) && after == region
            &&& group is Some && !group->0.covers(operators) ==> outcome is Done
                && outcome->Done_0 is Err && after == region
            &&& group is Some && group->0.covers(operators) ==> match group->0.mode {
                ReductionMode::Pairwise { combiner, direction } => exists|exprs: Seq<ExprId>|
                    {
                        &&& #[trigger] isolates_operands(after, exprs, parts)
                        &&& outcome is Park
                        &&& outcome->deps matches ParkDepsView::List(deps) && {
                            &&& deps.len() == exprs.len()
                            &&& forall|i: int|
                                0 <= i < deps.len() ==> #[trigger] deps[i] == Dep::Request(
                                    DepRequest::Dispatch {
                                        expr: exprs[i],
                                        placement: DepPlacement::OwnScope,
                                    },
                                )
                        }
                        &&& outcome->Park_error_frame matches Some(frame) && frame.expr == Some(
                            expr,
                        ) && frame.label is OperatorChain
                        &&& outcome->continuation matches ContinuationView::Finish(
                            FinishView::Pairwise {
                                operators: kept,
                                spans,
                                combiner: by,
                                direction: way,
                                chain,
                            },
                        ) && keeps_operators(parts, kept, spans) && by == combiner && way
                            == direction && chain == expr
                    },
                mode => {
                    &&& outcome is Continue
                    &&& outcome->obligation == ctx.obligation
                    &&& outcome->frame is Inherit
                    &&& outcome->Continue_chain is Unchanged
                    &&& outcome->block_entry is Stay
                    &&& outcome->work matches WorkView::Dispatch(call) && match mode {
                        ReductionMode::FoldLeft => nests_left(after, call, parts),
                        ReductionMode::FoldRight => nests_right(after, call, parts),
                        _ => parsed_operands(parts) ==> lists_operands(after, call, parts),
                    }
                },
            }
        }),
{
    let parts = region.parts(expr);
    let meta = region.meta(expr);
    let count = (parts.len() / 2) as nat;
    assert(parts.len() == 2 * count + 1);
    left_nest(region, parts, meta, count, decided::nested_left(region, parts, meta, count).1);
    right_nest(region, parts, meta, count, decided::nested_right(region, parts, meta, count).1);
    assert(parts.take(2 * count as int + 1) =~= parts);
    assert(parts.skip(parts.len() - 1 - 2 * count) =~= parts);
    if parsed_operands(parts) {
        listed_operands(region, expr);
    }
    let exprs = requests_isolate(region, parts, meta);
    let (outcome, after) = decided::chain_decided(ctx, region, expr);
    if let OutcomeView::Park { deps: ParkDepsView::List(deps), .. } = outcome {
        if group_in(ctx.scope.levels@, keywords_of(parts), ctx.chain) is Some {
            assert(isolates_operands(after, exprs, parts));
            assert forall|i: int| 0 <= i < deps.len() implies #[trigger] deps[i] == Dep::Request(
                own_dispatch(exprs[i]),
            ) by {
                assert(decided::operand_requests(region, decided::operands_of(parts), meta).0[i]
                    == own_dispatch(exprs[i]));
            }
        }
    }
    assert(keeps_operators(
        parts,
        decided::operators_of(parts),
        decided::spans_of(decided::operands_of(parts)),
    ));
}

proof fn listed_operands(region: RegionView, expr: ExprId)
    requires
        is_chain(region.parts(expr)),
        parsed_operands(region.parts(expr)),
        region.nodes.len() < usize::MAX,
        region.lists.len() < usize::MAX,
    ensures
        lists_operands(
            decided::list_call(region, expr).1,
            decided::list_call(region, expr).0,
            region.parts(expr),
        ),
{
    let parts = region.parts(expr);
    let (call, grown) = decided::list_call(region, expr);
    let list = crate::ast::ListId { at: region.lists.len() as usize };
    assert(grown.list(list) == decided::list_items(parts));
    assert forall|i: int| 0 <= i < grown.list(list).len() implies WorkingPart::Ast(
        #[trigger] grown.list(list)[i],
    ) == parts[2 * i].value by {
        assert(decided::operands_of(parts)[i] == parts[2 * i]);
    }
}

proof fn built_pairs(
    region: RegionView,
    meta: NodeMeta,
    operators: Seq<Spanned>,
    spans: Seq<Option<Span>>,
    results: Seq<Carried>,
    count: nat,
)
    requires
        count <= operators.len(),
        region.nodes.len() + count <= usize::MAX,
    ensures
        ({
            let (pairs, grown) = pairs_built(region, meta, operators, spans, results, count);
            &&& pairs.len() == count
            &&& grown.nodes.len() == region.nodes.len() + count
            &&& region.nodes.is_prefix_of(grown.nodes)
            &&& forall|i: int|
                0 <= i < count ==> {
                    let own = grown.parts(#[trigger] pairs[i]);
                    &&& pairs[i].at == region.nodes.len() + i
                    &&& own.len() == 3
                    &&& holds_result(own[0], results[i], spans[i])
                    &&& own[1] == operators[i]
                    &&& holds_result(own[2], results[i + 1], spans[i + 1])
                }
        }),
    decreases count,
{
    let (pairs, grown) = pairs_built(region, meta, operators, spans, results, count);
    if count > 0 {
        let (earlier, before) = pairs_built(
            region,
            meta,
            operators,
            spans,
            results,
            (count - 1) as nat,
        );
        built_pairs(region, meta, operators, spans, results, (count - 1) as nat);
        pushed_is_longer(before.nodes, grown.nodes.last());
        prefix_of_later(region.nodes, before.nodes, grown.nodes);
        assert forall|i: int| 0 <= i < count implies ({
            let own = grown.parts(#[trigger] pairs[i]);
            &&& pairs[i].at == region.nodes.len() + i
            &&& own.len() == 3
            &&& holds_result(own[0], results[i], spans[i])
            &&& own[1] == operators[i]
            &&& holds_result(own[2], results[i + 1], spans[i + 1])
        }) by {
            if i < count - 1 {
                assert(pairs[i] == earlier[i]);
                assert(grown.parts(pairs[i]) == before.parts(pairs[i]));
            }
        }
    } else {
        assert(region.nodes =~= grown.nodes.take(region.nodes.len() as int));
    }
}

proof fn pairs_stay(
    before: RegionView,
    after: RegionView,
    pairs: Seq<ExprId>,
    operators: Seq<Spanned>,
    spans: Seq<Option<Span>>,
    results: Seq<Carried>,
)
    requires
        pairs_up(before, pairs, operators, spans, results),
        before.nodes.is_prefix_of(after.nodes),
        forall|i: int| 0 <= i < pairs.len() ==> (#[trigger] pairs[i]).at < before.nodes.len(),
    ensures
        pairs_up(after, pairs, operators, spans, results),
{
    assert forall|i: int| 0 <= i < operators.len() implies after.parts(#[trigger] pairs[i])
        == before.parts(pairs[i]) by {
        assert(after.nodes[pairs[i].at as int] == before.nodes[pairs[i].at as int]);
    }
}

proof fn joined_left(
    region: RegionView,
    combiner: Symbol,
    pairs: Seq<ExprId>,
    chain: ExprId,
    count: nat,
    later: RegionView,
)
    requires
        1 <= count <= pairs.len(),
        region.nodes.len() + count <= usize::MAX,
        decided::combined_left(region, combiner, pairs, chain, count).1.nodes.is_prefix_of(
            later.nodes,
        ),
    ensures
        ({
            let (acc, grown) = decided::combined_left(region, combiner, pairs, chain, count);
            &&& grown.nodes.len() == region.nodes.len() + count - 1
            &&& region.nodes.is_prefix_of(grown.nodes)
            &&& joins_left(later, Joint::Keyword(combiner), acc, pairs.take(count as int))
        }),
    decreases count,
{
    let (acc, grown) = decided::combined_left(region, combiner, pairs, chain, count);
    let own = pairs.take(count as int);
    if count > 1 {
        let (inner, before) = decided::combined_left(
            region,
            combiner,
            pairs,
            chain,
            (count - 1) as nat,
        );
        pushed_is_longer(before.nodes, grown.nodes.last());
        prefix_of_later(before.nodes, grown.nodes, later.nodes);
        joined_left(region, combiner, pairs, chain, (count - 1) as nat, later);
        prefix_of_later(region.nodes, before.nodes, grown.nodes);
        assert(grown.nodes[before.nodes.len() as int] == later.nodes[before.nodes.len() as int]);
        assert(own.drop_last() =~= pairs.take(count - 1));
        assert(joins(later, Joint::Keyword(combiner), acc, inner, own.last()));
    } else {
        assert(region.nodes =~= grown.nodes.take(region.nodes.len() as int));
    }
}

proof fn joined_right(
    region: RegionView,
    combiner: Symbol,
    pairs: Seq<ExprId>,
    chain: ExprId,
    count: nat,
    later: RegionView,
)
    requires
        1 <= count <= pairs.len(),
        region.nodes.len() + count <= usize::MAX,
        decided::combined_right(region, combiner, pairs, chain, count).1.nodes.is_prefix_of(
            later.nodes,
        ),
    ensures
        ({
            let (acc, grown) = decided::combined_right(region, combiner, pairs, chain, count);
            &&& grown.nodes.len() == region.nodes.len() + count - 1
            &&& region.nodes.is_prefix_of(grown.nodes)
            &&& joins_right(
                later,
                Joint::Keyword(combiner),
                acc,
                pairs.skip(pairs.len() - count),
            )
        }),
    decreases count,
{
    let (acc, grown) = decided::combined_right(region, combiner, pairs, chain, count);
    let own = pairs.skip(pairs.len() - count);
    if count > 1 {
        let (inner, before) = decided::combined_right(
            region,
            combiner,
            pairs,
            chain,
            (count - 1) as nat,
        );
        pushed_is_longer(before.nodes, grown.nodes.last());
        prefix_of_later(before.nodes, grown.nodes, later.nodes);
        joined_right(region, combiner, pairs, chain, (count - 1) as nat, later);
        prefix_of_later(region.nodes, before.nodes, grown.nodes);
        assert(grown.nodes[before.nodes.len() as int] == later.nodes[before.nodes.len() as int]);
        assert(own.drop_first() =~= pairs.skip(pairs.len() - (count - 1)));
        assert(joins(later, Joint::Keyword(combiner), acc, own[0], inner));
    } else {
        assert(region.nodes =~= grown.nodes.take(region.nodes.len() as int));
    }
}

/// When the operands of a chain landed, the slot goes on with its pairs, joined by the combiner in
/// the direction of the group. Pair number `i` is result `i`, operator `i` of the chain and result
/// `i + 1`, for every operator.
pub proof fn pairs_hold_the_operators_in_order(
    obligation: Option<Obligation>,
    region: RegionView,
    operators: Seq<Spanned>,
    spans: Seq<Option<Span>>,
    combiner: Symbol,
    direction: FoldDirection,
    chain: ExprId,
    results: Seq<Carried>,
)
    requires
        operators.len() > 0,
        spans.len() == operators.len() + 1,
        results.len() == operators.len() + 1,
        region.nodes.len() + 2 * operators.len() <= usize::MAX,
    ensures
        ({
            let (outcome, after) = decided::pairwise_landed(
                obligation,
                region,
                operators,
                spans,
                combiner,
                direction,
                chain,
                results,
            );
            &&& region.nodes.is_prefix_of(after.nodes)
            &&& outcome is Continue
            &&& outcome->obligation == obligation
            &&& outcome->frame is Inherit
            &&& outcome->Continue_chain is Unchanged
            &&& outcome->block_entry is Stay
            &&& outcome->work matches WorkView::Dispatch(whole) && exists|pairs: Seq<ExprId>|
                {
                    &&& #[trigger] pairs_up(after, pairs, operators, spans, results)
                    &&& joins_pairs(after, Joint::Keyword(combiner), direction, whole, pairs)
                }
        }),
{
    let count = operators.len();
    let meta = region.meta(chain);
    let (pairs, paired) = pairs_built(region, meta, operators, spans, results, count);
    built_pairs(region, meta, operators, spans, results, count);
    let grown = match direction {
        FoldDirection::Left => decided::combined_left(paired, combiner, pairs, chain, count).1,
        FoldDirection::Right => decided::combined_right(paired, combiner, pairs, chain, count).1,
    };
    assert(grown.nodes =~= grown.nodes.take(grown.nodes.len() as int));
    match direction {
        FoldDirection::Left => {
            joined_left(paired, combiner, pairs, chain, count, grown);
            assert(pairs.take(count as int) =~= pairs);
        },
        FoldDirection::Right => {
            joined_right(paired, combiner, pairs, chain, count, grown);
            assert(pairs.skip(0) =~= pairs);
        },
    }
    prefix_of_later(region.nodes, paired.nodes, grown.nodes);
    assert(pairs_up(paired, pairs, operators, spans, results));
    pairs_stay(paired, grown, pairs, operators, spans, results);
    let (outcome, after) = decided::pairwise_landed(
        obligation,
        region,
        operators,
        spans,
        combiner,
        direction,
        chain,
        results,
    );
    assert(after == grown);
    assert(joins_pairs(
        after,
        Joint::Keyword(combiner),
        direction,
        outcome->work->Dispatch_0,
        pairs,
    ));
}

/// What a combiner puts between two pairs.
pub open spec fn joint_of(names: CombinerArguments, combiner: Combiner) -> Joint {
    match combiner {
        Combiner::Keyword(symbol) => Joint::Keyword(symbol),
        Combiner::Name(function) => Joint::Call { function, names },
    }
}

proof fn combined_joins(
    region: RegionView,
    names: CombinerArguments,
    combiner: Combiner,
    left: ExprId,
    right: ExprId,
    chain: ExprId,
    later: RegionView,
)
    requires
        region.nodes.len() < usize::MAX,
        region.records.len() < usize::MAX,
        dispatched::combined(region, names, combiner, left, right, chain).1.nodes.is_prefix_of(
            later.nodes,
        ),
        dispatched::combined(region, names, combiner, left, right, chain).1.records.is_prefix_of(
            later.records,
        ),
    ensures
        ({
            let (expr, grown) = dispatched::combined(region, names, combiner, left, right, chain);
            &&& joins(later, joint_of(names, combiner), expr, left, right)
            &&& region.nodes.is_prefix_of(grown.nodes)
            &&& region.records.is_prefix_of(grown.records)
            &&& grown.nodes.len() == region.nodes.len() + 1
            &&& grown.records.len() <= region.records.len() + 1
        }),
{
    let (expr, grown) = dispatched::combined(region, names, combiner, left, right, chain);
    assert(grown.nodes[region.nodes.len() as int] == later.nodes[region.nodes.len() as int]);
    assert(region.nodes =~= grown.nodes.take(region.nodes.len() as int));
    assert(region.records =~= grown.records.take(region.records.len() as int));
    if combiner is Name {
        assert(grown.records[region.records.len() as int]
            == later.records[region.records.len() as int]);
    }
}

proof fn slots_joined_left(
    region: RegionView,
    names: CombinerArguments,
    combiner: Combiner,
    pairs: Seq<ExprId>,
    chain: ExprId,
    count: nat,
    later: RegionView,
)
    requires
        1 <= count <= pairs.len(),
        region.nodes.len() + count <= usize::MAX,
        region.records.len() + count <= usize::MAX,
        dispatched::combined_left(region, names, combiner, pairs, chain, count).1.nodes.is_prefix_of(
            later.nodes,
        ),
        dispatched::combined_left(
            region,
            names,
            combiner,
            pairs,
            chain,
            count,
        ).1.records.is_prefix_of(later.records),
    ensures
        ({
            let (acc, grown) = dispatched::combined_left(
                region,
                names,
                combiner,
                pairs,
                chain,
                count,
            );
            &&& grown.nodes.len() == region.nodes.len() + count - 1
            &&& grown.records.len() <= region.records.len() + count - 1
            &&& region.nodes.is_prefix_of(grown.nodes)
            &&& region.records.is_prefix_of(grown.records)
            &&& joins_left(later, joint_of(names, combiner), acc, pairs.take(count as int))
        }),
    decreases count,
{
    let (acc, grown) = dispatched::combined_left(region, names, combiner, pairs, chain, count);
    let own = pairs.take(count as int);
    if count > 1 {
        let (inner, before) = dispatched::combined_left(
            region,
            names,
            combiner,
            pairs,
            chain,
            (count - 1) as nat,
        );
        slots_bounded_left(region, names, combiner, pairs, chain, (count - 1) as nat);
        let right = pairs[count - 1];
        combined_joins(before, names, combiner, inner, right, chain, later);
        prefix_of_later(before.nodes, grown.nodes, later.nodes);
        prefix_of_later(before.records, grown.records, later.records);
        slots_joined_left(region, names, combiner, pairs, chain, (count - 1) as nat, later);
        prefix_of_later(region.nodes, before.nodes, grown.nodes);
        prefix_of_later(region.records, before.records, grown.records);
        assert(own.drop_last() =~= pairs.take(count - 1));
        assert(joins(later, joint_of(names, combiner), acc, inner, own.last()));
    } else {
        assert(region.nodes =~= grown.nodes.take(region.nodes.len() as int));
        assert(region.records =~= grown.records.take(region.records.len() as int));
    }
}

proof fn slots_bounded_left(
    region: RegionView,
    names: CombinerArguments,
    combiner: Combiner,
    pairs: Seq<ExprId>,
    chain: ExprId,
    count: nat,
)
    requires
        1 <= count,
    ensures
        dispatched::combined_left(region, names, combiner, pairs, chain, count).1.nodes.len()
            == region.nodes.len() + count - 1,
        dispatched::combined_left(region, names, combiner, pairs, chain, count).1.records.len()
            <= region.records.len() + count - 1,
    decreases count,
{
    if count > 1 {
        slots_bounded_left(region, names, combiner, pairs, chain, (count - 1) as nat);
    }
}

proof fn slots_bounded_right(
    region: RegionView,
    names: CombinerArguments,
    combiner: Combiner,
    pairs: Seq<ExprId>,
    chain: ExprId,
    count: nat,
)
    requires
        1 <= count,
    ensures
        dispatched::combined_right(region, names, combiner, pairs, chain, count).1.nodes.len()
            == region.nodes.len() + count - 1,
        dispatched::combined_right(region, names, combiner, pairs, chain, count).1.records.len()
            <= region.records.len() + count - 1,
    decreases count,
{
    if count > 1 {
        slots_bounded_right(region, names, combiner, pairs, chain, (count - 1) as nat);
    }
}

proof fn slots_joined_right(
    region: RegionView,
    names: CombinerArguments,
    combiner: Combiner,
    pairs: Seq<ExprId>,
    chain: ExprId,
    count: nat,
    later: RegionView,
)
    requires
        1 <= count <= pairs.len(),
        region.nodes.len() + count <= usize::MAX,
        region.records.len() + count <= usize::MAX,
        dispatched::combined_right(
            region,
            names,
            combiner,
            pairs,
            chain,
            count,
        ).1.nodes.is_prefix_of(later.nodes),
        dispatched::combined_right(
            region,
            names,
            combiner,
            pairs,
            chain,
            count,
        ).1.records.is_prefix_of(later.records),
    ensures
        ({
            let (acc, grown) = dispatched::combined_right(
                region,
                names,
                combiner,
                pairs,
                chain,
                count,
            );
            &&& grown.nodes.len() == region.nodes.len() + count - 1
            &&& grown.records.len() <= region.records.len() + count - 1
            &&& region.nodes.is_prefix_of(grown.nodes)
            &&& region.records.is_prefix_of(grown.records)
            &&& joins_right(
                later,
                joint_of(names, combiner),
                acc,
                pairs.skip(pairs.len() - count),
            )
        }),
    decreases count,
{
    let (acc, grown) = dispatched::combined_right(region, names, combiner, pairs, chain, count);
    let own = pairs.skip(pairs.len() - count);
    if count > 1 {
        let (inner, before) = dispatched::combined_right(
            region,
            names,
            combiner,
            pairs,
            chain,
            (count - 1) as nat,
        );
        slots_bounded_right(region, names, combiner, pairs, chain, (count - 1) as nat);
        let left = pairs[pairs.len() - count];
        combined_joins(before, names, combiner, left, inner, chain, later);
        prefix_of_later(before.nodes, grown.nodes, later.nodes);
        prefix_of_later(before.records, grown.records, later.records);
        slots_joined_right(region, names, combiner, pairs, chain, (count - 1) as nat, later);
        prefix_of_later(region.nodes, before.nodes, grown.nodes);
        prefix_of_later(region.records, before.records, grown.records);
        assert(own.drop_first() =~= pairs.skip(pairs.len() - (count - 1)));
        assert(joins(later, joint_of(names, combiner), acc, own[0], inner));
    } else {
        assert(region.nodes =~= grown.nodes.take(region.nodes.len() as int));
        assert(region.records =~= grown.records.take(region.records.len() as int));
    }
}

proof fn built_pairs_keep_records(
    region: RegionView,
    meta: NodeMeta,
    operators: Seq<Spanned>,
    spans: Seq<Option<Span>>,
    results: Seq<Carried>,
    count: nat,
)
    ensures
        pairs_built(region, meta, operators, spans, results, count).1.records == region.records,
    decreases count,
{
    if count > 0 {
        built_pairs_keep_records(region, meta, operators, spans, results, (count - 1) as nat);
    }
}

/// When the operands of a chain landed, the slot goes on with its pairs, joined by an operator or by
/// calls of a function that takes both by name. Pair number `i` is result `i`, operator `i` of the
/// chain and result `i + 1`, for every operator.
pub proof fn joined_pairs_hold_the_operators_in_order(
    obligation: Option<Obligation>,
    region: RegionView,
    names: CombinerArguments,
    operators: Seq<Spanned>,
    spans: Seq<Option<Span>>,
    combiner: Combiner,
    direction: FoldDirection,
    chain: ExprId,
    results: Seq<Carried>,
)
    requires
        operators.len() > 0,
        spans.len() == operators.len() + 1,
        results.len() == operators.len() + 1,
        region.nodes.len() + 2 * operators.len() <= usize::MAX,
        region.records.len() + operators.len() <= usize::MAX,
    ensures
        ({
            let (outcome, after) = dispatched::pairwise_landed(
                obligation,
                region,
                names,
                operators,
                spans,
                combiner,
                direction,
                chain,
                results,
            );
            &&& region.nodes.is_prefix_of(after.nodes)
            &&& outcome is Continue
            &&& outcome->obligation == obligation
            &&& outcome->frame is Inherit
            &&& outcome->block_entry is Stay
            &&& outcome->body_index == 0
            &&& outcome->Continue_free.len() == 0
            &&& outcome->work matches Work::Dispatch(whole) && exists|pairs: Seq<ExprId>|
                {
                    &&& #[trigger] pairs_up(after, pairs, operators, spans, results)
                    &&& joins_pairs(after, joint_of(names, combiner), direction, whole, pairs)
                }
        }),
{
    let count = operators.len();
    let meta = region.meta(chain);
    let (pairs, paired) = pairs_built(region, meta, operators, spans, results, count);
    built_pairs(region, meta, operators, spans, results, count);
    built_pairs_keep_records(region, meta, operators, spans, results, count);
    let (outcome, after) = dispatched::pairwise_landed(
        obligation,
        region,
        names,
        operators,
        spans,
        combiner,
        direction,
        chain,
        results,
    );
    assert(after.nodes =~= after.nodes.take(after.nodes.len() as int));
    assert(after.records =~= after.records.take(after.records.len() as int));
    match direction {
        FoldDirection::Left => {
            slots_joined_left(paired, names, combiner, pairs, chain, count, after);
            assert(pairs.take(count as int) =~= pairs);
        },
        FoldDirection::Right => {
            slots_joined_right(paired, names, combiner, pairs, chain, count, after);
            assert(pairs.skip(0) =~= pairs);
        },
    }
    prefix_of_later(region.nodes, paired.nodes, after.nodes);
    assert(pairs_up(paired, pairs, operators, spans, results));
    pairs_stay(paired, after, pairs, operators, spans, results);
    assert(joins_pairs(
        after,
        joint_of(names, combiner),
        direction,
        outcome->work->Dispatch_0,
        pairs,
    ));
}

/// A chain that one group declares goes on the way the group says: folded into nested calls that
/// hold its parts as they stand, called on the list of its operands, or evaluated operand by operand
/// with its operators kept for when they landed. A combiner that is declared as a function joins by
/// calls, any other as an operator. A chain without a group that declares all its operators fails.
pub proof fn slots_reduce_chains_as_their_group_says(
    levels: Seq<ScopeLevel>,
    lexical: Option<&LexicalFrame>,
    labels: &Labels,
    named: Seq<Symbol>,
    obligation: Option<Obligation>,
    region: RegionView,
    expr: ExprId,
)
    requires
        is_chain(region.parts(expr)),
        region.nodes.len() + region.parts(expr).len() <= usize::MAX,
        region.lists.len() < usize::MAX,
    ensures
        ({
            let parts = region.parts(expr);
            let operators = keywords_of(parts);
            let (outcome, after) = dispatched::chain_decided(
                levels,
                lexical,
                labels,
                named,
                obligation,
                region,
                expr,
            );
            let group = group_in(levels, operators, lexical);
            &&& group is None || !group->0.covers(operators) ==> outcome is Done && outcome->Done_0
                is Err && after == region && outcome->Done_0->Err_0.kind is DispatchFailed
            &&& group is Some && group->0.covers(operators) ==> match group->0.mode {
                ReductionMode::Pairwise { combiner, direction } => exists|exprs: Seq<ExprId>|
                    {
                        &&& #[trigger] isolates_operands(after, exprs, parts)
                        &&& outcome is ParkThenContinue
                        &&& outcome->deps.len() == exprs.len()
                        &&& forall|i: int|
                            0 <= i < exprs.len() ==> #[trigger] outcome->deps[i] == (
                            DepView::Dispatch {
                                expr: exprs[i],
                                placement: DepPlacement::OwnScope,
                                binder_covered: false,
                            })
                        &&& outcome->park_count == 0
                        &&& outcome->continuation matches slots::ContinuationView::Finish(
                            slots::FinishView::Pairwise {
                                operators: kept,
                                spans,
                                combiner: by,
                                direction: way,
                                chain,
                            },
                        ) && keeps_operators(parts, kept, spans) && way == direction && chain
                            == expr && by == if named.contains(combiner) {
                            Combiner::Name(combiner)
                        } else {
                            Combiner::Keyword(combiner)
                        }
                    },
                mode => {
                    &&& outcome is Continue
                    &&& outcome->obligation == obligation
                    &&& outcome->frame is Inherit
                    &&& outcome->block_entry is Stay
                    &&& outcome->work matches Work::Dispatch(call) && match mode {
                        ReductionMode::FoldLeft => nests_left(after, call, parts),
                        ReductionMode::FoldRight => nests_right(after, call, parts),
                        _ => parsed_operands(parts) ==> lists_operands(after, call, parts),
                    }
                },
            }
        }),
{
    let parts = region.parts(expr);
    let meta = region.meta(expr);
    let count = (parts.len() / 2) as nat;
    assert(parts.len() == 2 * count + 1);
    left_nest(region, parts, meta, count, decided::nested_left(region, parts, meta, count).1);
    right_nest(region, parts, meta, count, decided::nested_right(region, parts, meta, count).1);
    assert(parts.take(2 * count as int + 1) =~= parts);
    assert(parts.skip(parts.len() - 1 - 2 * count) =~= parts);
    if parsed_operands(parts) {
        listed_operands(region, expr);
    }
    let exprs = requests_isolate(region, parts, meta);
    let (outcome, after) = dispatched::chain_decided(
        levels,
        lexical,
        labels,
        named,
        obligation,
        region,
        expr,
    );
    if outcome is ParkThenContinue {
        assert(isolates_operands(after, exprs, parts));
        assert forall|i: int| 0 <= i < exprs.len() implies #[trigger] outcome->deps[i] == (
        DepView::Dispatch {
            expr: exprs[i],
            placement: DepPlacement::OwnScope,
            binder_covered: false,
        }) by {
            assert(decided::operand_requests(region, decided::operands_of(parts), meta).0[i]
                == own_dispatch(exprs[i]));
        }
    }
    assert(keeps_operators(
        parts,
        decided::operators_of(parts),
        decided::spans_of(decided::operands_of(parts)),
    ));
}

/// The operators that a chain asks a group for are its keywords, in order.
pub proof fn chains_ask_for_their_own_operators(parts: Seq<Spanned>, upto: nat)
    requires
        is_chain(parts),
        2 * upto < parts.len(),
    ensures
        keywords_of(parts.take(2 * upto as int + 1)).len() == upto,
        forall|i: int|
            0 <= i < upto ==> parts[2 * i + 1].value == WorkingPart::Ast(
                ExpressionPart::Keyword(#[trigger] keywords_of(parts.take(2 * upto as int + 1))[i]),
            ),
    decreases upto,
{
    let own = parts.take(2 * upto as int + 1);
    assert(parts[2 * upto as int].value.keyword() is None);
    assert(own.last() == parts[2 * upto as int]);
    if upto == 0 {
        assert(own.drop_last() =~= Seq::<Spanned>::empty());
        reveal_with_fuel(keywords_of, 2);
    } else {
        chains_ask_for_their_own_operators(parts, (upto - 1) as nat);
        let at = 2 * upto - 1;
        assert(parts[at].value.keyword() is Some);
        let shorter = own.drop_last();
        assert(shorter.last() == parts[at]);
        assert(shorter.drop_last() =~= parts.take(2 * (upto - 1) + 1));
        reveal_with_fuel(keywords_of, 3);
    }
}

} // verus!
