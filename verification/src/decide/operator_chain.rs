//! Operator chains: find the group that declares all operators of the chain together, and reduce
//! the chain the way the group says.

use super::staging::{synthesized, synthesized_meta};
use super::DecideCtx;
use crate::ast::{
    chain_operator_symbols, is_chain, keywords_of, ExpressionPart, KeyElement, Span, Spanned,
    WorkingPart,
};
use crate::error::{dispatch_failed, raised, ErrorKindView, FrameLabel, Subject};
use crate::outcome::{
    await_requests, awaiting, become_dispatch, becomes, expr_frame, fail, failed, own_dispatch,
    park_resume_labelled, parked, request_deps, working_frame, DepPlacement, DepRequest, Finish,
    FinishView, Obligation, Outcome, OutcomeView, Resume,
};
use crate::region::{NodeMeta, Region, RegionView};
use crate::scope::{
    binding_cutoff, cutoff_in, group_in, FoldDirection, LexicalFrame, OperatorGroup, ReductionMode,
    Scope, ScopeLevel,
};
use crate::symbol::{Labels, Symbol};
use crate::text::{dedup, enclosed, join, joined, ordered, sort, without_repeats};
use crate::value::{push_new, with_new, Carried, ExprId, ProducerId};
use vstd::pervasive::unreached;
use vstd::prelude::*;

verus! {

/// How a chain is reduced.
#[derive(Clone, Copy, PartialEq, Eq, Structural, Debug)]
pub enum ChainPlan {
    FoldLeft,
    FoldRight,
    Unary,
    Pairwise { combiner: Symbol, direction: FoldDirection },
}

/// The plan for a chain; a group that does not declare all of the operators has none.
pub open spec fn plan_of(group: OperatorGroup, operators: Seq<Symbol>) -> Option<ChainPlan> {
    if !group.covers(operators) {
        None
    } else {
        Some(
            match group.mode {
                ReductionMode::FoldLeft => ChainPlan::FoldLeft,
                ReductionMode::FoldRight => ChainPlan::FoldRight,
                ReductionMode::Unary => ChainPlan::Unary,
                ReductionMode::Pairwise { combiner, direction } => ChainPlan::Pairwise {
                    combiner,
                    direction,
                },
            },
        )
    }
}

impl ChainPlan {
    /// The plan for a chain of `operators` under `group`.
    pub fn of(group: &OperatorGroup, operators: &Vec<Symbol>) -> (r: Option<ChainPlan>)
        ensures
            r == plan_of(*group, operators@),
    {
        if !group.covers_all(operators) {
            return None;
        }
        Some(
            match group.mode {
                ReductionMode::FoldLeft => ChainPlan::FoldLeft,
                ReductionMode::FoldRight => ChainPlan::FoldRight,
                ReductionMode::Unary => ChainPlan::Unary,
                ReductionMode::Pairwise { combiner, direction } => ChainPlan::Pairwise {
                    combiner,
                    direction,
                },
            },
        )
    }
}

/// The distinct operators of a chain as one text, the same however the chain was written.
pub open spec fn operators_text(labels: &Labels, operators: Seq<Symbol>) -> Seq<char> {
    joined(without_repeats(ordered(labels.texts_of(operators))), " "@)
}

/// The distinct operators of a chain as one text.
pub fn rendered_operators(labels: &Labels, operators: &Vec<Symbol>) -> (r: String)
    ensures
        r@ == operators_text(labels, operators@),
{
    join(&dedup(sort(labels.render_all(operators))), " ")
}

/// Why no group answers a chain.
pub open spec fn undeclared_text(probe: Seq<char>) -> Seq<char> {
    "no operator group declares all of `"@ + probe
        + "`; chainable operators must be declared together in one module"@
}

/// Why no group answers a chain.
pub fn undeclared_operator_reason(probe: &str) -> (r: String)
    ensures
        r@ == undeclared_text(probe@),
{
    enclosed(
        "no operator group declares all of `",
        probe,
        "`; chainable operators must be declared together in one module",
    )
}

/// Why a group does not reduce a chain.
pub open spec fn cross_group_text(probe: Seq<char>) -> Seq<char> {
    "operators `"@ + probe
        + "` span more than one operator group; chaining operators across groups is disallowed"@
}

/// Why a group does not reduce a chain.
pub fn cross_group_reason(probe: &str) -> (r: String)
    ensures
        r@ == cross_group_text(probe@),
{
    enclosed(
        "operators `",
        probe,
        "` span more than one operator group; chaining operators across groups is disallowed",
    )
}

/// The operands of a chain: the parts at even places.
pub open spec fn operands_of(parts: Seq<Spanned>) -> Seq<Spanned> {
    Seq::new((parts.len() + 1) / 2, |i: int| parts[2 * i])
}

/// The operator keywords of a chain: the parts at odd places.
pub open spec fn operators_of(parts: Seq<Spanned>) -> Seq<Spanned> {
    Seq::new(parts.len() / 2, |i: int| parts[2 * i + 1])
}

/// Splits a chain into its operands and its operator keywords.
pub fn split_chain_parts(parts: &Vec<Spanned>) -> (r: (Vec<Spanned>, Vec<Spanned>))
    ensures
        r.0@ == operands_of(parts@),
        r.1@ == operators_of(parts@),
{
    let mut operands: Vec<Spanned> = Vec::new();
    let mut operators: Vec<Spanned> = Vec::new();
    let mut i: usize = 0;
    while i < parts.len()
        invariant
            i <= parts.len(),
            operands@.len() == (i + 1) / 2,
            operators@.len() == i / 2,
            forall|k: int| 0 <= k < operands@.len() ==> operands@[k] == parts@[2 * k],
            forall|k: int| 0 <= k < operators@.len() ==> operators@[k] == parts@[2 * k + 1],
        decreases parts.len() - i,
    {
        if i % 2 == 0 {
            operands.push(parts[i]);
        } else {
            operators.push(parts[i]);
        }
        i = i + 1;
    }
    assert(operands@ =~= operands_of(parts@));
    assert(operators@ =~= operators_of(parts@));
    (operands, operators)
}

/// A node as an operand, under its own span.
pub open spec fn operand_slot(acc: ExprId, span: Option<Span>) -> Spanned {
    Spanned { value: WorkingPart::Expression(acc), span }
}

/// A node as an operand, under its own span.
pub fn wrap_as_operand(region: &Region, acc: ExprId) -> (r: Spanned)
    ensures
        r == operand_slot(acc, region@.meta(acc).span),
{
    Spanned { value: WorkingPart::Expression(acc), span: region.meta_of(acc).span }
}

/// The node and the region after the first `count` operators of a chain have been nested to the
/// left.
pub open spec fn nested_left(
    region: RegionView,
    parts: Seq<Spanned>,
    meta: NodeMeta,
    count: nat,
) -> (ExprId, RegionView)
    decreases count,
{
    if count <= 1 {
        (
            region.next_node(),
            region.with_node(seq![parts[0], parts[1], parts[2]], synthesized(meta)),
        )
    } else {
        let (acc, grown) = nested_left(region, parts, meta, (count - 1) as nat);
        (
            grown.next_node(),
            grown.with_node(
                seq![
                    operand_slot(acc, grown.meta(acc).span),
                    parts[2 * count - 1],
                    parts[2 * count as int],
                ],
                synthesized(meta),
            ),
        )
    }
}

/// A run of three slots.
pub fn triple(left: Spanned, operator: Spanned, right: Spanned) -> (r: Vec<Spanned>)
    ensures
        r@ == seq![left, operator, right],
{
    let mut r: Vec<Spanned> = Vec::new();
    r.push(left);
    r.push(operator);
    r.push(right);
    assert(r@ =~= seq![left, operator, right]);
    r
}

/// What nesting a whole chain to the left comes to.
pub open spec fn folded_left(
    obligation: Option<Obligation>,
    region: RegionView,
    expr: ExprId,
) -> (OutcomeView, RegionView) {
    let parts = region.parts(expr);
    let (acc, grown) = nested_left(region, parts, region.meta(expr), (parts.len() / 2) as nat);
    (becomes(acc, obligation), grown)
}

/// Nests a chain to the left: `a + b + c` becomes `(a + b) + c`.
pub fn nest_left(region: &mut Region, expr: ExprId) -> (r: ExprId)
    requires
        is_chain(old(region)@.parts(expr)),
    ensures
        (r, final(region)@) == nested_left(
            old(region)@,
            old(region)@.parts(expr),
            old(region)@.meta(expr),
            (old(region)@.parts(expr).len() / 2) as nat,
        ),
{
    let ghost before = region@;
    let parts = region.parts_of(expr);
    let meta = region.meta_of(expr);
    let count: usize = parts.len() / 2;
    let mut acc = region.add_node(
        triple(parts[0], parts[1], parts[2]),
        synthesized_meta(meta),
    );
    let mut k: usize = 1;
    while k < count
        invariant
            1 <= k <= count,
            count == parts.len() / 2,
            parts.len() % 2 == 1,
            (acc, region@) == nested_left(before, parts@, meta, k as nat),
        decreases count - k,
    {
        let left = wrap_as_operand(region, acc);
        acc = region.add_node(
            triple(left, parts[2 * k + 1], parts[2 * k + 2]),
            synthesized_meta(meta),
        );
        k = k + 1;
    }
    acc
}

/// Goes on with a chain nested to the left.
pub fn reduce_fold_left(ctx: &DecideCtx, region: &mut Region, expr: ExprId) -> (r: Outcome)
    requires
        is_chain(old(region)@.parts(expr)),
    ensures
        (r@, final(region)@) == folded_left(ctx.obligation, old(region)@, expr),
{
    let acc = nest_left(region, expr);
    become_dispatch(ctx.obligation, acc)
}

/// The node and the region after the last `count` operators of a chain have been nested to the
/// right.
pub open spec fn nested_right(
    region: RegionView,
    parts: Seq<Spanned>,
    meta: NodeMeta,
    count: nat,
) -> (ExprId, RegionView)
    decreases count,
{
    let end = parts.len() as int;
    if count <= 1 {
        (
            region.next_node(),
            region.with_node(
                seq![parts[end - 3], parts[end - 2], parts[end - 1]],
                synthesized(meta),
            ),
        )
    } else {
        let (acc, grown) = nested_right(region, parts, meta, (count - 1) as nat);
        (
            grown.next_node(),
            grown.with_node(
                seq![
                    parts[end - 1 - 2 * count],
                    parts[end - 2 * count],
                    operand_slot(acc, grown.meta(acc).span),
                ],
                synthesized(meta),
            ),
        )
    }
}

/// What nesting a whole chain to the right comes to.
pub open spec fn folded_right(
    obligation: Option<Obligation>,
    region: RegionView,
    expr: ExprId,
) -> (OutcomeView, RegionView) {
    let parts = region.parts(expr);
    let (acc, grown) = nested_right(region, parts, region.meta(expr), (parts.len() / 2) as nat);
    (becomes(acc, obligation), grown)
}

/// Nests a chain to the right: `a - b - c` becomes `a - (b - c)`.
pub fn nest_right(region: &mut Region, expr: ExprId) -> (r: ExprId)
    requires
        is_chain(old(region)@.parts(expr)),
    ensures
        (r, final(region)@) == nested_right(
            old(region)@,
            old(region)@.parts(expr),
            old(region)@.meta(expr),
            (old(region)@.parts(expr).len() / 2) as nat,
        ),
{
    let ghost before = region@;
    let parts = region.parts_of(expr);
    let meta = region.meta_of(expr);
    let end: usize = parts.len();
    let count: usize = end / 2;
    let mut acc = region.add_node(
        triple(parts[end - 3], parts[end - 2], parts[end - 1]),
        synthesized_meta(meta),
    );
    let mut k: usize = 1;
    while k < count
        invariant
            1 <= k <= count,
            end == parts.len(),
            count == end / 2,
            end % 2 == 1,
            (acc, region@) == nested_right(before, parts@, meta, k as nat),
        decreases count - k,
    {
        let right = wrap_as_operand(region, acc);
        acc = region.add_node(
            triple(parts[end - 3 - 2 * k], parts[end - 2 - 2 * k], right),
            synthesized_meta(meta),
        );
        k = k + 1;
    }
    acc
}

/// Goes on with a chain nested to the right.
pub fn reduce_fold_right(ctx: &DecideCtx, region: &mut Region, expr: ExprId) -> (r: Outcome)
    requires
        is_chain(old(region)@.parts(expr)),
    ensures
        (r@, final(region)@) == folded_right(ctx.obligation, old(region)@, expr),
{
    let acc = nest_right(region, expr);
    become_dispatch(ctx.obligation, acc)
}

/// Whether every operand of a chain is still a parsed part.
pub open spec fn parsed_operands(parts: Seq<Spanned>) -> bool {
    forall|i: int|
        0 <= i < operands_of(parts).len() ==> (#[trigger] operands_of(parts)[i]).value is Ast
}

/// The operands of a chain as the items of a list literal.
pub open spec fn list_items(parts: Seq<Spanned>) -> Seq<ExpressionPart> {
    operands_of(parts).map_values(|operand: Spanned| operand.value->Ast_0)
}

/// The call of a unary operator on the list of a chain's operands.
pub open spec fn list_call(region: RegionView, expr: ExprId) -> (ExprId, RegionView) {
    let parts = region.parts(expr);
    let listed = region.with_list(list_items(parts));
    let list = crate::ast::ListId { at: region.lists.len() as usize };
    (
        listed.next_node(),
        listed.with_node(
            seq![
                parts[1],
                Spanned {
                    value: WorkingPart::Ast(ExpressionPart::ListLiteral(list)),
                    span: region.meta(expr).span,
                },
            ],
            synthesized(region.meta(expr)),
        ),
    )
}

/// What calling a unary operator on the list of a chain's operands comes to.
pub open spec fn unary_called(
    obligation: Option<Obligation>,
    region: RegionView,
    expr: ExprId,
) -> (OutcomeView, RegionView) {
    let (call, grown) = list_call(region, expr);
    (becomes(call, obligation), grown)
}

/// The call of a unary operator on the list of a chain's operands.
pub fn call_on_list(region: &mut Region, expr: ExprId) -> (r: ExprId)
    requires
        is_chain(old(region)@.parts(expr)),
        parsed_operands(old(region)@.parts(expr)),
    ensures
        (r, final(region)@) == list_call(old(region)@, expr),
{
    let parts = region.parts_of(expr);
    let meta = region.meta_of(expr);
    let (operands, _) = split_chain_parts(&parts);
    let mut items: Vec<ExpressionPart> = Vec::new();
    let mut i: usize = 0;
    let ghost all = list_items(parts@);
    while i < operands.len()
        invariant
            i <= operands.len(),
            operands@ == operands_of(parts@),
            parsed_operands(parts@),
            all == list_items(parts@),
            items@ == all.take(i as int),
        decreases operands.len() - i,
    {
        assert(operands_of(parts@)[i as int].value is Ast);
        match operands[i].value {
            WorkingPart::Ast(part) => {
                items.push(part);
            },
            _ => unreached(),
        }
        assert(all.take(i as int + 1) =~= all.take(i as int).push(all[i as int]));
        i = i + 1;
    }
    assert(all.take(i as int) =~= all);
    let list = region.add_list(items);
    let mut run: Vec<Spanned> = Vec::new();
    run.push(parts[1]);
    run.push(
        Spanned {
            value: WorkingPart::Ast(ExpressionPart::ListLiteral(list)),
            span: meta.span,
        },
    );
    let call = region.add_node(run, synthesized_meta(meta));
    proof {
        assert(run@ =~= seq![
            parts@[1],
            Spanned {
                value: WorkingPart::Ast(ExpressionPart::ListLiteral(list)),
                span: meta.span,
            },
        ]);
    }
    call
}

/// Calls a unary operator on the list of a chain's operands.
pub fn reduce_unary(ctx: &DecideCtx, region: &mut Region, expr: ExprId) -> (r: Outcome)
    requires
        is_chain(old(region)@.parts(expr)),
        parsed_operands(old(region)@.parts(expr)),
    ensures
        (r@, final(region)@) == unary_called(ctx.obligation, old(region)@, expr),
{
    let call = call_on_list(region, expr);
    become_dispatch(ctx.obligation, call)
}

/// The work that evaluates each operand once, and the region with the nodes that it needs.
pub open spec fn operand_requests(region: RegionView, operands: Seq<Spanned>, meta: NodeMeta) -> (
    Seq<DepRequest>,
    RegionView,
)
    decreases operands.len(),
{
    if operands.len() == 0 {
        (Seq::empty(), region)
    } else {
        let (earlier, grown) = operand_requests(region, operands.drop_last(), meta);
        (
            earlier.push(own_dispatch(grown.next_node())),
            grown.with_node(seq![operands.last()], synthesized(meta)),
        )
    }
}

/// The spans of a run of slots.
pub open spec fn spans_of(slots: Seq<Spanned>) -> Seq<Option<Span>> {
    slots.map_values(|slot: Spanned| slot.span)
}

/// What reducing a chain pair by pair comes to: every operand is waited for, once.
pub open spec fn pairwise_awaited(
    region: RegionView,
    expr: ExprId,
    combiner: Symbol,
    direction: FoldDirection,
) -> (OutcomeView, RegionView) {
    let parts = region.parts(expr);
    let (requests, grown) = operand_requests(region, operands_of(parts), region.meta(expr));
    (
        awaiting(
            request_deps(requests),
            Some(expr_frame(FrameLabel::OperatorChain, expr)),
            FinishView::Pairwise {
                operators: operators_of(parts),
                spans: spans_of(operands_of(parts)),
                combiner,
                direction,
                chain: expr,
            },
        ),
        grown,
    )
}

/// The spans of a run of slots.
pub fn collect_spans(slots: &Vec<Spanned>) -> (r: Vec<Option<Span>>)
    ensures
        r@ == spans_of(slots@),
{
    let mut r: Vec<Option<Span>> = Vec::new();
    let mut i: usize = 0;
    while i < slots.len()
        invariant
            i <= slots.len(),
            r@ == spans_of(slots@).take(i as int),
        decreases slots.len() - i,
    {
        r.push(slots[i].span);
        assert(spans_of(slots@).take(i as int + 1) =~= spans_of(slots@).take(i as int).push(
            slots@[i as int].span,
        ));
        i = i + 1;
    }
    assert(spans_of(slots@).take(i as int) =~= spans_of(slots@));
    r
}

/// Asks for every operand once.
pub fn request_operands(region: &mut Region, operands: &Vec<Spanned>, meta: NodeMeta) -> (r: Vec<
    DepRequest,
>)
    ensures
        (r@, final(region)@) == operand_requests(old(region)@, operands@, meta),
{
    let ghost before = region@;
    let mut requests: Vec<DepRequest> = Vec::new();
    let mut i: usize = 0;
    proof {
        assert(operands@.take(0) =~= Seq::<Spanned>::empty());
    }
    while i < operands.len()
        invariant
            i <= operands.len(),
            (requests@, region@) == operand_requests(before, operands@.take(i as int), meta),
        decreases operands.len() - i,
    {
        proof {
            assert(operands@.take(i as int + 1).drop_last() =~= operands@.take(i as int));
        }
        let lone = region.add_lone(operands[i], synthesized_meta(meta));
        requests.push(DepRequest::Dispatch { expr: lone, placement: DepPlacement::OwnScope });
        i = i + 1;
    }
    assert(operands@.take(i as int) =~= operands@);
    requests
}

/// Reduces a chain pair by pair. A middle operand feeds two pairs, so the operands are evaluated
/// first.
pub fn reduce_pairwise(
    region: &mut Region,
    expr: ExprId,
    combiner: Symbol,
    direction: FoldDirection,
) -> (r: Outcome)
    ensures
        (r@, final(region)@) == pairwise_awaited(old(region)@, expr, combiner, direction),
{
    let parts = region.parts_of(expr);
    let meta = region.meta_of(expr);
    let (operands, operators) = split_chain_parts(&parts);
    let spans = collect_spans(&operands);
    let requests = request_operands(region, &operands, meta);
    await_requests(
        requests,
        Some(working_frame(FrameLabel::OperatorChain, expr)),
        Finish::Pairwise { operators, spans, combiner, direction, chain: expr },
    )
}

/// A resolved operand in a pair.
pub open spec fn resolved_slot(cell: Carried, span: Option<Span>) -> Spanned {
    Spanned { value: WorkingPart::Spliced { cell, from_name: None }, span }
}

/// The parts of the pair at place `i`: the operands on both sides of the operator there.
pub open spec fn pair_parts(
    operators: Seq<Spanned>,
    spans: Seq<Option<Span>>,
    results: Seq<Carried>,
    i: int,
) -> Seq<Spanned> {
    seq![
        resolved_slot(results[i], spans[i]),
        operators[i],
        resolved_slot(results[i + 1], spans[i + 1]),
    ]
}

/// The first `count` pairs and the region with their nodes.
pub open spec fn pairs_built(
    region: RegionView,
    meta: NodeMeta,
    operators: Seq<Spanned>,
    spans: Seq<Option<Span>>,
    results: Seq<Carried>,
    count: nat,
) -> (Seq<ExprId>, RegionView)
    decreases count,
{
    if count == 0 {
        (Seq::empty(), region)
    } else {
        let at = (count - 1) as int;
        let (earlier, grown) = pairs_built(region, meta, operators, spans, results, at as nat);
        (
            earlier.push(grown.next_node()),
            grown.with_node(pair_parts(operators, spans, results, at), synthesized(meta)),
        )
    }
}

/// The parts of one application of the combiner.
pub open spec fn combined_parts(
    region: RegionView,
    combiner: Symbol,
    left: ExprId,
    right: ExprId,
    chain: ExprId,
) -> Seq<Spanned> {
    seq![
        operand_slot(left, region.meta(left).span),
        Spanned {
            value: WorkingPart::Ast(ExpressionPart::Keyword(combiner)),
            span: region.meta(chain).span,
        },
        operand_slot(right, region.meta(right).span),
    ]
}

/// Applies the combiner to two nodes, infix.
pub fn combine(
    region: &mut Region,
    combiner: Symbol,
    left: ExprId,
    right: ExprId,
    chain: ExprId,
) -> (r: ExprId)
    ensures
        r == old(region)@.next_node(),
        final(region)@ == old(region)@.with_node(
            combined_parts(old(region)@, combiner, left, right, chain),
            synthesized(old(region)@.meta(chain)),
        ),
{
    let meta = region.meta_of(chain);
    let run = triple(
        wrap_as_operand(region, left),
        Spanned {
            value: WorkingPart::Ast(ExpressionPart::Keyword(combiner)),
            span: meta.span,
        },
        wrap_as_operand(region, right),
    );
    region.add_node(run, synthesized_meta(meta))
}

/// The node and the region after the first `count` pairs have been combined from the left.
pub open spec fn combined_left(
    region: RegionView,
    combiner: Symbol,
    pairs: Seq<ExprId>,
    chain: ExprId,
    count: nat,
) -> (ExprId, RegionView)
    decreases count,
{
    if count <= 1 {
        (pairs[0], region)
    } else {
        let (acc, grown) = combined_left(region, combiner, pairs, chain, (count - 1) as nat);
        (
            grown.next_node(),
            grown.with_node(
                combined_parts(grown, combiner, acc, pairs[count - 1], chain),
                synthesized(grown.meta(chain)),
            ),
        )
    }
}

/// The node and the region after the last `count` pairs have been combined from the right.
pub open spec fn combined_right(
    region: RegionView,
    combiner: Symbol,
    pairs: Seq<ExprId>,
    chain: ExprId,
    count: nat,
) -> (ExprId, RegionView)
    decreases count,
{
    if count <= 1 {
        (pairs.last(), region)
    } else {
        let (acc, grown) = combined_right(region, combiner, pairs, chain, (count - 1) as nat);
        (
            grown.next_node(),
            grown.with_node(
                combined_parts(grown, combiner, pairs[pairs.len() - count], acc, chain),
                synthesized(grown.meta(chain)),
            ),
        )
    }
}

/// What a pairwise chain comes to once its operands have landed.
pub open spec fn pairwise_landed(
    obligation: Option<Obligation>,
    region: RegionView,
    operators: Seq<Spanned>,
    spans: Seq<Option<Span>>,
    combiner: Symbol,
    direction: FoldDirection,
    chain: ExprId,
    results: Seq<Carried>,
) -> (OutcomeView, RegionView) {
    let (pairs, paired) = pairs_built(
        region,
        region.meta(chain),
        operators,
        spans,
        results,
        operators.len(),
    );
    let (acc, grown) = match direction {
        FoldDirection::Left => combined_left(paired, combiner, pairs, chain, pairs.len()),
        FoldDirection::Right => combined_right(paired, combiner, pairs, chain, pairs.len()),
    };
    (becomes(acc, obligation), grown)
}

/// Builds the pairs of a chain whose operands have landed.
pub fn build_pairs(
    region: &mut Region,
    meta: NodeMeta,
    operators: &Vec<Spanned>,
    spans: &Vec<Option<Span>>,
    results: &Vec<Carried>,
) -> (r: Vec<ExprId>)
    requires
        spans@.len() == operators@.len() + 1,
        results@.len() == operators@.len() + 1,
    ensures
        (r@, final(region)@) == pairs_built(
            old(region)@,
            meta,
            operators@,
            spans@,
            results@,
            operators@.len(),
        ),
        r@.len() == operators@.len(),
{
    let ghost before = region@;
    let mut pairs: Vec<ExprId> = Vec::new();
    let mut i: usize = 0;
    while i < operators.len()
        invariant
            i <= operators.len(),
            spans@.len() == operators@.len() + 1,
            results@.len() == operators@.len() + 1,
            pairs@.len() == i,
            (pairs@, region@) == pairs_built(
                before,
                meta,
                operators@,
                spans@,
                results@,
                i as nat,
            ),
        decreases operators.len() - i,
    {
        let run = triple(
            Spanned {
                value: WorkingPart::Spliced { cell: results[i], from_name: None },
                span: spans[i],
            },
            operators[i],
            Spanned {
                value: WorkingPart::Spliced { cell: results[i + 1], from_name: None },
                span: spans[i + 1],
            },
        );
        pairs.push(region.add_node(run, synthesized_meta(meta)));
        i = i + 1;
    }
    pairs
}

/// Pairs the results of a chain's operands and folds the pairs through the combiner.
pub fn finish_pairwise(
    ctx: &DecideCtx,
    region: &mut Region,
    operators: &Vec<Spanned>,
    spans: &Vec<Option<Span>>,
    combiner: Symbol,
    direction: FoldDirection,
    chain: ExprId,
    results: &Vec<Carried>,
) -> (r: Outcome)
    requires
        operators@.len() > 0,
        spans@.len() == operators@.len() + 1,
        results@.len() == operators@.len() + 1,
    ensures
        (r@, final(region)@) == pairwise_landed(
            ctx.obligation,
            old(region)@,
            operators@,
            spans@,
            combiner,
            direction,
            chain,
            results@,
        ),
{
    let meta = region.meta_of(chain);
    let pairs = build_pairs(region, meta, operators, spans, results);
    let ghost paired = region@;
    match direction {
        FoldDirection::Left => {
            let mut acc = pairs[0];
            let mut k: usize = 1;
            while k < pairs.len()
                invariant
                    1 <= k <= pairs.len(),
                    (acc, region@) == combined_left(paired, combiner, pairs@, chain, k as nat),
                decreases pairs.len() - k,
            {
                acc = combine(region, combiner, acc, pairs[k], chain);
                k = k + 1;
            }
            become_dispatch(ctx.obligation, acc)
        },
        FoldDirection::Right => {
            let mut acc = pairs[pairs.len() - 1];
            let mut k: usize = 1;
            while k < pairs.len()
                invariant
                    1 <= k <= pairs.len(),
                    (acc, region@) == combined_right(paired, combiner, pairs@, chain, k as nat),
                decreases pairs.len() - k,
            {
                acc = combine(region, combiner, pairs[pairs.len() - 1 - k], acc, chain);
                k = k + 1;
            }
            become_dispatch(ctx.obligation, acc)
        },
    }
}

/// `symbol` placed into an already ascending run, unless it is there already.
pub open spec fn with_symbol(symbols: Seq<Symbol>, symbol: Symbol) -> Seq<Symbol>
    decreases symbols.len(),
{
    if symbols.len() == 0 {
        seq![symbol]
    } else if symbols.last().id == symbol.id {
        symbols
    } else if symbols.last().id < symbol.id {
        symbols.push(symbol)
    } else {
        with_symbol(symbols.drop_last(), symbol).push(symbols.last())
    }
}

/// The distinct symbols of a run, ascending.
pub open spec fn distinct(symbols: Seq<Symbol>) -> Seq<Symbol>
    decreases symbols.len(),
{
    if symbols.len() == 0 {
        Seq::empty()
    } else {
        with_symbol(distinct(symbols.drop_last()), symbols.last())
    }
}

/// Places `symbol` into an ascending run, unless it is there already.
fn add_symbol(symbols: &mut Vec<Symbol>, symbol: Symbol)
    ensures
        final(symbols)@ == with_symbol(old(symbols)@, symbol),
{
    let ghost before = symbols@;
    let mut held: Vec<Symbol> = Vec::new();
    proof {
        assert(before + Seq::<Symbol>::empty() =~= before);
    }
    // Larger symbols are taken off the end until the place is found.
    while symbols.len() > 0 && symbols[symbols.len() - 1].id > symbol.id
        invariant
            with_symbol(before, symbol) == with_symbol(symbols@, symbol) + held@.reverse(),
        decreases symbols.len(),
    {
        let ghost earlier = symbols@;
        let ghost kept = held@;
        let last = symbols[symbols.len() - 1];
        symbols.pop();
        held.push(last);
        proof {
            assert(symbols@ =~= earlier.drop_last());
            assert(with_symbol(symbols@, symbol).push(last) + kept.reverse() =~= with_symbol(
                symbols@,
                symbol,
            ) + held@.reverse());
        }
    }
    if symbols.len() == 0 || symbols[symbols.len() - 1].id != symbol.id {
        let ghost earlier = symbols@;
        symbols.push(symbol);
        proof {
            if earlier.len() == 0 {
                assert(symbols@ =~= seq![symbol]);
            }
        }
    }
    let ghost placed = symbols@;
    while held.len() > 0
        invariant
            with_symbol(before, symbol) == symbols@ + held@.reverse(),
        decreases held.len(),
    {
        let ghost kept = held@;
        let ghost earlier = symbols@;
        let next = held[held.len() - 1];
        held.pop();
        symbols.push(next);
        proof {
            assert(held@ =~= kept.drop_last());
            assert(earlier + kept.reverse() =~= symbols@ + held@.reverse());
        }
    }
    assert(symbols@ + held@.reverse() =~= symbols@);
}

/// The distinct symbols of a run, ascending.
pub fn distinct_symbols(symbols: &Vec<Symbol>) -> (r: Vec<Symbol>)
    ensures
        r@ == distinct(symbols@),
{
    let mut r: Vec<Symbol> = Vec::new();
    let mut i: usize = 0;
    proof {
        assert(symbols@.take(0) =~= Seq::<Symbol>::empty());
    }
    while i < symbols.len()
        invariant
            i <= symbols.len(),
            r@ == distinct(symbols@.take(i as int)),
        decreases symbols.len() - i,
    {
        proof {
            assert(symbols@.take(i as int + 1).drop_last() =~= symbols@.take(i as int));
        }
        add_symbol(&mut r, symbols[i]);
        i = i + 1;
    }
    assert(symbols@.take(i as int) =~= symbols@);
    r
}

/// The key of a binary operator.
pub open spec fn binary_key(operator: Symbol) -> Seq<KeyElement> {
    seq![KeyElement::Slot, KeyElement::Keyword(operator), KeyElement::Slot]
}

/// The key of a unary operator.
pub open spec fn unary_key(operator: Symbol) -> Seq<KeyElement> {
    seq![KeyElement::Keyword(operator), KeyElement::Slot]
}

/// `sources` with the claims that the levels hold under `key`, innermost first, each once.
pub open spec fn with_claims(
    levels: Seq<ScopeLevel>,
    key: Seq<KeyElement>,
    chain: Option<&LexicalFrame>,
    sources: Seq<ProducerId>,
) -> Seq<ProducerId>
    decreases levels.len(),
{
    if levels.len() == 0 {
        sources
    } else {
        let own = match levels.last().claimed_key_at(key, cutoff_in(chain, levels.last().id)) {
            Some(source) => with_new(sources, source),
            None => sources,
        };
        with_claims(levels.drop_last(), key, chain, own)
    }
}

/// The claims on any of the operators, each once: both keys that an operator can be declared under
/// are looked up.
pub open spec fn operator_claims(
    levels: Seq<ScopeLevel>,
    chain: Option<&LexicalFrame>,
    operators: Seq<Symbol>,
) -> Seq<ProducerId>
    decreases operators.len(),
{
    if operators.len() == 0 {
        Seq::empty()
    } else {
        let earlier = operator_claims(levels, chain, operators.drop_last());
        let operator = operators.last();
        with_claims(
            levels,
            unary_key(operator),
            chain,
            with_claims(levels, binary_key(operator), chain, earlier),
        )
    }
}

/// Adds the claims that a scope holds under `key`.
fn add_claims(
    scope: &Scope,
    key: &Vec<KeyElement>,
    chain: Option<&LexicalFrame>,
    sources: &mut Vec<ProducerId>,
)
    ensures
        final(sources)@ == with_claims(scope.levels@, key@, chain, old(sources)@),
{
    let ghost all = with_claims(scope.levels@, key@, chain, sources@);
    let mut at: usize = scope.levels.len();
    proof {
        assert(scope.levels@.take(at as int) =~= scope.levels@);
    }
    while at > 0
        invariant
            at <= scope.levels.len(),
            all == with_claims(scope.levels@.take(at as int), key@, chain, sources@),
        decreases at,
    {
        at = at - 1;
        proof {
            assert(scope.levels@.take(at as int + 1).drop_last() =~= scope.levels@.take(
                at as int,
            ));
        }
        let level = &scope.levels[at];
        if let Some(source) = level.claimed_bucket_producer(key, binding_cutoff(chain, level.id)) {
            push_new(sources, source);
        }
    }
}

/// The binders that are about to declare one of the chain's operators, each once.
pub fn pending_operator_sources(
    scope: &Scope,
    chain: Option<&LexicalFrame>,
    parts: &Vec<Spanned>,
) -> (r: Vec<ProducerId>)
    ensures
        r@ == operator_claims(scope.levels@, chain, distinct(keywords_of(parts@))),
{
    let operators = distinct_symbols(&chain_operator_symbols(parts));
    let mut sources: Vec<ProducerId> = Vec::new();
    let mut i: usize = 0;
    proof {
        assert(operators@.take(0) =~= Seq::<Symbol>::empty());
    }
    while i < operators.len()
        invariant
            i <= operators.len(),
            sources@ == operator_claims(scope.levels@, chain, operators@.take(i as int)),
        decreases operators.len() - i,
    {
        proof {
            assert(operators@.take(i as int + 1).drop_last() =~= operators@.take(i as int));
        }
        let mut binary: Vec<KeyElement> = Vec::new();
        binary.push(KeyElement::Slot);
        binary.push(KeyElement::Keyword(operators[i]));
        binary.push(KeyElement::Slot);
        let mut unary: Vec<KeyElement> = Vec::new();
        unary.push(KeyElement::Keyword(operators[i]));
        unary.push(KeyElement::Slot);
        proof {
            assert(binary@ =~= binary_key(operators@[i as int]));
            assert(unary@ =~= unary_key(operators@[i as int]));
        }
        add_claims(scope, &binary, chain, &mut sources);
        add_claims(scope, &unary, chain, &mut sources);
        i = i + 1;
    }
    assert(operators@.take(i as int) =~= operators@);
    sources
}

/// What a chain that no group answers comes to: it waits for the declarations that are under way,
/// and fails when there are none.
pub open spec fn operators_awaited(ctx: &DecideCtx, region: RegionView, expr: ExprId) -> OutcomeView {
    let operators = keywords_of(region.parts(expr));
    let sources = operator_claims(ctx.scope.levels@, ctx.chain, distinct(operators));
    if sources.len() == 0 {
        failed(
            raised(
                ErrorKindView::dispatch_failed(
                    Subject::Expr(expr),
                    undeclared_text(operators_text(ctx.labels, operators)),
                ),
            ),
        )
    } else {
        parked(
            sources,
            Some(expr_frame(FrameLabel::OperatorChain, expr)),
            Resume::OperatorChain(expr),
        )
    }
}

/// Waits for the declarations under way of a chain that no group answers.
pub fn park_on_pending_operators(ctx: &DecideCtx, region: &Region, expr: ExprId) -> (r: Outcome)
    ensures
        r@ == operators_awaited(ctx, region@, expr),
{
    let parts = region.parts_of(expr);
    let sources = pending_operator_sources(ctx.scope, ctx.chain, &parts);
    if sources.len() == 0 {
        let probe = rendered_operators(ctx.labels, &chain_operator_symbols(&parts));
        return fail(
            dispatch_failed(expr, undeclared_operator_reason(probe.as_str()).as_str()),
        );
    }
    park_resume_labelled(
        sources,
        Some(working_frame(FrameLabel::OperatorChain, expr)),
        Resume::OperatorChain(expr),
    )
}

/// What the decision on an operator chain comes to.
pub open spec fn chain_decided(ctx: &DecideCtx, region: RegionView, expr: ExprId) -> (
    OutcomeView,
    RegionView,
) {
    let operators = keywords_of(region.parts(expr));
    match group_in(ctx.scope.levels@, operators, ctx.chain) {
        None => (operators_awaited(ctx, region, expr), region),
        Some(group) => match plan_of(group, operators) {
            None => (
                failed(
                    raised(
                        ErrorKindView::dispatch_failed(
                            Subject::Expr(expr),
                            cross_group_text(operators_text(ctx.labels, operators)),
                        ),
                    ),
                ),
                region,
            ),
            Some(ChainPlan::FoldLeft) => folded_left(ctx.obligation, region, expr),
            Some(ChainPlan::FoldRight) => folded_right(ctx.obligation, region, expr),
            Some(ChainPlan::Unary) => unary_called(ctx.obligation, region, expr),
            Some(ChainPlan::Pairwise { combiner, direction }) => pairwise_awaited(
                region,
                expr,
                combiner,
                direction,
            ),
        },
    }
}

/// Decides on an operator chain.
pub fn run(ctx: &DecideCtx, region: &mut Region, expr: ExprId) -> (r: Outcome)
    requires
        is_chain(old(region)@.parts(expr)),
        group_in(
            ctx.scope.levels@,
            keywords_of(old(region)@.parts(expr)),
            ctx.chain,
        ) matches Some(group) ==> (group.mode is Unary ==> parsed_operands(
            old(region)@.parts(expr),
        )),
    ensures
        (r@, final(region)@) == chain_decided(ctx, old(region)@, expr),
{
    let parts = region.parts_of(expr);
    let operators = chain_operator_symbols(&parts);
    match ctx.scope.resolve_operator_group(&operators, ctx.chain) {
        None => park_on_pending_operators(ctx, region, expr),
        Some(group) => match ChainPlan::of(group, &operators) {
            None => {
                let probe = rendered_operators(ctx.labels, &operators);
                fail(dispatch_failed(expr, cross_group_reason(probe.as_str()).as_str()))
            },
            Some(ChainPlan::FoldLeft) => reduce_fold_left(ctx, region, expr),
            Some(ChainPlan::FoldRight) => reduce_fold_right(ctx, region, expr),
            Some(ChainPlan::Unary) => reduce_unary(ctx, region, expr),
            Some(ChainPlan::Pairwise { combiner, direction }) => reduce_pairwise(
                region,
                expr,
                combiner,
                direction,
            ),
        },
    }
}

/// The leaves of a chain that was nested to the left `depth` times, from left to right.
pub open spec fn left_leaves(region: RegionView, expr: ExprId, depth: nat) -> Seq<Spanned>
    decreases depth,
{
    let parts = region.parts(expr);
    if depth <= 1 {
        parts
    } else {
        match parts[0].value {
            WorkingPart::Expression(inner) => left_leaves(region, inner, (depth - 1) as nat) + seq![
                parts[1],
                parts[2],
            ],
            _ => parts,
        }
    }
}

/// The leaves of a chain that was nested to the right `depth` times, from left to right.
pub open spec fn right_leaves(region: RegionView, expr: ExprId, depth: nat) -> Seq<Spanned>
    decreases depth,
{
    let parts = region.parts(expr);
    if depth <= 1 {
        parts
    } else {
        match parts[2].value {
            WorkingPart::Expression(inner) => seq![parts[0], parts[1]] + right_leaves(
                region,
                inner,
                (depth - 1) as nat,
            ),
            _ => parts,
        }
    }
}

proof fn nested_left_reads_back(
    region: RegionView,
    parts: Seq<Spanned>,
    meta: NodeMeta,
    count: nat,
    later: RegionView,
)
    requires
        1 <= count,
        2 * count < parts.len(),
        region.nodes.len() + count <= usize::MAX,
        nested_left(region, parts, meta, count).1.nodes.is_prefix_of(later.nodes),
    ensures
        nested_left(region, parts, meta, count).0.at == region.nodes.len() + count - 1,
        nested_left(region, parts, meta, count).1.nodes.len() == region.nodes.len() + count,
        left_leaves(later, nested_left(region, parts, meta, count).0, count) == parts.take(
            2 * count as int + 1,
        ),
    decreases count,
{
    let (acc, grown) = nested_left(region, parts, meta, count);
    if count == 1 {
        assert(grown.nodes[region.nodes.len() as int] == later.nodes[region.nodes.len() as int]);
        assert(later.parts(acc) =~= parts.take(3));
    } else {
        let (inner, before) = nested_left(region, parts, meta, (count - 1) as nat);
        assert(before.nodes.is_prefix_of(later.nodes)) by {
            assert(before.nodes =~= grown.nodes.take(before.nodes.len() as int));
            assert(before.nodes =~= later.nodes.take(before.nodes.len() as int));
        }
        nested_left_reads_back(region, parts, meta, (count - 1) as nat, later);
        let at = before.nodes.len() as int;
        assert(grown.nodes[at] == later.nodes[at]);
        assert(parts.take(2 * count - 1) + seq![parts[2 * count - 1], parts[2 * count as int]]
            =~= parts.take(2 * count as int + 1));
    }
}

proof fn nested_right_reads_back(
    region: RegionView,
    parts: Seq<Spanned>,
    meta: NodeMeta,
    count: nat,
    later: RegionView,
)
    requires
        1 <= count,
        2 * count < parts.len(),
        region.nodes.len() + count <= usize::MAX,
        nested_right(region, parts, meta, count).1.nodes.is_prefix_of(later.nodes),
    ensures
        nested_right(region, parts, meta, count).0.at == region.nodes.len() + count - 1,
        nested_right(region, parts, meta, count).1.nodes.len() == region.nodes.len() + count,
        right_leaves(later, nested_right(region, parts, meta, count).0, count) == parts.skip(
            parts.len() - 1 - 2 * count,
        ),
    decreases count,
{
    let end = parts.len() as int;
    let (acc, grown) = nested_right(region, parts, meta, count);
    if count == 1 {
        assert(grown.nodes[region.nodes.len() as int] == later.nodes[region.nodes.len() as int]);
        assert(later.parts(acc) =~= parts.skip(end - 3));
    } else {
        let (inner, before) = nested_right(region, parts, meta, (count - 1) as nat);
        assert(before.nodes.is_prefix_of(later.nodes)) by {
            assert(before.nodes =~= grown.nodes.take(before.nodes.len() as int));
            assert(before.nodes =~= later.nodes.take(before.nodes.len() as int));
        }
        nested_right_reads_back(region, parts, meta, (count - 1) as nat, later);
        let at = before.nodes.len() as int;
        assert(grown.nodes[at] == later.nodes[at]);
        assert(seq![parts[end - 1 - 2 * count], parts[end - 2 * count]] + parts.skip(
            end + 1 - 2 * count,
        ) =~= parts.skip(end - 1 - 2 * count));
    }
}

/// A fold rewrites a chain without losing, repeating or moving anything: read from left to right,
/// the nested calls hold the parts of the chain as they stand.
pub proof fn folds_keep_every_operand_in_place(region: RegionView, expr: ExprId)
    requires
        is_chain(region.parts(expr)),
        region.nodes.len() + region.parts(expr).len() <= usize::MAX,
    ensures
        ({
            let parts = region.parts(expr);
            let count = (parts.len() / 2) as nat;
            let (left, lefts) = nested_left(region, parts, region.meta(expr), count);
            let (right, rights) = nested_right(region, parts, region.meta(expr), count);
            &&& left_leaves(lefts, left, count) == parts
            &&& right_leaves(rights, right, count) == parts
        }),
{
    let parts = region.parts(expr);
    let meta = region.meta(expr);
    let count = (parts.len() / 2) as nat;
    assert(parts.len() == 2 * count + 1);
    nested_left_reads_back(region, parts, meta, count, nested_left(region, parts, meta, count).1);
    nested_right_reads_back(
        region,
        parts,
        meta,
        count,
        nested_right(region, parts, meta, count).1,
    );
    assert(parts.take(2 * count as int + 1) =~= parts);
    assert(parts.skip(parts.len() - 1 - 2 * count) =~= parts);
}

/// A chain that is reduced pair by pair dispatches every operand exactly once, whatever number of
/// pairs it is part of, and in the order of the chain.
pub proof fn operands_are_evaluated_once(
    region: RegionView,
    operands: Seq<Spanned>,
    meta: NodeMeta,
)
    requires
        region.nodes.len() + operands.len() <= usize::MAX,
    ensures
        ({
            let (requests, grown) = operand_requests(region, operands, meta);
            &&& requests.len() == operands.len()
            &&& grown.nodes.len() == region.nodes.len() + operands.len()
            &&& region.nodes.is_prefix_of(grown.nodes)
            &&& forall|i: int|
                0 <= i < operands.len() ==> (#[trigger] requests[i]) == own_dispatch(
                    ExprId { at: (region.nodes.len() + i) as usize },
                ) && grown.parts(ExprId { at: (region.nodes.len() + i) as usize })
                    == seq![operands[i]]
        }),
    decreases operands.len(),
{
    if operands.len() > 0 {
        operands_are_evaluated_once(region, operands.drop_last(), meta);
        let (earlier, before) = operand_requests(region, operands.drop_last(), meta);
        let (requests, grown) = operand_requests(region, operands, meta);
        assert(region.nodes =~= grown.nodes.take(region.nodes.len() as int));
        assert forall|i: int| 0 <= i < operands.len() implies (#[trigger] requests[i])
            == own_dispatch(ExprId { at: (region.nodes.len() + i) as usize }) && grown.parts(
            ExprId { at: (region.nodes.len() + i) as usize },
        ) == seq![operands[i]] by {
            let own = ExprId { at: (region.nodes.len() + i) as usize };
            if i < operands.len() - 1 {
                assert(requests[i] == earlier[i]);
                assert(grown.parts(own) == before.parts(own));
            }
        }
    }
}

} // verus!
