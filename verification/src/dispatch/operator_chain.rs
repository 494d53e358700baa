//! Operator chains whose pairs may be combined by an operator or by a function. A chain that no
//! group answers fails at once.

use super::outcome::{
    continued, dep_of, dep_views, fail, failed, go_on, request_dep, Combiner, Continuation,
    ContinuationView, DepView, DispatchDep, Finish, FinishView, Outcome, OutcomeView, Work,
};
use crate::ast::{
    chain_operator_symbols, is_chain, keywords_of, ExpressionPart, RecordId, Span, Spanned,
    WorkingPart,
};
use crate::decide::operator_chain::{
    build_pairs, call_on_list, collect_spans, cross_group_reason, cross_group_text, list_call,
    nest_left, nest_right, nested_left, nested_right, operand_requests, operand_slot, operands_of,
    operators_of, operators_text, pairs_built, parsed_operands, plan_of, rendered_operators,
    request_operands, spans_of, split_chain_parts, triple, undeclared_operator_reason,
    undeclared_text, wrap_as_operand, ChainPlan,
};
use crate::decide::staging::{synthesized, synthesized_meta};
use crate::error::{dispatch_failed, raised, ErrorKindView, FrameLabel, Subject};
use crate::outcome::{
    expr_frame, working_frame, DepRequest, FramePlacement, Obligation,
};
use crate::region::{FieldPart, Region, RegionView};
use crate::scope::{group_in, FoldDirection, LexicalFrame, Scope, ScopeLevel};
use crate::symbol::{Labels, Symbol};
use crate::value::{Carried, ExprId, NodeId};
use vstd::prelude::*;

verus! {

/// The argument names that a combining function takes its two inputs under.
pub const COMBINER_LEFT: &'static str = "left";

pub const COMBINER_RIGHT: &'static str = "right";

/// The symbols of the argument names of a combining function.
#[derive(Clone, Copy, PartialEq, Eq, Structural, Debug)]
pub struct CombinerArguments {
    pub left: Symbol,
    pub right: Symbol,
}

impl CombinerArguments {
    /// The two names under which a combining function takes its inputs.
    pub fn of(labels: &mut Labels) -> (r: CombinerArguments)
        requires
            old(labels).wf(),
        ensures
            final(labels).wf(),
            final(labels).text_of(r.left) == COMBINER_LEFT@,
            final(labels).text_of(r.right) == COMBINER_RIGHT@,
            old(labels)@.is_prefix_of(final(labels)@),
    {
        let left = labels.intern(COMBINER_LEFT);
        let ghost between = labels@;
        let right = labels.intern(COMBINER_RIGHT);
        proof {
            assert(between[left.id as int] == labels@[left.id as int]);
        }
        CombinerArguments { left, right }
    }
}

/// The arguments of one call of a combining function.
pub open spec fn named_arguments(names: CombinerArguments, left: ExprId, right: ExprId) -> Seq<
    FieldPart,
> {
    seq![
        FieldPart { name: names.left, value: ExpressionPart::Expression(left) },
        FieldPart { name: names.right, value: ExpressionPart::Expression(right) },
    ]
}

/// One application of the combiner, and the region with its node.
pub open spec fn combined(
    region: RegionView,
    names: CombinerArguments,
    combiner: Combiner,
    left: ExprId,
    right: ExprId,
    chain: ExprId,
) -> (ExprId, RegionView) {
    let span = region.meta(chain).span;
    match combiner {
        Combiner::Keyword(keyword) => (
            region.next_node(),
            region.with_node(
                seq![
                    operand_slot(left, region.meta(left).span),
                    Spanned { value: WorkingPart::Ast(ExpressionPart::Keyword(keyword)), span },
                    operand_slot(right, region.meta(right).span),
                ],
                synthesized(region.meta(chain)),
            ),
        ),
        Combiner::Name(name) => {
            let grown = RegionView {
                records: region.records.push(named_arguments(names, left, right)),
                ..region
            };
            let arguments = RecordId { at: region.records.len() as usize };
            (
                grown.next_node(),
                grown.with_node(
                    seq![
                        Spanned {
                            value: WorkingPart::Ast(ExpressionPart::Identifier(name)),
                            span,
                        },
                        Spanned {
                            value: WorkingPart::Ast(ExpressionPart::RecordLiteral(arguments)),
                            span,
                        },
                    ],
                    synthesized(region.meta(chain)),
                ),
            )
        },
    }
}

/// Applies the combiner to two nodes: an operator infix, a function with named arguments.
pub fn combine(
    region: &mut Region,
    names: CombinerArguments,
    combiner: Combiner,
    left: ExprId,
    right: ExprId,
    chain: ExprId,
) -> (r: ExprId)
    ensures
        (r, final(region)@) == combined(old(region)@, names, combiner, left, right, chain),
{
    let meta = region.meta_of(chain);
    match combiner {
        Combiner::Keyword(keyword) => {
            let run = triple(
                wrap_as_operand(region, left),
                Spanned {
                    value: WorkingPart::Ast(ExpressionPart::Keyword(keyword)),
                    span: meta.span,
                },
                wrap_as_operand(region, right),
            );
            region.add_node(run, synthesized_meta(meta))
        },
        Combiner::Name(name) => {
            let mut fields: Vec<FieldPart> = Vec::new();
            fields.push(FieldPart { name: names.left, value: ExpressionPart::Expression(left) });
            fields.push(FieldPart { name: names.right, value: ExpressionPart::Expression(right) });
            assert(fields@ =~= named_arguments(names, left, right));
            let arguments = region.add_record(fields);
            let mut run: Vec<Spanned> = Vec::new();
            run.push(
                Spanned {
                    value: WorkingPart::Ast(ExpressionPart::Identifier(name)),
                    span: meta.span,
                },
            );
            run.push(
                Spanned {
                    value: WorkingPart::Ast(ExpressionPart::RecordLiteral(arguments)),
                    span: meta.span,
                },
            );
            proof {
                assert(run@ =~= seq![
                    Spanned {
                        value: WorkingPart::Ast(ExpressionPart::Identifier(name)),
                        span: meta.span,
                    },
                    Spanned {
                        value: WorkingPart::Ast(ExpressionPart::RecordLiteral(arguments)),
                        span: meta.span,
                    },
                ]);
            }
            region.add_node(run, synthesized_meta(meta))
        },
    }
}

/// The node and the region after the first `count` pairs have been combined from the left.
pub open spec fn combined_left(
    region: RegionView,
    names: CombinerArguments,
    combiner: Combiner,
    pairs: Seq<ExprId>,
    chain: ExprId,
    count: nat,
) -> (ExprId, RegionView)
    decreases count,
{
    if count <= 1 {
        (pairs[0], region)
    } else {
        let (acc, grown) = combined_left(
            region,
            names,
            combiner,
            pairs,
            chain,
            (count - 1) as nat,
        );
        combined(grown, names, combiner, acc, pairs[count - 1], chain)
    }
}

/// The node and the region after the last `count` pairs have been combined from the right.
pub open spec fn combined_right(
    region: RegionView,
    names: CombinerArguments,
    combiner: Combiner,
    pairs: Seq<ExprId>,
    chain: ExprId,
    count: nat,
) -> (ExprId, RegionView)
    decreases count,
{
    if count <= 1 {
        (pairs.last(), region)
    } else {
        let (acc, grown) = combined_right(
            region,
            names,
            combiner,
            pairs,
            chain,
            (count - 1) as nat,
        );
        combined(grown, names, combiner, pairs[pairs.len() - count], acc, chain)
    }
}

/// Combines the pairs of a chain.
pub fn fold_pairs(
    region: &mut Region,
    names: CombinerArguments,
    combiner: Combiner,
    direction: FoldDirection,
    pairs: &Vec<ExprId>,
    chain: ExprId,
) -> (r: ExprId)
    requires
        pairs@.len() > 0,
    ensures
        (r, final(region)@) == match direction {
            FoldDirection::Left => combined_left(
                old(region)@,
                names,
                combiner,
                pairs@,
                chain,
                pairs@.len(),
            ),
            FoldDirection::Right => combined_right(
                old(region)@,
                names,
                combiner,
                pairs@,
                chain,
                pairs@.len(),
            ),
        },
{
    let ghost before = region@;
    let mut k: usize = 1;
    match direction {
        FoldDirection::Left => {
            let mut acc = pairs[0];
            while k < pairs.len()
                invariant
                    1 <= k <= pairs.len(),
                    (acc, region@) == combined_left(
                        before,
                        names,
                        combiner,
                        pairs@,
                        chain,
                        k as nat,
                    ),
                decreases pairs.len() - k,
            {
                acc = combine(region, names, combiner, acc, pairs[k], chain);
                k = k + 1;
            }
            acc
        },
        FoldDirection::Right => {
            let mut acc = pairs[pairs.len() - 1];
            while k < pairs.len()
                invariant
                    1 <= k <= pairs.len(),
                    (acc, region@) == combined_right(
                        before,
                        names,
                        combiner,
                        pairs@,
                        chain,
                        k as nat,
                    ),
                decreases pairs.len() - k,
            {
                acc = combine(region, names, combiner, pairs[pairs.len() - 1 - k], acc, chain);
                k = k + 1;
            }
            acc
        },
    }
}

/// A run of requests as dependencies.
pub open spec fn deps_of(requests: Seq<DepRequest>) -> Seq<DepView> {
    requests.map_values(|request: DepRequest| dep_of(request, false))
}

/// A run of requests as dependencies.
fn list_deps(requests: &Vec<DepRequest>) -> (r: Vec<DispatchDep>)
    ensures
        dep_views(r@) == deps_of(requests@),
{
    let mut r: Vec<DispatchDep> = Vec::new();
    let mut i: usize = 0;
    assert(dep_views(r@) =~= deps_of(requests@).take(0));
    while i < requests.len()
        invariant
            i <= requests.len(),
            dep_views(r@) == deps_of(requests@).take(i as int),
        decreases requests.len() - i,
    {
        let ghost earlier = dep_views(r@);
        r.push(request_dep(requests[i], false));
        proof {
            assert(dep_views(r@) =~= earlier.push(dep_of(requests@[i as int], false)));
            assert(deps_of(requests@).take(i as int + 1) =~= deps_of(requests@).take(
                i as int,
            ).push(dep_of(requests@[i as int], false)));
        }
        i = i + 1;
    }
    assert(deps_of(requests@).take(i as int) =~= deps_of(requests@));
    r
}

/// What reducing a chain pair by pair comes to: the slot owns one dispatch per operand.
pub open spec fn pairwise_awaited(
    region: RegionView,
    chain: ExprId,
    combiner: Combiner,
    direction: FoldDirection,
) -> (OutcomeView, RegionView) {
    let parts = region.parts(chain);
    let (requests, grown) = operand_requests(region, operands_of(parts), region.meta(chain));
    (
        OutcomeView::ParkThenContinue {
            deps: deps_of(requests),
            park_count: 0,
            continuation: ContinuationView::Finish(
                FinishView::Pairwise {
                    operators: operators_of(parts),
                    spans: spans_of(operands_of(parts)),
                    combiner,
                    direction,
                    chain,
                },
            ),
            error_frame: Some(expr_frame(FrameLabel::OperatorChain, chain)),
            free: Seq::empty(),
        },
        grown,
    )
}

/// Waits for every operand of a chain, once, and then pairs and folds them.
pub fn install_pairwise_fold(
    region: &mut Region,
    chain: ExprId,
    combiner: Combiner,
    direction: FoldDirection,
) -> (r: Outcome)
    ensures
        (r@, final(region)@) == pairwise_awaited(old(region)@, chain, combiner, direction),
{
    let parts = region.parts_of(chain);
    let meta = region.meta_of(chain);
    let (operands, operators) = split_chain_parts(&parts);
    let spans = collect_spans(&operands);
    let requests = request_operands(region, &operands, meta);
    let free: Vec<NodeId> = Vec::new();
    assert(free@ =~= Seq::<NodeId>::empty());
    Outcome::ParkThenContinue {
        deps: list_deps(&requests),
        park_count: 0,
        continuation: Continuation::Finish(
            Finish::Pairwise { operators, spans, combiner, direction, chain },
        ),
        error_frame: Some(working_frame(FrameLabel::OperatorChain, chain)),
        free,
    }
}

/// What a pairwise chain comes to once its operands have landed.
pub open spec fn pairwise_landed(
    obligation: Option<Obligation>,
    region: RegionView,
    names: CombinerArguments,
    operators: Seq<Spanned>,
    spans: Seq<Option<Span>>,
    combiner: Combiner,
    direction: FoldDirection,
    chain: ExprId,
    results: Seq<Carried>,
) -> (OutcomeView, RegionView) {
    let (pairs, paired) = pairs_built(
        region,
        region.meta(chain),
        operators,
        spans,
        results,
        operators.len(),
    );
    let (acc, grown) = match direction {
        FoldDirection::Left => combined_left(paired, names, combiner, pairs, chain, pairs.len()),
        FoldDirection::Right => combined_right(paired, names, combiner, pairs, chain, pairs.len()),
    };
    (continued(Work::Dispatch(acc), obligation, FramePlacement::Inherit), grown)
}

/// Pairs the results of a chain's operands, folds the pairs and goes on with what comes out.
pub fn finish_pairwise_fold(
    region: &mut Region,
    names: CombinerArguments,
    operators: &Vec<Spanned>,
    spans: &Vec<Option<Span>>,
    combiner: Combiner,
    direction: FoldDirection,
    chain: ExprId,
    results: &Vec<Carried>,
    obligation: Option<Obligation>,
) -> (r: Outcome)
    requires
        operators@.len() > 0,
        spans@.len() == operators@.len() + 1,
        results@.len() == operators@.len() + 1,
    ensures
        (r@, final(region)@) == pairwise_landed(
            obligation,
            old(region)@,
            names,
            operators@,
            spans@,
            combiner,
            direction,
            chain,
            results@,
        ),
{
    let meta = region.meta_of(chain);
    let pairs = build_pairs(region, meta, operators, spans, results);
    let acc = fold_pairs(region, names, combiner, direction, &pairs, chain);
    go_on(Work::Dispatch(acc), obligation, FramePlacement::Inherit)
}

/// The combiners that are functions; any other combiner is an operator.
pub struct NamedCombiners {
    pub names: Vec<Symbol>,
}

/// What a combiner is called as.
pub open spec fn combiner_of(named: Seq<Symbol>, combiner: Symbol) -> Combiner {
    if named.contains(combiner) {
        Combiner::Name(combiner)
    } else {
        Combiner::Keyword(combiner)
    }
}

impl NamedCombiners {
    /// What a combiner is called as.
    pub fn combiner(&self, combiner: Symbol) -> (r: Combiner)
        ensures
            r == combiner_of(self.names@, combiner),
    {
        let mut i: usize = 0;
        while i < self.names.len()
            invariant
                i <= self.names.len(),
                forall|k: int| 0 <= k < i ==> self.names@[k] != combiner,
            decreases self.names.len() - i,
        {
            if self.names[i] == combiner {
                assert(self.names@[i as int] == combiner);
                return Combiner::Name(combiner);
            }
            i = i + 1;
        }
        Combiner::Keyword(combiner)
    }
}

/// A chain that fails for the given reason.
pub open spec fn chain_failed(chain: ExprId, reason: Seq<char>) -> OutcomeView {
    failed(raised(ErrorKindView::dispatch_failed(Subject::Expr(chain), reason)))
}

/// What the decision on an operator chain comes to.
pub open spec fn chain_decided(
    levels: Seq<ScopeLevel>,
    lexical: Option<&LexicalFrame>,
    labels: &Labels,
    named: Seq<Symbol>,
    obligation: Option<Obligation>,
    region: RegionView,
    expr: ExprId,
) -> (OutcomeView, RegionView) {
    let parts = region.parts(expr);
    let operators = keywords_of(parts);
    let count = (parts.len() / 2) as nat;
    match group_in(levels, operators, lexical) {
        None => (
            chain_failed(expr, undeclared_text(operators_text(labels, operators))),
            region,
        ),
        Some(group) => match plan_of(group, operators) {
            None => (
                chain_failed(expr, cross_group_text(operators_text(labels, operators))),
                region,
            ),
            Some(ChainPlan::FoldLeft) => {
                let (acc, grown) = nested_left(region, parts, region.meta(expr), count);
                (continued(Work::Dispatch(acc), obligation, FramePlacement::Inherit), grown)
            },
            Some(ChainPlan::FoldRight) => {
                let (acc, grown) = nested_right(region, parts, region.meta(expr), count);
                (continued(Work::Dispatch(acc), obligation, FramePlacement::Inherit), grown)
            },
            Some(ChainPlan::Unary) => {
                let (call, grown) = list_call(region, expr);
                (continued(Work::Dispatch(call), obligation, FramePlacement::Inherit), grown)
            },
            Some(ChainPlan::Pairwise { combiner, direction }) => pairwise_awaited(
                region,
                expr,
                combiner_of(named, combiner),
                direction,
            ),
        },
    }
}

/// Decides on an operator chain.
pub fn run(
    scope: &Scope,
    lexical: Option<&LexicalFrame>,
    labels: &Labels,
    named: &NamedCombiners,
    obligation: Option<Obligation>,
    region: &mut Region,
    expr: ExprId,
) -> (r: Outcome)
    requires
        is_chain(old(region)@.parts(expr)),
        group_in(scope.levels@, keywords_of(old(region)@.parts(expr)), lexical) matches Some(
            group,
        ) ==> (group.mode is Unary ==> parsed_operands(old(region)@.parts(expr))),
    ensures
        (r@, final(region)@) == chain_decided(
            scope.levels@,
            lexical,
            labels,
            named.names@,
            obligation,
            old(region)@,
            expr,
        ),
{
    let parts = region.parts_of(expr);
    let operators = chain_operator_symbols(&parts);
    match scope.resolve_operator_group(&operators, lexical) {
        None => {
            let probe = rendered_operators(labels, &operators);
            fail(dispatch_failed(expr, undeclared_operator_reason(probe.as_str()).as_str()))
        },
        Some(group) => match ChainPlan::of(group, &operators) {
            None => {
                let probe = rendered_operators(labels, &operators);
                fail(dispatch_failed(expr, cross_group_reason(probe.as_str()).as_str()))
            },
            Some(ChainPlan::FoldLeft) => {
                let acc = nest_left(region, expr);
                go_on(Work::Dispatch(acc), obligation, FramePlacement::Inherit)
            },
            Some(ChainPlan::FoldRight) => {
                let acc = nest_right(region, expr);
                go_on(Work::Dispatch(acc), obligation, FramePlacement::Inherit)
            },
            Some(ChainPlan::Unary) => {
                let call = call_on_list(region, expr);
                go_on(Work::Dispatch(call), obligation, FramePlacement::Inherit)
            },
            Some(ChainPlan::Pairwise { combiner, direction }) => install_pairwise_fold(
                region,
                expr,
                named.combiner(combiner),
                direction,
            ),
        },
    }
}

} // verus!
