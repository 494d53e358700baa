//! Operator chains: which group answers, and what a chain is rewritten into.

use koan_dispatch::ast::{ExpressionPart, KLiteral, KeyElement, Span, Spanned, WorkingPart};
use koan_dispatch::decide::operator_chain::{
    distinct_symbols, finish_pairwise, run, split_chain_parts, ChainPlan,
};
use koan_dispatch::decide::DecideCtx;
use koan_dispatch::dispatch::operator_chain::{
    combine, finish_pairwise_fold, run as run_named, CombinerArguments, NamedCombiners,
};
use koan_dispatch::dispatch::outcome as named_outcome;
use koan_dispatch::error::{FrameLabel, KErrorKind, Message, Subject};
use koan_dispatch::function::Functions;
use koan_dispatch::ktype::{KType, ScopeId};
use koan_dispatch::outcome::{
    Continuation, Dep, DepPlacement, DepRequest, Finish, Outcome, ParkDeps, Resume, Work,
};
use koan_dispatch::region::{NodeMeta, Region};
use koan_dispatch::scope::{
    FoldDirection, OperatorEntry, OperatorGroup, ReductionMode, Scope, ScopeLevel,
};
use koan_dispatch::symbol::{Labels, Symbol};
use koan_dispatch::value::{Carried, ExprId, ProducerId};

struct Chain {
    labels: Labels,
    region: Region,
    scope: Scope,
    functions: Functions,
}

impl Chain {
    fn new() -> Chain {
        let level = ScopeLevel {
            id: ScopeId { id: 0 },
            values: Vec::new(),
            types: Vec::new(),
            overloads: Vec::new(),
            operators: Vec::new(),
            window: None,
        };
        Chain {
            labels: Labels::new(),
            region: Region::new(),
            scope: Scope { levels: vec![level] },
            functions: Functions { table: Vec::new() },
        }
    }

    /// Declares a group, which is found under every choice of its operators.
    fn group(&mut self, operators: &[&str], mode: ReductionMode) {
        let symbols: Vec<Symbol> = operators.iter().map(|o| self.labels.intern(o)).collect();
        for choice in 1..(1 << symbols.len()) {
            let probe: Vec<Symbol> = (0..symbols.len())
                .filter(|i| choice & (1 << i) != 0)
                .map(|i| symbols[i])
                .collect();
            self.scope.levels[0].operators.push(OperatorEntry {
                probe,
                index: 0,
                group: OperatorGroup { operators: symbols.clone(), mode },
            });
        }
    }

    /// `1 op 2 op 3 …`, every part under a span of its own.
    fn chain(&mut self, operators: &[&str]) -> ExprId {
        let mut parts = Vec::new();
        for (i, operator) in operators.iter().enumerate() {
            parts.push(self.slot(ExpressionPart::Literal(KLiteral::Number(i as u64)), 2 * i));
            let symbol = self.labels.intern(operator);
            parts.push(self.slot(ExpressionPart::Keyword(symbol), 2 * i + 1));
        }
        let n = operators.len();
        parts.push(self.slot(ExpressionPart::Literal(KLiteral::Number(n as u64)), 2 * n));
        let span = Some(Span { start: 0, end: 100 });
        self.region.add_node(parts, NodeMeta { span, plan: None, raw: None })
    }

    fn slot(&self, part: ExpressionPart, at: usize) -> Spanned {
        Spanned {
            value: WorkingPart::Ast(part),
            span: Some(Span { start: at, end: at + 1 }),
        }
    }

    fn decide(&mut self, expr: ExprId) -> Outcome {
        let ctx = DecideCtx {
            scope: &self.scope,
            chain: None,
            obligation: None,
            labels: &self.labels,
            functions: &self.functions,
            diagnosis: None,
        };
        run(&ctx, &mut self.region, expr)
    }

    /// The expression that a rewritten chain goes on with.
    fn rewritten(&mut self, expr: ExprId) -> ExprId {
        match self.decide(expr) {
            Outcome::Continue { work: Work::Dispatch(next), .. } => next,
            _ => panic!("a rewritten chain is dispatched"),
        }
    }

    fn text(&self, expr: ExprId) -> String {
        let parts = self.region.parts_of(expr);
        let words: Vec<String> = parts.iter().map(|p| self.part_text(p.value)).collect();
        words.join(" ")
    }

    fn part_text(&self, part: WorkingPart) -> String {
        match part {
            WorkingPart::Expression(inner) => format!("({})", self.text(inner)),
            WorkingPart::Ast(ExpressionPart::Expression(inner)) => format!("({})", self.text(inner)),
            WorkingPart::Ast(ExpressionPart::Keyword(k)) => self.labels.render(k),
            WorkingPart::Ast(ExpressionPart::Identifier(k)) => self.labels.render(k),
            WorkingPart::Ast(ExpressionPart::Literal(KLiteral::Number(n))) => format!("{n}"),
            WorkingPart::Ast(ExpressionPart::ListLiteral(list)) => {
                let items: Vec<String> = self
                    .region
                    .list_of(list)
                    .iter()
                    .map(|item| self.part_text(WorkingPart::Ast(*item)))
                    .collect();
                format!("[{}]", items.join(" "))
            }
            WorkingPart::Ast(ExpressionPart::RecordLiteral(record)) => {
                let fields: Vec<String> = self
                    .region
                    .record_of(record)
                    .iter()
                    .map(|f| {
                        let value = self.part_text(WorkingPart::Ast(f.value));
                        format!("{} = {value}", self.labels.render(f.name))
                    })
                    .collect();
                format!("{{{}}}", fields.join(", "))
            }
            WorkingPart::Spliced { cell: Carried::Type(KType::Sibling(n)), .. } => format!("<{n}>"),
            _ => panic!("no other part occurs"),
        }
    }
}

/// The results of a chain's operands, told apart by a number.
fn results(count: usize) -> Vec<Carried> {
    (0..count).map(|i| Carried::Type(KType::Sibling(i))).collect()
}

#[test]
fn left_folds_nest_to_the_left() {
    let mut c = Chain::new();
    c.group(&["+", "-"], ReductionMode::FoldLeft);
    let expr = c.chain(&["+", "-", "+"]);
    let next = c.rewritten(expr);
    assert_eq!(c.text(next), "((0 + 1) - 2) + 3");
    let two = c.chain(&["+", "+"]);
    let next = c.rewritten(two);
    assert_eq!(c.text(next), "(0 + 1) + 2");
}

#[test]
fn right_folds_nest_to_the_right() {
    let mut c = Chain::new();
    c.group(&["+", "-"], ReductionMode::FoldRight);
    let expr = c.chain(&["-", "+", "-"]);
    let next = c.rewritten(expr);
    assert_eq!(c.text(next), "0 - (1 + (2 - 3))");
}

#[test]
fn unary_chains_become_one_call_on_a_list() {
    let mut c = Chain::new();
    c.group(&["max"], ReductionMode::Unary);
    let expr = c.chain(&["max", "max"]);
    let next = c.rewritten(expr);
    assert_eq!(c.text(next), "max [0 1 2]");
    let parts = c.region.parts_of(next);
    assert_eq!(parts[0].span, Some(Span { start: 1, end: 2 }), "the first operator's own span");
    assert_eq!(parts[1].span, Some(Span { start: 0, end: 100 }), "the extent of the chain");
}

/// Every operand is dispatched once; a middle operand's result stands in both of its pairs.
#[test]
fn pairwise_chains_share_their_middle_operands() {
    for (direction, folded) in [
        (FoldDirection::Left, "((<0> < <1>) and (<1> < <2>)) and (<2> < <3>)"),
        (FoldDirection::Right, "(<0> < <1>) and ((<1> < <2>) and (<2> < <3>))"),
    ] {
        let mut c = Chain::new();
        let combiner = c.labels.intern("and");
        c.group(&["<"], ReductionMode::Pairwise { combiner, direction });
        let expr = c.chain(&["<", "<", "<"]);
        let (operators, spans) = match c.decide(expr) {
            Outcome::Park {
                deps: ParkDeps::List(deps),
                continuation: Continuation::Finish(Finish::Pairwise { operators, spans, chain, .. }),
                error_frame,
            } => {
                assert_eq!(chain, expr);
                assert_eq!(deps.len(), 4);
                for (i, dep) in deps.iter().enumerate() {
                    match dep {
                        Dep::Request(DepRequest::Dispatch { expr, placement }) => {
                            assert_eq!(*placement, DepPlacement::OwnScope);
                            assert_eq!(c.text(*expr), format!("{i}"));
                        }
                        _ => panic!("every operand is a dispatch of its own"),
                    }
                }
                assert_eq!(error_frame.map(|f| f.label), Some(FrameLabel::OperatorChain));
                (operators, spans)
            }
            _ => panic!("the operands are waited for"),
        };
        let ctx = DecideCtx {
            scope: &c.scope,
            chain: None,
            obligation: None,
            labels: &c.labels,
            functions: &c.functions,
            diagnosis: None,
        };
        let next = match finish_pairwise(
            &ctx,
            &mut c.region,
            &operators,
            &spans,
            combiner,
            direction,
            expr,
            &results(4),
        ) {
            Outcome::Continue { work: Work::Dispatch(next), .. } => next,
            _ => panic!("the folded pairs are dispatched"),
        };
        assert_eq!(c.text(next), folded);
    }
}

/// A combining function takes its two inputs by name.
#[test]
fn named_combiners_are_called_with_left_and_right() {
    let mut c = Chain::new();
    let combiner = c.labels.intern("both");
    c.group(&["<"], ReductionMode::Pairwise { combiner, direction: FoldDirection::Left });
    let expr = c.chain(&["<", "<"]);
    let named = NamedCombiners { names: vec![combiner] };
    let outcome = run_named(&c.scope, None, &c.labels, &named, None, &mut c.region, expr);
    let (operators, spans, own) = match outcome {
        named_outcome::Outcome::ParkThenContinue {
            deps,
            park_count,
            continuation:
                named_outcome::Continuation::Finish(named_outcome::Finish::Pairwise {
                    operators,
                    spans,
                    combiner,
                    ..
                }),
            ..
        } => {
            assert_eq!((deps.len(), park_count), (3, 0), "the operands are owned");
            (operators, spans, combiner)
        }
        _ => panic!("the operands are waited for"),
    };
    assert_eq!(own, named_outcome::Combiner::Name(combiner));
    let names = CombinerArguments::of(&mut c.labels);
    let outcome = finish_pairwise_fold(
        &mut c.region,
        names,
        &operators,
        &spans,
        own,
        FoldDirection::Left,
        expr,
        &results(3),
        None,
    );
    match outcome {
        named_outcome::Outcome::Continue { work: named_outcome::Work::Dispatch(next), .. } => {
            assert_eq!(c.text(next), "both {left = (<0> < <1>), right = (<1> < <2>)}");
        }
        _ => panic!("the folded pairs are dispatched"),
    }
    assert_eq!(
        NamedCombiners { names: Vec::new() }.combiner(combiner),
        named_outcome::Combiner::Keyword(combiner),
    );
    let keyword = named_outcome::Combiner::Keyword(combiner);
    let infix = combine(&mut c.region, names, keyword, expr, expr, expr);
    assert_eq!(c.text(infix), "(0 < 1 < 2) both (0 < 1 < 2)");
}

fn reason(outcome: Outcome, expr: ExprId) -> String {
    match outcome {
        Outcome::Done(Err(e)) => match e.kind {
            KErrorKind::DispatchFailed { subject, reason: Message::Plain(reason) } => {
                assert_eq!(subject, Subject::Expr(expr));
                reason
            }
            _ => panic!("expected a DispatchFailed"),
        },
        _ => panic!("expected an error"),
    }
}

#[test]
fn undeclared_operators_are_named() {
    let mut c = Chain::new();
    let expr = c.chain(&["+", "*", "+"]);
    let outcome = c.decide(expr);
    assert_eq!(
        reason(outcome, expr),
        "no operator group declares all of `* +`; chainable operators must be declared together \
         in one module",
    );
    let none = NamedCombiners { names: Vec::new() };
    match run_named(&c.scope, None, &c.labels, &none, None, &mut c.region, expr) {
        named_outcome::Outcome::Done(Err(e)) => {
            assert!(matches!(e.kind, KErrorKind::DispatchFailed { .. }));
        }
        _ => panic!("expected an error"),
    }
}

/// A group that is found but does not declare every operator of the chain is refused.
#[test]
fn cross_group_chains_are_refused() {
    let mut c = Chain::new();
    let plus = c.labels.intern("+");
    let times = c.labels.intern("*");
    c.scope.levels[0].operators.push(OperatorEntry {
        probe: vec![plus, times],
        index: 0,
        group: OperatorGroup { operators: vec![plus], mode: ReductionMode::FoldLeft },
    });
    let expr = c.chain(&["+", "*"]);
    let outcome = c.decide(expr);
    assert_eq!(
        reason(outcome, expr),
        "operators `* +` span more than one operator group; chaining operators across groups is \
         disallowed",
    );
}

/// A declaration that is under way is waited for, under either key that it may come to have.
#[test]
fn declarations_under_way_are_waited_for() {
    let mut c = Chain::new();
    let plus = c.labels.intern("+");
    let times = c.labels.intern("*");
    let first = ProducerId { edge: 1 };
    let second = ProducerId { edge: 2 };
    let binary = vec![KeyElement::Slot, KeyElement::Keyword(plus), KeyElement::Slot];
    let unary = vec![KeyElement::Keyword(times), KeyElement::Slot];
    c.scope.levels[0].install_pending_overload(unary, second, 0);
    c.scope.levels[0].install_pending_overload(binary, first, 0);
    let expr = c.chain(&["*", "+", "*"]);
    match c.decide(expr) {
        Outcome::Park {
            deps: ParkDeps::List(deps),
            continuation: Continuation::Resume(Resume::OperatorChain(own)),
            ..
        } => {
            assert_eq!(own, expr);
            assert_eq!(deps, vec![Dep::Producer(first), Dep::Producer(second)]);
        }
        _ => panic!("the declarations are waited for"),
    }
}

#[test]
fn chains_split_into_operands_and_operators() {
    let mut c = Chain::new();
    let expr = c.chain(&["+", "-"]);
    let parts = c.region.parts_of(expr);
    let (operands, operators) = split_chain_parts(&parts);
    assert_eq!(operands, vec![parts[0], parts[2], parts[4]]);
    assert_eq!(operators, vec![parts[1], parts[3]]);
}

#[test]
fn plans_follow_the_mode_of_the_group() {
    let a = Symbol { id: 0 };
    let b = Symbol { id: 1 };
    let group = OperatorGroup { operators: vec![a], mode: ReductionMode::Unary };
    assert_eq!(ChainPlan::of(&group, &vec![a, a]), Some(ChainPlan::Unary));
    assert_eq!(ChainPlan::of(&group, &vec![a, b]), None);
    assert_eq!(distinct_symbols(&vec![b, a, b, a]), vec![a, b]);
}
