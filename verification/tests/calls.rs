//! Keyworded calls: staging, picking an overload, and entering what was picked.

use koan_dispatch::ast::{bare, ExpressionPart, KLiteral, KeyElement, Span, Spanned, WorkingPart};
use koan_dispatch::decide::exec::{body_continue, deliver_value_args, ExecOutcome, PerCallReturn};
use koan_dispatch::decide::keyworded::{
    initial, land_eager_subs, redispatch_continue, splice_resolved_names, NO_MATCH,
    NO_MATCH_UNQUOTED,
};
use koan_dispatch::decide::resolve::Resolution;
use koan_dispatch::decide::resolve_dispatch::{
    reset_resolve_dispatch_entry_count, resolve_dispatch_entry_count, EntryCounter,
};
use koan_dispatch::decide::staging::{
    eager_shape, stage_all_eager_parts, stage_eager_part, EagerShape, PartWalk,
};
use koan_dispatch::decide::{fn_value, head_deferred, DecideCtx};
use koan_dispatch::error::{FrameLabel, KError, KErrorKind, Message, Subject};
use koan_dispatch::function::{Argument, Body, Functions, KFunction, SignatureElement};
use koan_dispatch::ktype::{KType, ScopeId, TypeRegistry};
use koan_dispatch::outcome::{
    BlockEntry, ChainOp, Continuation, Dep, DepPlacement, DepRequest, Finish, FramePlacement,
    Obligation, Outcome, ParkDeps, Resume, ReturnContract, TailContract, UserCall, Work,
};
use koan_dispatch::region::{BindKind, BinderPlan, NodeMeta, Region};
use koan_dispatch::scope::{
    OverloadEntry, OverloadState, Scope, ScopeLevel, ValueEntry, ValueState,
};
use koan_dispatch::symbol::{Labels, Symbol};
use koan_dispatch::value::{Carried, ExprId, FnId, KObject, ObjId, ProducerId};

struct World {
    labels: Labels,
    types: TypeRegistry,
    region: Region,
    scope: Scope,
    functions: Functions,
    counter: EntryCounter,
    diagnosis: Option<String>,
    obligation: Option<Obligation>,
}

fn level(id: usize) -> ScopeLevel {
    ScopeLevel {
        id: ScopeId { id },
        values: Vec::new(),
        types: Vec::new(),
        overloads: Vec::new(),
        operators: Vec::new(),
        window: None,
    }
}

fn no_meta() -> NodeMeta {
    NodeMeta { span: None, plan: None, raw: None }
}

impl World {
    fn new() -> World {
        World {
            labels: Labels::new(),
            types: TypeRegistry::new(),
            region: Region::new(),
            scope: Scope { levels: vec![level(0), level(1)] },
            functions: Functions { table: Vec::new() },
            counter: EntryCounter { entries: 0 },
            diagnosis: None,
            obligation: None,
        }
    }

    /// Declares `SHOW a b …` in a level, one parameter per type.
    fn show(&mut self, at: usize, params: &[KType], body: Body) -> FnId {
        self.show_with_role(at, params, body, None)
    }

    fn show_with_role(
        &mut self,
        at: usize,
        params: &[KType],
        body: Body,
        role: Option<Symbol>,
    ) -> FnId {
        let keyword = self.labels.intern("SHOW");
        let name = self.labels.intern("arg");
        let mut elements = vec![SignatureElement::Keyword(keyword)];
        let mut key = vec![KeyElement::Keyword(keyword)];
        for ktype in params {
            elements.push(SignatureElement::Argument(Argument { name, ktype: *ktype, role }));
            key.push(KeyElement::Slot);
        }
        let function = FnId { at: self.functions.table.len() };
        self.functions.table.push(KFunction { elements, body, captured: ScopeId { id: 7 } });
        self.scope.levels[at].overloads.push(OverloadEntry {
            key,
            index: 0,
            builtin: false,
            state: OverloadState::Bound(function),
        });
        function
    }

    /// `SHOW` with the given arguments.
    fn call(&mut self, arguments: &[ExpressionPart]) -> ExprId {
        let keyword = self.labels.intern("SHOW");
        let mut parts = vec![bare(WorkingPart::Ast(ExpressionPart::Keyword(keyword)))];
        parts.extend(arguments.iter().map(|part| bare(WorkingPart::Ast(*part))));
        self.region.add_node(parts, no_meta())
    }

    fn bind(&mut self, name: &str, state: ValueState) -> ExpressionPart {
        let name = self.labels.intern(name);
        self.scope.levels[1].values.push(ValueEntry { name, index: 0, state });
        ExpressionPart::Identifier(name)
    }

    fn decide(&mut self, expr: ExprId) -> Outcome {
        let ctx = DecideCtx {
            scope: &self.scope,
            chain: None,
            obligation: self.obligation,
            labels: &self.labels,
            functions: &self.functions,
            diagnosis: self.diagnosis.as_ref(),
        };
        initial(&ctx, &self.types, &mut self.region, expr, &mut self.counter)
    }

    fn land(&mut self, expr: ExprId, slots: &Vec<usize>, picked: Option<FnId>, results: &[Carried])
        -> Outcome {
        let ctx = DecideCtx {
            scope: &self.scope,
            chain: None,
            obligation: self.obligation,
            labels: &self.labels,
            functions: &self.functions,
            diagnosis: None,
        };
        land_eager_subs(&ctx, &self.types, &mut self.region, expr, slots, picked, &results.to_vec())
    }
}

fn number(n: f64) -> ExpressionPart {
    ExpressionPart::Literal(KLiteral::Number(n.to_bits()))
}

fn entered(outcome: Outcome) -> UserCall {
    match outcome {
        Outcome::Enter(call) => call,
        _ => panic!("expected a call to be entered"),
    }
}

fn error(outcome: Outcome) -> KErrorKind {
    match outcome {
        Outcome::Done(Err(e)) => e.kind,
        _ => panic!("expected an error"),
    }
}

#[test]
fn the_most_specific_overload_is_entered() {
    let mut w = World::new();
    w.show(1, &[KType::Any], Body::User);
    let narrow = w.show(1, &[KType::Number], Body::User);
    let expr = w.call(&[number(1.5)]);
    let call = entered(w.decide(expr));
    assert_eq!((call.function, call.outer, call.expr), (narrow, ScopeId { id: 7 }, expr));
    assert_eq!(call.arguments, vec![Carried::Object(ObjId { at: 0 })]);
    assert!(matches!(
        w.region.object(ObjId { at: 0 }),
        Some(KObject::Number(bits)) if *bits == 1.5f64.to_bits()
    ));
    assert_eq!(resolve_dispatch_entry_count(&w.counter), 1);
    reset_resolve_dispatch_entry_count(&mut w.counter);
    assert_eq!(resolve_dispatch_entry_count(&w.counter), 0);
}

/// An inner level that decides is not overruled by an outer one, however specific.
#[test]
fn inner_levels_decide_before_outer_ones() {
    let mut w = World::new();
    let inner = w.show(1, &[KType::Any], Body::User);
    w.show(0, &[KType::Number], Body::User);
    let expr = w.call(&[number(1.0)]);
    assert_eq!(entered(w.decide(expr)).function, inner);

    let mut w = World::new();
    w.show(1, &[KType::Bool], Body::User);
    let outer = w.show(0, &[KType::Number], Body::User);
    let expr = w.call(&[number(1.0)]);
    assert_eq!(entered(w.decide(expr)).function, outer, "nothing inside admits the call");
}

/// A builtin runs on the slot's next turn, under the declared return that the slot has taken on.
#[test]
fn builtins_run_on_the_next_turn() {
    let mut w = World::new();
    let builtin = w.show(0, &[KType::Any], Body::Builtin(3));
    let expr = w.call(&[number(1.0)]);
    let own = Obligation { contract: ReturnContract::Function { func: FnId { at: 9 }, site: expr } };
    w.obligation = Some(own);
    match w.decide(expr) {
        Outcome::Continue {
            work: Work::Builtin { function, expr: call },
            obligation,
            frame,
            chain,
            block_entry,
            label,
        } => {
            assert_eq!((function, call, label), (builtin, expr, expr));
            assert_eq!(obligation, Some(own));
            assert_eq!(frame, FramePlacement::Inherit);
            assert_eq!(chain, ChainOp::Unchanged);
            assert_eq!(block_entry, BlockEntry::Stay);
        }
        _ => panic!("expected the builtin"),
    }
}

#[test]
fn ties_are_ambiguous() {
    let mut w = World::new();
    w.show(1, &[KType::Number, KType::Any], Body::User);
    w.show(1, &[KType::Any, KType::Number], Body::User);
    let expr = w.call(&[number(1.0), number(2.0)]);
    match error(w.decide(expr)) {
        KErrorKind::AmbiguousDispatch { expr: named, candidates } => {
            assert_eq!((named, candidates), (expr, 2));
        }
        _ => panic!("expected an AmbiguousDispatch"),
    }
}

#[test]
fn nothing_that_admits_is_an_error() {
    let mut w = World::new();
    w.show(1, &[KType::Bool], Body::User);
    let expr = w.call(&[number(1.0)]);
    match error(w.decide(expr)) {
        KErrorKind::DispatchFailed { subject, reason: Message::Plain(reason) } => {
            assert_eq!(subject, Subject::Expr(expr));
            assert_eq!(reason, "no matching function");
            assert_eq!(reason, NO_MATCH);
        }
        _ => panic!("expected a DispatchFailed"),
    }
    w.diagnosis = Some("write it the other way round".to_string());
    match error(w.decide(expr)) {
        KErrorKind::ShapeError(Message::Plain(text)) => {
            assert_eq!(text, "write it the other way round");
        }
        _ => panic!("a form that is recognized speaks first"),
    }
}

/// A parameter that asks for code, given a value: the quote was forgotten.
#[test]
fn forgotten_quotes_are_hinted_at() {
    let mut w = World::new();
    w.show(1, &[KType::KExpression], Body::User);
    let keyword = w.labels.intern("SHOW");
    let value = w.region.add_object(KObject::Null, false);
    let parts = vec![
        bare(WorkingPart::Ast(ExpressionPart::Keyword(keyword))),
        bare(WorkingPart::Spliced { cell: Carried::Object(value), from_name: None }),
    ];
    let expr = w.region.add_node(parts, no_meta());
    match error(w.decide(expr)) {
        KErrorKind::DispatchFailed { reason: Message::Plain(reason), .. } => {
            assert_eq!(reason, NO_MATCH_UNQUOTED);
        }
        _ => panic!("expected a DispatchFailed"),
    }
}

#[test]
fn unbound_names_are_named_by_their_role() {
    let mut w = World::new();
    w.show(1, &[KType::Number], Body::User);
    let missing = w.labels.intern("missing");
    let expr = w.call(&[ExpressionPart::Identifier(missing)]);
    match error(w.decide(expr)) {
        KErrorKind::UnboundName(name) => assert_eq!(name, "missing"),
        _ => panic!("expected an UnboundName"),
    }
    let mut w = World::new();
    let role = w.labels.intern("variant type");
    w.show_with_role(1, &[KType::Number], Body::User, Some(role));
    let missing = w.labels.intern("missing");
    let expr = w.call(&[ExpressionPart::Identifier(missing)]);
    match error(w.decide(expr)) {
        KErrorKind::ShapeError(Message::Plain(text)) => {
            assert_eq!(text, "variant type `missing` is not a known type");
        }
        _ => panic!("expected a ShapeError"),
    }
}

/// The names that have not landed are waited for before any overload is looked at.
#[test]
fn claimed_names_are_waited_for() {
    let mut w = World::new();
    let source = ProducerId { edge: 4 };
    let name = w.bind("later", ValueState::Claimed(source));
    let expr = w.call(&[name, name]);
    match w.decide(expr) {
        Outcome::Park {
            deps: ParkDeps::List(deps),
            continuation: Continuation::Resume(Resume::Keyworded(own)),
            error_frame,
        } => {
            assert_eq!(deps, vec![Dep::Producer(source)], "each binder once");
            assert_eq!(own, expr);
            assert_eq!(error_frame.map(|f| f.label), Some(FrameLabel::DispatchPark));
        }
        _ => panic!("expected to wait"),
    }
}

/// An overload that is still being declared is waited for, even where another one admits.
#[test]
fn overloads_under_way_are_waited_for() {
    let mut w = World::new();
    w.show(1, &[KType::Number], Body::User);
    let keyword = w.labels.intern("SHOW");
    let source = ProducerId { edge: 8 };
    let key = vec![KeyElement::Keyword(keyword), KeyElement::Slot];
    w.scope.levels[1].install_pending_overload(key, source, 0);
    let expr = w.call(&[number(1.0)]);
    match w.decide(expr) {
        Outcome::Park { deps: ParkDeps::List(deps), .. } => {
            assert_eq!(deps, vec![Dep::Producer(source)]);
        }
        _ => panic!("expected to wait"),
    }
}

/// A name that a pick takes the value of is bound by that value.
#[test]
fn picked_names_are_replaced_by_their_values() {
    let mut w = World::new();
    let value = w.region.add_object(KObject::Bool(true), false);
    let name = w.bind("flag", ValueState::Bound(Carried::Object(value)));
    let function = w.show(1, &[KType::Bool], Body::User);
    let expr = w.call(&[name]);
    let call = entered(w.decide(expr));
    assert_eq!((call.function, call.arguments), (function, vec![Carried::Object(value)]));
    assert_ne!(call.expr, expr);
    let flag = w.labels.intern("flag");
    assert_eq!(
        w.region.parts_of(call.expr)[1].value,
        WorkingPart::Spliced { cell: Carried::Object(value), from_name: Some(flag) },
    );
}

/// What an error names shows every value but the declared name.
#[test]
fn errors_show_values_but_not_declared_names() {
    let mut w = World::new();
    let a = w.labels.intern("a");
    let b = w.labels.intern("b");
    let plan = w.region.add_plan(BinderPlan {
        name_slot: Some(0),
        name: Some((a, BindKind::Value)),
        buckets: Vec::new(),
        chain_slots: Vec::new(),
    });
    let parts: Vec<Spanned> = [a, b, a]
        .iter()
        .map(|name| bare(WorkingPart::Ast(ExpressionPart::Identifier(*name))))
        .collect();
    let expr =
        w.region.add_node(parts.clone(), NodeMeta { span: None, plan: Some(plan), raw: None });
    let cell = Carried::Type(KType::Number);
    let outcomes = vec![
        Some(Resolution::Resolved(cell)),
        Some(Resolution::Resolved(cell)),
        Some(Resolution::Unbound(a)),
    ];
    let named = splice_resolved_names(&mut w.region, expr, &outcomes);
    let shown = w.region.parts_of(named);
    assert_eq!(shown[0], parts[0]);
    assert_eq!(shown[1].value, WorkingPart::Spliced { cell, from_name: Some(b) });
    assert_eq!(shown[2], parts[2]);
}

/// Everything that has to be evaluated is staged at once, and the pick is made over the results.
#[test]
fn calls_are_picked_over_what_landed() {
    let mut w = World::new();
    let function = w.show(1, &[KType::Number, KType::Any], Body::User);
    let inner = w.region.add_node(Vec::new(), no_meta());
    let list = w.region.add_list(Vec::new());
    let expr = w.call(&[ExpressionPart::Expression(inner), ExpressionPart::ListLiteral(list)]);
    let (held, slots) = match w.decide(expr) {
        Outcome::Park {
            deps: ParkDeps::List(deps),
            continuation: Continuation::Finish(Finish::EagerSubs { expr, part_indices, picked }),
            error_frame,
        } => {
            assert_eq!(
                deps,
                vec![
                    Dep::Request(DepRequest::Dispatch {
                        expr: inner,
                        placement: DepPlacement::OwnScope
                    }),
                    Dep::Request(DepRequest::ListLit(list)),
                ],
            );
            assert_eq!(picked, None);
            assert_eq!(error_frame.map(|f| f.label), Some(FrameLabel::Bind));
            (expr, part_indices)
        }
        _ => panic!("expected to wait"),
    };
    assert_eq!(slots, vec![1, 2]);
    assert_eq!(w.region.parts_of(held)[1].value, WorkingPart::StagedSlot);
    assert_eq!(resolve_dispatch_entry_count(&w.counter), 0, "no overload has been looked at");
    let n = Carried::Object(w.region.add_object(KObject::Number(1), false));
    let l = Carried::Object(w.region.add_object(KObject::Null, false));
    let filled = match w.land(held, &slots, None, &[n, l]) {
        Outcome::Continue { work: Work::Keyworded(filled), .. } => filled,
        _ => panic!("expected the call to be resolved"),
    };
    let call = entered(w.decide(filled));
    assert_eq!((call.function, call.arguments), (function, vec![n, l]));

    let committed = entered(w.land(held, &slots, Some(function), &[n, l]));
    assert_eq!(committed.function, function, "a committed pick is not made again");
    match w.land(held, &slots, Some(function), &[l, l]) {
        Outcome::Done(Err(e)) => assert!(matches!(e.kind, KErrorKind::TypeMismatch { .. })),
        _ => panic!("a committed pick still checks its arguments"),
    }
}

/// Slots that the parser keeps raw are not evaluated.
#[test]
fn raw_slots_are_not_staged() {
    let mut w = World::new();
    let inner = w.region.add_node(Vec::new(), no_meta());
    let parts = vec![
        bare(WorkingPart::Ast(ExpressionPart::Expression(inner))),
        bare(WorkingPart::Ast(ExpressionPart::Expression(inner))),
    ];
    let raw = w.region.add_stamp(vec![true, false]);
    let expr = w.region.add_node(parts, NodeMeta { span: None, plan: None, raw: Some(raw) });
    match stage_all_eager_parts(&mut w.region, expr, &Vec::new()) {
        PartWalk::Respliced { staged, .. } => assert_eq!(staged.part_indices, vec![1]),
        PartWalk::Unchanged => panic!("the second slot is staged"),
    }
    match stage_all_eager_parts(&mut w.region, expr, &vec![0]) {
        PartWalk::Respliced { staged, .. } => assert_eq!(staged.part_indices, vec![0, 1]),
        PartWalk::Unchanged => panic!("a name that is taken by value is staged"),
    }
}

#[test]
fn eager_parts_are_known_by_their_shape() {
    let mut w = World::new();
    let inner = w.region.add_node(Vec::new(), no_meta());
    let list = w.region.add_list(Vec::new());
    let dict = w.region.add_dict(Vec::new());
    let record = w.region.add_record(Vec::new());
    let name = w.labels.intern("x");
    for (part, shape) in [
        (ExpressionPart::Expression(inner), Some(EagerShape::Subexpression)),
        (ExpressionPart::SigiledTypeExpr(inner), Some(EagerShape::TypeExpression)),
        (ExpressionPart::RecordType(inner), Some(EagerShape::TypeExpression)),
        (ExpressionPart::ListLiteral(list), Some(EagerShape::ListLiteral)),
        (ExpressionPart::DictLiteral(dict), Some(EagerShape::DictLiteral)),
        (ExpressionPart::RecordLiteral(record), Some(EagerShape::RecordLiteral)),
        (ExpressionPart::QuotedExpression(inner), None),
        (ExpressionPart::Identifier(name), None),
        (ExpressionPart::Type(name), None),
        (number(1.0), None),
    ] {
        assert_eq!(eager_shape(part), shape);
        assert_eq!(stage_eager_part(&mut w.region, part).is_ok(), shape.is_some());
    }
    match stage_eager_part(&mut w.region, ExpressionPart::SigiledTypeExpr(inner)) {
        Ok(DepRequest::Dispatch { expr, .. }) => {
            let own = ExpressionPart::SigiledTypeExpr(inner);
            assert_eq!(w.region.parts_of(expr), vec![bare(WorkingPart::Ast(own))]);
        }
        _ => panic!("a type expression is dispatched on its own"),
    }
}

/// Every slot but a keyword delivers a value, and the first that has none is an error.
#[test]
fn arguments_are_delivered_slot_by_slot() {
    let mut w = World::new();
    let keyword = w.labels.intern("SHOW");
    let inner = w.region.add_node(Vec::new(), no_meta());
    let cell = Carried::Type(KType::Str);
    let parts = vec![
        bare(WorkingPart::Ast(ExpressionPart::Keyword(keyword))),
        bare(WorkingPart::Ast(ExpressionPart::QuotedExpression(inner))),
        bare(WorkingPart::Spliced { cell, from_name: None }),
        bare(WorkingPart::Ast(ExpressionPart::Literal(KLiteral::Str(keyword)))),
    ];
    let mut cells = vec![None, None, Some(cell), None];
    assert!(deliver_value_args(&mut w.region, &parts, &mut cells).is_ok());
    assert_eq!(
        cells,
        vec![
            None,
            Some(Carried::Object(ObjId { at: 0 })),
            Some(cell),
            Some(Carried::Object(ObjId { at: 1 })),
        ],
    );
    assert!(matches!(
        w.region.object(ObjId { at: 0 }),
        Some(KObject::KExpression(own)) if *own == inner
    ));
    assert!(matches!(w.region.object(ObjId { at: 1 }), Some(KObject::Str(s)) if *s == keyword));

    let parts = vec![bare(WorkingPart::Ast(ExpressionPart::Expression(inner)))];
    let mut cells = vec![None];
    match deliver_value_args(&mut w.region, &parts, &mut cells) {
        Err(e) => match e.kind {
            KErrorKind::User(text) => {
                assert_eq!(text, "exec: a call argument was not a resolved value at the bind site");
            }
            _ => panic!("expected a User error"),
        },
        Ok(_) => panic!("an unevaluated part has no value"),
    }
}

fn call_of(function: FnId, obligation: Option<Obligation>) -> UserCall {
    UserCall {
        function,
        arguments: Vec::new(),
        outer: ScopeId { id: 3 },
        obligation,
        expr: ExprId { at: 5 },
    }
}

/// A body runs in a fresh frame under the captured scope; a return type that has to be evaluated
/// joins the leading statements.
#[test]
fn bodies_are_entered_under_their_contract() {
    let func = FnId { at: 2 };
    let site = ExprId { at: 5 };
    let (a, b, t) = (ExprId { at: 10 }, ExprId { at: 11 }, ExprId { at: 12 });
    let body = |ran: ExecOutcome| match body_continue(&call_of(func, None), ran) {
        Outcome::Continue { work: Work::Body { leading, tail, contract }, frame, label, .. } => {
            assert_eq!(frame, FramePlacement::FreshTail { outer: ScopeId { id: 3 } });
            assert_eq!((label, tail), (site, b));
            (leading, contract)
        }
        _ => panic!("expected a body"),
    };
    let (leading, contract) = body(ExecOutcome::Tail {
        leading: vec![a],
        tail: b,
        ret: PerCallReturn::FromSignature,
    });
    assert_eq!(leading, vec![a]);
    assert_eq!(contract, TailContract::Eager(Some(ReturnContract::Function { func, site })));
    let (_, contract) = body(ExecOutcome::Tail {
        leading: Vec::new(),
        tail: b,
        ret: PerCallReturn::Resolved(KType::Bool),
    });
    let per_call = ReturnContract::PerCall { func, ret: KType::Bool, site };
    assert_eq!(contract, TailContract::Eager(Some(per_call)));
    let (leading, contract) = body(ExecOutcome::DeferredExprTail {
        type_expr: t,
        leading: vec![a],
        tail: b,
    });
    assert_eq!(leading, vec![a, t]);
    assert_eq!(contract, TailContract::FromLastResult { func, site });
    let failing = KError::new(KErrorKind::User("no body".to_string()));
    let failed = body_continue(&call_of(func, None), ExecOutcome::Errored(failing));
    assert!(matches!(failed, Outcome::Done(Err(_))));
}

/// A name at the head is looked up: a function is applied, a claim waited for, anything else is
/// an error.
#[test]
fn named_heads_are_looked_up() {
    let mut w = World::new();
    let text = w.labels.intern("text");
    let value = w.region.add_object(KObject::Str(text), false);
    let source = ProducerId { edge: 2 };
    let bound = w.bind("bound", ValueState::Bound(Carried::Object(value)));
    let claimed = w.bind("claimed", ValueState::Claimed(source));
    let missing = ExpressionPart::Identifier(w.labels.intern("missing"));
    let record = w.region.add_record(Vec::new());
    let mut outcomes = Vec::new();
    for head in [bound, claimed, missing] {
        let parts = vec![
            bare(WorkingPart::Ast(head)),
            bare(WorkingPart::Ast(ExpressionPart::RecordLiteral(record))),
        ];
        let expr = w.region.add_node(parts, no_meta());
        let ctx = DecideCtx {
            scope: &w.scope,
            chain: None,
            obligation: None,
            labels: &w.labels,
            functions: &w.functions,
            diagnosis: None,
        };
        outcomes.push((expr, fn_value::initial(&ctx, &mut w.types, &mut w.region, expr)));
    }
    let mut outcomes = outcomes.into_iter();
    match error(outcomes.next().unwrap().1) {
        KErrorKind::TypeMismatch { arg, expected, .. } => {
            assert_eq!((arg.as_str(), expected.as_str()), ("verb", "KFunction"));
        }
        _ => panic!("a string is no function"),
    }
    match outcomes.next().unwrap() {
        (
            expr,
            Outcome::Park {
                deps: ParkDeps::List(deps),
                continuation: Continuation::Resume(Resume::FunctionValue(own)),
                error_frame,
            },
        ) => {
            assert_eq!(deps, vec![Dep::Producer(source)]);
            assert_eq!(own, expr);
            assert!(error_frame.is_none());
        }
        _ => panic!("expected to wait"),
    }
    match error(outcomes.next().unwrap().1) {
        KErrorKind::UnboundName(name) => assert_eq!(name, "missing"),
        _ => panic!("expected an UnboundName"),
    }
}

/// A head that has to be evaluated is waited for; what it came to has to be callable.
#[test]
fn evaluated_heads_have_to_be_callable() {
    let mut w = World::new();
    let inner = w.region.add_node(Vec::new(), no_meta());
    let span = Some(Span { start: 3, end: 9 });
    let parts = vec![bare(WorkingPart::Ast(ExpressionPart::Expression(inner)))];
    let expr = w.region.add_node(parts, NodeMeta { span, plan: None, raw: None });
    match head_deferred::initial_expr(&w.region, expr) {
        Outcome::Park {
            deps: ParkDeps::List(deps),
            continuation: Continuation::Finish(Finish::Head { expr: own, type_only }),
            error_frame,
        } => {
            let request = DepRequest::Dispatch { expr: inner, placement: DepPlacement::OwnScope };
            assert_eq!(deps, vec![Dep::Request(request)]);
            assert_eq!((own, type_only), (expr, false));
            assert!(error_frame.is_none());
        }
        _ => panic!("expected to wait"),
    }
    match head_deferred::initial_type(&mut w.region, expr) {
        Outcome::Park {
            deps: ParkDeps::List(deps),
            continuation: Continuation::Finish(Finish::Head { type_only, .. }),
            ..
        } => {
            assert!(type_only);
            match deps[0] {
                Dep::Request(DepRequest::Dispatch { expr: head, .. }) => {
                    assert_eq!(w.region.meta_of(head).span, span);
                    assert_eq!(w.region.parts_of(head).len(), 1);
                }
                _ => panic!("the head is dispatched on its own"),
            }
        }
        _ => panic!("expected to wait"),
    }
    let value = Carried::Object(w.region.add_object(KObject::Null, false));
    let function = w.show(1, &[], Body::User);
    let callable = Carried::Object(
        w.region.add_object(KObject::KFunction { function, ktype: KType::Any }, false),
    );
    let classify = |head: Carried, type_only: bool| {
        match head_deferred::classify_head(&w.types, &w.labels, &w.region, head, type_only) {
            Ok(_) => None,
            Err(e) => Some(e.kind),
        }
    };
    assert!(classify(callable, false).is_none());
    assert!(classify(Carried::Type(KType::Number), true).is_none());
    assert!(matches!(classify(callable, true), Some(KErrorKind::TypeMismatch { .. })));
    assert!(matches!(classify(value, true), Some(KErrorKind::TypeMismatch { .. })));
    match classify(value, false) {
        Some(KErrorKind::DispatchFailed { subject, reason: Message::Plain(reason) }) => {
            assert_eq!(subject, Subject::Value(value));
            assert_eq!(reason, "head evaluates to a non-callable value");
        }
        _ => panic!("expected a DispatchFailed"),
    }
    let name = w.labels.intern("Missing");
    let unresolved = Carried::UnresolvedType(name);
    match head_deferred::classify_head(&w.types, &w.labels, &w.region, unresolved, false) {
        Err(e) => assert!(matches!(e.kind, KErrorKind::UnboundName(text) if text == "Missing")),
        Ok(_) => panic!("an unresolved type is no head"),
    }
}

#[test]
fn redispatch_keeps_the_obligation() {
    let mut w = World::new();
    let expr = w.call(&[]);
    let own = Obligation { contract: ReturnContract::Function { func: FnId { at: 1 }, site: expr } };
    let ctx = DecideCtx {
        scope: &w.scope,
        chain: None,
        obligation: Some(own),
        labels: &w.labels,
        functions: &w.functions,
        diagnosis: None,
    };
    match redispatch_continue(&ctx, expr) {
        Outcome::Continue { work: Work::Keyworded(next), obligation, .. } => {
            assert_eq!((next, obligation), (expr, Some(own)));
        }
        _ => panic!("expected the call to be resolved"),
    }
}
