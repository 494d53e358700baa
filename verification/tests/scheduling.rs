//! Dispatch over a scheduler's graph: names with a standing, picks before evaluation, and the
//! writes that an outcome comes to.

use koan_dispatch::ast::{bare, ExpressionPart, KLiteral, KeyElement, Spanned, WorkingPart};
use koan_dispatch::decide::exec::{ExecOutcome, PerCallReturn};
use koan_dispatch::decide::resolve_dispatch::{EntryCounter, PickPass};
use koan_dispatch::decide::DecideCtx;
use koan_dispatch::dispatch::bare_name::{
    build_bare_outcomes, resolve_bare_carrier, resolve_name_part, BareCarrier, NameOutcome,
    ProducerEntry, Standing, Standings,
};
use koan_dispatch::dispatch::exec::{invoke, map_arg_carriers, run_invoked, Invocation};
use koan_dispatch::dispatch::harness::{
    Bodies, BodyEntry, Edge, EdgeKind, NodeStep, Scheduler, SlotRun, StatementBlock, Submitted,
};
use koan_dispatch::dispatch::keyworded::{
    finish, initial, install_overload_park, land_eager_subs, mark_covered_subs,
    park_walk_producer, PendingSub, StagedSub,
};
use koan_dispatch::dispatch::outcome::{
    Continuation, DispatchDep, Finish, Outcome, Resume, WatchedDep, Work,
};
use koan_dispatch::dispatch::resolve_dispatch::{classify_slots, DispatchOutcome, OverloadBucket};
use koan_dispatch::dispatch::single_poll::{bare_type_leaf, type_call, TypeHead};
use koan_dispatch::dispatch::struct_value::{construct, prepare_value_parts};
use koan_dispatch::dispatch::submit::{
    stamp_installs, statement_binder_installs, submit_expression, SubmitContext, SubmittedWork,
};
use koan_dispatch::error::{FrameLabel, KError, KErrorKind, Message};
use koan_dispatch::function::{Argument, Body, Functions, KFunction, SignatureElement};
use koan_dispatch::ktype::{Field, KType, ScopeId, TypeRegistry};
use koan_dispatch::outcome::{
    BlockEntry, BlockRequest, DepPlacement, DepRequest, FinishId, FrameId, FramePlacement,
    Obligation, ParkDeps, ReturnContract,
};
use koan_dispatch::region::{BindKind, BinderPlan, FieldPart, NodeMeta, PlanId, Region};
use koan_dispatch::scope::{
    OverloadEntry, OverloadState, Scope, ScopeLevel, ValueEntry, ValueState,
};
use koan_dispatch::symbol::{Labels, Symbol};
use koan_dispatch::value::{Carried, Cell, ExprId, FnId, KObject, NodeId, ObjId, ProducerId};

const OWN: NodeId = NodeId { at: 50 };

fn no_meta() -> NodeMeta {
    NodeMeta { span: None, plan: None, raw: None }
}

fn number(n: f64) -> ExpressionPart {
    ExpressionPart::Literal(KLiteral::Number(n.to_bits()))
}

fn failing() -> KError {
    KError::new(KErrorKind::User("the binder failed".to_string()))
}

struct World {
    labels: Labels,
    types: TypeRegistry,
    region: Region,
    scope: Scope,
    functions: Functions,
    standings: Standings,
    counter: EntryCounter,
}

impl World {
    fn new() -> World {
        let level = ScopeLevel {
            id: ScopeId { id: 0 },
            values: Vec::new(),
            types: Vec::new(),
            overloads: Vec::new(),
            operators: Vec::new(),
            window: None,
        };
        World {
            labels: Labels::new(),
            types: TypeRegistry::new(),
            region: Region::new(),
            scope: Scope { levels: vec![level] },
            functions: Functions { table: Vec::new() },
            standings: Standings { entries: Vec::new() },
            counter: EntryCounter { entries: 0 },
        }
    }

    fn show(&mut self, params: &[(&str, KType)], body: Body) -> FnId {
        let keyword = self.labels.intern("SHOW");
        let mut elements = vec![SignatureElement::Keyword(keyword)];
        let mut key = vec![KeyElement::Keyword(keyword)];
        for (name, ktype) in params {
            let name = self.labels.intern(name);
            elements
                .push(SignatureElement::Argument(Argument { name, ktype: *ktype, role: None }));
            key.push(KeyElement::Slot);
        }
        let function = FnId { at: self.functions.table.len() };
        self.functions.table.push(KFunction { elements, body, captured: ScopeId { id: 7 } });
        self.scope.levels[0].overloads.push(OverloadEntry {
            key,
            index: 0,
            builtin: false,
            state: OverloadState::Bound(function),
        });
        function
    }

    fn call(&mut self, arguments: &[ExpressionPart]) -> ExprId {
        let keyword = self.labels.intern("SHOW");
        let mut parts = vec![bare(WorkingPart::Ast(ExpressionPart::Keyword(keyword)))];
        parts.extend(arguments.iter().map(|part| bare(WorkingPart::Ast(*part))));
        self.region.add_node(parts, no_meta())
    }

    fn claim(&mut self, name: &str, edge: usize, standing: Standing, waits: &[NodeId]) -> Symbol {
        let name = self.labels.intern(name);
        let producer = ProducerId { edge };
        self.scope.levels[0].install_placeholder(name, producer, 0, BindKind::Value);
        self.standings.entries.push(ProducerEntry {
            producer,
            standing,
            waits_for: waits.to_vec(),
        });
        name
    }

    fn bind(&mut self, name: &str, cell: Carried) -> Symbol {
        let name = self.labels.intern(name);
        let state = ValueState::Bound(cell);
        self.scope.levels[0].values.push(ValueEntry { name, index: 0, state });
        name
    }

    fn decide(&mut self, expr: ExprId, evaluated: bool) -> Outcome {
        let ctx = DecideCtx {
            scope: &self.scope,
            chain: None,
            obligation: None,
            labels: &self.labels,
            functions: &self.functions,
            diagnosis: None,
        };
        let step = if evaluated { finish } else { initial };
        step(
            &ctx,
            &self.types,
            &self.standings,
            &mut self.region,
            expr,
            OWN,
            &mut self.counter,
        )
    }

    fn name_outcome(&self, name: Symbol, consumer: Option<NodeId>) -> NameOutcome {
        let part = ExpressionPart::Identifier(name);
        resolve_name_part(&self.scope, part, &self.standings, None, consumer, &self.types)
    }
}

fn error(outcome: Outcome) -> KError {
    match outcome {
        Outcome::Done(Err(e)) => e,
        _ => panic!("expected an error"),
    }
}

/// A claimed name comes to what the standing of its binder says.
#[test]
fn names_follow_the_standing_of_their_binder() {
    let mut w = World::new();
    let running = w.claim("running", 1, Standing::Running, &[OWN]);
    let landed = w.claim("landed", 2, Standing::Landed, &[]);
    let failed = w.claim("failed", 3, Standing::Failed(failing()), &[]);
    let missing = w.labels.intern("missing");
    let other = Some(NodeId { at: 51 });
    assert!(matches!(w.name_outcome(running, Some(OWN)), NameOutcome::Cycle(n) if n == running));
    for consumer in [None, other] {
        assert!(matches!(
            w.name_outcome(running, consumer),
            NameOutcome::Parked(p) if p == ProducerId { edge: 1 }
        ));
    }
    assert!(matches!(w.name_outcome(landed, None), NameOutcome::Unbound(n) if n == landed));
    assert!(matches!(w.name_outcome(missing, None), NameOutcome::Unbound(n) if n == missing));
    match w.name_outcome(failed, None) {
        NameOutcome::ProducerErrored(e) => {
            assert!(matches!(e.kind, KErrorKind::User(text) if text == "the binder failed"));
        }
        _ => panic!("expected the binder's error"),
    }
    let part = ExpressionPart::Identifier(failed);
    assert!(resolve_bare_carrier(&w.scope, part, &w.standings, None, &w.types).is_err());
    let part = ExpressionPart::Identifier(running);
    assert!(matches!(
        resolve_bare_carrier(&w.scope, part, &w.standings, None, &w.types),
        Ok(BareCarrier::Parked(_))
    ));
    let parts: Vec<Spanned> = vec![
        bare(WorkingPart::Ast(ExpressionPart::Identifier(missing))),
        bare(WorkingPart::Ast(ExpressionPart::Identifier(failed))),
    ];
    assert!(build_bare_outcomes(&w.scope, &parts, &w.standings, None, &w.types).is_err());
    let outcomes = build_bare_outcomes(&w.scope, &parts[..1].to_vec(), &w.standings, None, &w.types);
    assert!(matches!(outcomes, Ok(found) if found.len() == 1 && found[0].is_some()));
}

/// A failed binder fails the expression that names it, under a frame of its own.
#[test]
fn failed_binders_fail_their_readers() {
    let mut w = World::new();
    let failed = w.claim("failed", 3, Standing::Failed(failing()), &[]);
    w.show(&[("x", KType::Any)], Body::User);
    let expr = w.call(&[ExpressionPart::Identifier(failed)]);
    let e = error(w.decide(expr, false));
    assert_eq!(e.frames.len(), 1);
    assert_eq!(e.frames[0].label, FrameLabel::WrapResolve);
    assert_eq!(w.counter.entries, 0);
}

/// A pick runs in a new frame under the scope that it was defined in, a builtin in the caller's.
#[test]
fn picks_are_invoked_in_their_frame() {
    let mut w = World::new();
    let function = w.show(&[("x", KType::Number)], Body::User);
    let expr = w.call(&[number(1.0)]);
    match w.decide(expr, false) {
        Outcome::Continue { work: Work::Invoke { function: own, .. }, frame, free, .. } => {
            assert_eq!(own, function);
            assert_eq!(frame, FramePlacement::FreshTail { outer: ScopeId { id: 7 } });
            assert!(free.is_empty());
        }
        _ => panic!("expected the call"),
    }
    let mut w = World::new();
    w.show(&[("x", KType::Any)], Body::Builtin(0));
    let expr = w.call(&[number(1.0)]);
    match w.decide(expr, false) {
        Outcome::Continue { frame, .. } => assert_eq!(frame, FramePlacement::Inherit),
        _ => panic!("expected the call"),
    }
    assert_eq!(w.counter.entries, 1);
}

/// Names that landed are spliced and the others waited for, before anything is evaluated.
#[test]
fn picks_wait_for_names_before_they_evaluate() {
    let mut w = World::new();
    let cell = Carried::Object(w.region.add_object(KObject::Bool(true), false));
    let bound = w.bind("bound", cell);
    let later = w.claim("later", 4, Standing::Running, &[]);
    let source = ProducerId { edge: 4 };
    w.show(&[("a", KType::Any), ("b", KType::Any)], Body::User);
    let expr = w.call(&[ExpressionPart::Identifier(bound), ExpressionPart::Identifier(later)]);
    for evaluated in [false, true] {
        match w.decide(expr, evaluated) {
            Outcome::ParkThenContinue { deps, park_count, continuation, .. } => {
                assert_eq!(park_count, 1);
                assert!(matches!(deps[..], [DispatchDep::Existing(n)] if n.at == source.edge));
                match continuation {
                    Continuation::Resume { resume: Resume::Initial(_), .. } => assert!(!evaluated),
                    Continuation::Resume { resume: Resume::Finish(_), .. } => assert!(evaluated),
                    _ => panic!("expected to start over"),
                }
            }
            _ => panic!("expected to wait"),
        }
    }
}

/// A slot that would wait for itself is a deadlock.
#[test]
fn alias_cycles_are_reported() {
    let mut w = World::new();
    let name = w.claim("Loop", 4, Standing::Running, &[OWN]);
    let part = WorkingPart::Ast(ExpressionPart::Type(name));
    let mut waits = Vec::new();
    let producer = ProducerId { edge: 4 };
    match park_walk_producer(&w.labels, &w.standings, producer, OWN, part, &mut waits) {
        Err(e) => match e.kind {
            KErrorKind::SchedulerDeadlock { pending, sample } => {
                assert_eq!((pending, sample.as_str()), (1, "cycle in type alias `Loop`"));
            }
            _ => panic!("expected a SchedulerDeadlock"),
        },
        Ok(_) => panic!("expected an error"),
    }
    let free = NodeId { at: 1 };
    for _ in 0..2 {
        assert!(
            park_walk_producer(&w.labels, &w.standings, producer, free, part, &mut waits).is_ok()
        );
    }
    assert_eq!(waits, vec![producer], "each binder once");
}

/// A pick whose parts have to be evaluated is made again over their values.
#[test]
fn evaluated_parts_are_picked_over_again() {
    let mut w = World::new();
    let function = w.show(&[("x", KType::Number)], Body::User);
    let inner = w.region.add_node(Vec::new(), no_meta());
    let expr = w.call(&[ExpressionPart::Expression(inner)]);
    let (held, slots) = match w.decide(expr, false) {
        Outcome::ParkThenContinue {
            deps,
            park_count,
            continuation:
                Continuation::Finish(Finish::EagerSubs { expr: held, part_indices, picked }),
            error_frame,
            ..
        } => {
            assert!(matches!(
                deps[..],
                [DispatchDep::Dispatch { expr, placement: DepPlacement::OwnScope, binder_covered }]
                    if expr == inner && !binder_covered
            ));
            assert_eq!((park_count, picked), (0, None), "the work is owned");
            assert_eq!(error_frame.map(|f| f.label), Some(FrameLabel::Bind));
            (held, part_indices)
        }
        _ => panic!("expected to wait"),
    };
    let value = Carried::Object(w.region.add_object(KObject::Number(0), false));
    let ctx = DecideCtx {
        scope: &w.scope,
        chain: None,
        obligation: None,
        labels: &w.labels,
        functions: &w.functions,
        diagnosis: None,
    };
    let landed = land_eager_subs(&ctx, &mut w.region, held, &slots, None, &vec![value]);
    let filled = match landed {
        Outcome::Continue { work: Work::Resolve(filled), .. } => filled,
        _ => panic!("expected the call to be resolved again"),
    };
    match w.decide(filled, true) {
        Outcome::Continue { work: Work::Invoke { function: own, .. }, .. } => {
            assert_eq!(own, function);
        }
        _ => panic!("expected the call"),
    }
}

/// An expression that no overload admits yet, but whose parts can still be evaluated, is put off
/// once; behind that it is an error.
#[test]
fn deferral_happens_once() {
    let mut w = World::new();
    w.show(&[("x", KType::Bool)], Body::User);
    let inner = w.region.add_node(Vec::new(), no_meta());
    let expr = w.call(&[ExpressionPart::Expression(inner)]);
    assert!(matches!(w.decide(expr, false), Outcome::ParkThenContinue { .. }));
    let value = Carried::Object(w.region.add_object(KObject::Null, false));
    let keyword = w.labels.intern("SHOW");
    let parts = vec![
        bare(WorkingPart::Ast(ExpressionPart::Keyword(keyword))),
        bare(WorkingPart::Spliced { cell: value, from_name: None }),
    ];
    let filled = w.region.add_node(parts, no_meta());
    match error(w.decide(filled, true)).kind {
        KErrorKind::DispatchFailed { reason: Message::Plain(reason), .. } => {
            assert_eq!(reason, "no matching function");
        }
        _ => panic!("expected a DispatchFailed"),
    }
}

/// Binders of overloads: a failed one fails the expression, one that landed or waits for the slot
/// is passed over, and without any other left nothing matches.
#[test]
fn overload_binders_are_sorted_by_their_standing() {
    let mut w = World::new();
    w.claim("a", 1, Standing::Running, &[]);
    w.claim("b", 2, Standing::Landed, &[]);
    w.claim("c", 3, Standing::Running, &[OWN]);
    w.claim("d", 4, Standing::Failed(failing()), &[]);
    let expr = w.call(&[]);
    let park = |edges: &[usize]| {
        let producers: Vec<ProducerId> = edges.iter().map(|e| ProducerId { edge: *e }).collect();
        install_overload_park(&w.standings, &producers, expr, OWN)
    };
    match park(&[2, 1, 3, 1]) {
        Outcome::ParkThenContinue { deps, .. } => {
            assert!(matches!(deps[..], [DispatchDep::Existing(n)] if n.at == 1));
        }
        _ => panic!("expected to wait"),
    }
    assert!(matches!(error(park(&[2, 3])).kind, KErrorKind::DispatchFailed { .. }));
    let e = error(park(&[1, 4]));
    assert!(matches!(e.kind, KErrorKind::User(_)));
    assert_eq!(e.frames[0].label, FrameLabel::DispatchPark);
}

#[test]
fn resolution_says_what_each_slot_is_for() {
    let mut w = World::new();
    let code = w.show(&[("body", KType::KExpression), ("x", KType::Any)], Body::User);
    let inner = w.region.add_node(Vec::new(), no_meta());
    let body = ExpressionPart::Expression(inner);
    let expr = w.call(&[body, body]);
    let parts = w.region.parts_of(expr);
    let slots = classify_slots(&w.types, &w.functions.table[0].elements, &parts, None);
    assert_eq!(slots.eager_indices, Some(vec![2]), "the code is captured, the rest evaluated");
    let outcomes =
        match build_bare_outcomes(&w.scope, &parts, &w.standings, None, &w.types) {
            Ok(outcomes) => outcomes,
            Err(_) => panic!("no binder failed"),
        };
    let resolution = w.scope.resolve_dispatch(
        &w.functions,
        &w.types,
        &w.region,
        expr,
        None,
        &outcomes,
        &mut w.counter,
    );
    match resolution {
        DispatchOutcome::Resolved(resolved) => {
            assert_eq!(resolved.function, code);
            assert!(resolved.placeholder.is_none() && resolved.pending_overload_bucket.is_none());
        }
        _ => panic!("expected the overload"),
    }
    let candidates = vec![code];
    let bucket = OverloadBucket { candidates: &candidates };
    assert_eq!(
        bucket.pick_strict(&w.functions, &w.types, &w.region, &parts, &outcomes),
        PickPass::Picked(0),
    );
}

/// Work in a slot of the declaration chain is covered by the statement around it.
#[test]
fn covered_slots_are_marked() {
    let request = DepRequest::Dispatch { expr: ExprId { at: 1 }, placement: DepPlacement::OwnScope };
    let fresh = |slot: usize, binder_covered: bool| StagedSub {
        slot,
        sub: PendingSub::Fresh { request, binder_covered },
    };
    let reused = StagedSub { slot: 1, sub: PendingSub::Reuse(NodeId { at: 3 }) };
    let mut staged = vec![fresh(0, false), fresh(1, false), fresh(2, true), reused];
    mark_covered_subs(&mut staged, Some(&vec![false, true]));
    assert_eq!(staged, vec![fresh(0, false), fresh(1, true), fresh(2, true), reused]);
    mark_covered_subs(&mut staged, None);
    assert_eq!(staged, vec![fresh(0, false), fresh(1, true), fresh(2, true), reused]);
}

fn scheduler() -> Scheduler {
    Scheduler {
        submitted: vec![Submitted::ListLit(koan_dispatch::ast::ListId { at: 0 })],
        results: vec![Some(Ok(Carried::Type(KType::Str)))],
        edges: Vec::new(),
        freed: Vec::new(),
        frames: vec![ScopeId { id: 0 }],
    }
}

fn dispatch(at: usize, placement: DepPlacement) -> DispatchDep {
    DispatchDep::Dispatch { expr: ExprId { at }, placement, binder_covered: false }
}

/// Dependencies are submitted in order, a body statement by statement; the first ones are parked
/// on and the others owned.
#[test]
fn waits_become_slots_and_edges() {
    let mut s = scheduler();
    let bodies = Bodies {
        entries: vec![BodyEntry {
            body: ExprId { at: 3 },
            statements: vec![ExprId { at: 30 }, ExprId { at: 31 }],
        }],
    };
    let scope = ScopeId { id: 4 };
    let frame = FrameId { at: 6 };
    let outcome = Outcome::ParkThenContinue {
        deps: vec![
            DispatchDep::Existing(NodeId { at: 0 }),
            dispatch(1, DepPlacement::OwnScope),
            dispatch(2, DepPlacement::ActiveFrame),
            dispatch(3, DepPlacement::InScope(scope)),
            DispatchDep::BodyBlock { frame, statements: vec![ExprId { at: 40 }] },
        ],
        park_count: 1,
        continuation: Continuation::Combine(FinishId { at: 2 }),
        error_frame: None,
        free: vec![NodeId { at: 9 }],
    };
    match s.apply_outcome(&bodies, outcome, OWN) {
        NodeStep::Replace { deps, park_count, run, carrier, frame, .. } => {
            assert_eq!(deps, (0..6).map(|at| NodeId { at }).collect::<Vec<NodeId>>());
            assert_eq!((park_count, carrier, frame), (1, None, None));
            match run {
                SlotRun::Combine { error_frame, combine } => {
                    assert_eq!(error_frame.map(|f| f.label), Some(FrameLabel::Combine));
                    assert_eq!(combine, FinishId { at: 2 });
                }
                _ => panic!("expected to combine"),
            }
        }
        _ => panic!("expected the slot to wait"),
    }
    let block = StatementBlock::Scope(scope);
    assert_eq!(
        s.submitted[1..],
        [
            Submitted::Here { expr: ExprId { at: 1 }, binder_covered: false },
            Submitted::InFrame { expr: ExprId { at: 2 }, binder_covered: false },
            Submitted::Statement { expr: ExprId { at: 30 }, block, index: 0 },
            Submitted::Statement { expr: ExprId { at: 31 }, block, index: 1 },
            Submitted::Statement {
                expr: ExprId { at: 40 },
                block: StatementBlock::Frame(frame),
                index: 0
            },
        ],
    );
    assert_eq!(s.edges.len(), 6);
    assert_eq!(s.edges[0], Edge { from: NodeId { at: 0 }, to: OWN, kind: EdgeKind::Parked });
    assert!(s.edges[1..].iter().all(|e| e.kind == EdgeKind::Owned && e.to == OWN));
    assert_eq!(s.freed, vec![NodeId { at: 9 }]);
}

/// A slot that goes on gets the frame it names; a fresh one is opened.
#[test]
fn continuing_slots_get_their_frame() {
    let bodies = Bodies { entries: Vec::new() };
    for (placement, frame, opened) in [
        (FramePlacement::Inherit, None, 1),
        (FramePlacement::FreshChild { frame: FrameId { at: 8 } }, Some(FrameId { at: 8 }), 1),
        (FramePlacement::FreshTail { outer: ScopeId { id: 3 } }, Some(FrameId { at: 1 }), 2),
    ] {
        let mut s = scheduler();
        let contract = ReturnContract::Function { func: FnId { at: 0 }, site: ExprId { at: 0 } };
        let outcome = Outcome::Continue {
            work: Work::Dispatch(ExprId { at: 1 }),
            obligation: Some(Obligation { contract }),
            frame: placement,
            block_entry: BlockEntry::Stay,
            body_index: 4,
            free: vec![NodeId { at: 2 }],
        };
        match s.apply_outcome(&bodies, outcome, OWN) {
            NodeStep::Replace { deps, run, frame: own, obligation, body_index, .. } => {
                assert!(deps.is_empty());
                assert!(matches!(run, SlotRun::Now(Work::Dispatch(e)) if e == ExprId { at: 1 }));
                assert_eq!((own, body_index), (frame, 4));
                assert_eq!(obligation, Some(Obligation { contract }));
            }
            _ => panic!("expected the slot to go on"),
        }
        assert_eq!(s.frames.len(), opened);
        assert_eq!(s.freed, vec![NodeId { at: 2 }]);
    }
}

/// A watched piece of work is owned and waited for alone, whatever it comes to.
#[test]
fn watched_work_is_waited_for_alone() {
    let bodies = Bodies { entries: Vec::new() };
    let mut s = scheduler();
    let watched = WatchedDep::Dispatch {
        expr: ExprId { at: 5 },
        placement: DepPlacement::InScope(ScopeId { id: 2 }),
        binder_covered: false,
    };
    let outcome = Outcome::ParkThenContinue {
        deps: Vec::new(),
        park_count: 0,
        continuation: Continuation::Catch { watched, finish: FinishId { at: 1 } },
        error_frame: None,
        free: Vec::new(),
    };
    match s.apply_outcome(&bodies, outcome, OWN) {
        NodeStep::Replace { deps, run, .. } => {
            assert_eq!(deps, vec![NodeId { at: 1 }]);
            assert!(matches!(run, SlotRun::Caught(f) if f == FinishId { at: 1 }));
        }
        _ => panic!("expected the slot to wait"),
    }
    assert_eq!(
        s.submitted[1],
        Submitted::Statement {
            expr: ExprId { at: 5 },
            block: StatementBlock::Scope(ScopeId { id: 2 }),
            index: 0
        },
    );
    assert_eq!(
        s.edges,
        vec![Edge { from: NodeId { at: 1 }, to: OWN, kind: EdgeKind::Owned }],
    );
    assert_eq!(s.realize_catch_dep(WatchedDep::Existing(NodeId { at: 0 })), NodeId { at: 0 });
    assert_eq!(s.submitted.len(), 2);
}

/// A forwarded slot is done when its source is, and another name for it until then.
#[test]
fn forwarding_is_done_or_an_alias() {
    let bodies = Bodies { entries: Vec::new() };
    let mut s = scheduler();
    s.results.push(Some(Err(failing())));
    s.results.push(None);
    let mut forward =
        |at: usize| s.apply_outcome(&bodies, Outcome::Forward(NodeId { at }), OWN);
    assert!(matches!(
        forward(0),
        NodeStep::Done(Ok(cell)) if cell == Carried::Type(KType::Str)
    ));
    assert!(matches!(forward(1), NodeStep::Done(Err(_))));
    for at in [2, 3] {
        assert!(matches!(forward(at), NodeStep::Alias(n) if n.at == at));
    }
    let done = s.apply_outcome(&bodies, Outcome::Done(Err(failing())), OWN);
    assert!(matches!(done, NodeStep::Done(Err(_))));
}

/// The arguments of a call are bound by name; a name that is bound twice keeps its place.
#[test]
fn calls_bind_their_arguments_by_name() {
    let mut w = World::new();
    let function = w.show(&[("x", KType::Number), ("y", KType::Any)], Body::User);
    let builtin = w.show(&[("x", KType::Any)], Body::Builtin(6));
    let (x, y) = (w.labels.intern("x"), w.labels.intern("y"));
    let one = Carried::Type(KType::Number);
    let two = Carried::Type(KType::Str);
    let argument =
        |name: Symbol| SignatureElement::Argument(Argument { name, ktype: KType::Any, role: None });
    assert_eq!(
        map_arg_carriers(&vec![argument(x), argument(y), argument(x)], &vec![
            Some(one),
            Some(one),
            Some(two)
        ]),
        vec![Cell { name: x, value: two }, Cell { name: y, value: one }],
    );
    assert!(map_arg_carriers(&vec![argument(x)], &vec![None]).is_empty());

    let expr = w.call(&[number(2.0), number(3.0)]);
    let contract = ReturnContract::Function { func: function, site: expr };
    let ctx = DecideCtx {
        scope: &w.scope,
        chain: None,
        obligation: Some(Obligation { contract }),
        labels: &w.labels,
        functions: &w.functions,
        diagnosis: None,
    };
    let frame = FrameId { at: 3 };
    let call = match invoke(&ctx, &w.types, &mut w.region, function, expr, Some(frame)) {
        Invocation::Body(call) => call,
        _ => panic!("expected a body"),
    };
    assert_eq!(
        call.arguments,
        vec![
            Cell { name: x, value: Carried::Object(ObjId { at: 0 }) },
            Cell { name: y, value: Carried::Object(ObjId { at: 1 }) },
        ],
    );
    assert!(call.in_chain);
    assert_eq!((call.frame, call.function), (frame, function));
    let deferred = ExecOutcome::DeferredExprTail {
        type_expr: ExprId { at: 20 },
        leading: Vec::new(),
        tail: ExprId { at: 21 },
    };
    match run_invoked(None, &call, deferred) {
        koan_dispatch::outcome::Outcome::Park {
            deps: ParkDeps::Block(BlockRequest::Body { statements, .. }),
            ..
        } => assert_eq!(statements, vec![ExprId { at: 20 }]),
        _ => panic!("the return type is evaluated first"),
    }
    let direct = ExecOutcome::Tail {
        leading: Vec::new(),
        tail: ExprId { at: 21 },
        ret: PerCallReturn::Resolved(KType::Bool),
    };
    match run_invoked(None, &call, direct) {
        koan_dispatch::outcome::Outcome::Continue { obligation, block_entry, .. } => {
            let own = ReturnContract::PerCall { func: function, ret: KType::Bool, site: expr };
            assert_eq!(obligation, Some(Obligation { contract: own }));
            assert_eq!(block_entry, BlockEntry::FrameScope(frame));
        }
        _ => panic!("expected the tail"),
    }
    let expr = w.region.add_node(
        vec![
            bare(WorkingPart::Ast(ExpressionPart::Keyword(x))),
            bare(WorkingPart::Spliced { cell: two, from_name: None }),
        ],
        no_meta(),
    );
    match invoke(&ctx, &w.types, &mut w.region, builtin, expr, None) {
        Invocation::Builtin { at, carriers } => {
            assert_eq!(at, 6);
            assert_eq!(carriers, vec![Cell { name: x, value: two }]);
        }
        _ => panic!("expected the builtin"),
    }
}

fn field(name: Symbol, ktype: KType) -> Field {
    Field { name, ktype }
}

/// Values go in the order of the declaration, however they were written.
#[test]
fn structs_are_laid_out_as_declared() {
    let mut w = World::new();
    let (x, y, z) = (w.labels.intern("x"), w.labels.intern("y"), w.labels.intern("z"));
    let fields = vec![field(x, KType::Number), field(y, KType::Bool)];
    let part = |name: Symbol, n: f64| FieldPart { name, value: number(n) };
    let laid = |named: Vec<FieldPart>| match prepare_value_parts(&w.labels, &fields, Ok(named)) {
        Ok(parts) => Ok(parts),
        Err(e) => Err(e.kind),
    };
    assert!(matches!(
        laid(vec![part(y, 2.0), part(x, 1.0)]),
        Ok(parts) if parts == vec![number(1.0), number(2.0)]
    ));
    match laid(vec![part(z, 3.0), part(x, 1.0)]) {
        Err(KErrorKind::MissingArg(name)) => {
            assert_eq!(name, "y", "what is missing is named before what is unknown");
        }
        _ => panic!("expected a MissingArg"),
    }
    match laid(vec![part(x, 1.0), part(z, 3.0), part(y, 2.0)]) {
        Err(KErrorKind::ShapeError(Message::Plain(text))) => {
            assert_eq!(text, "unknown field `z` in struct construction");
        }
        _ => panic!("expected a ShapeError"),
    }
    match prepare_value_parts(&w.labels, &fields, Err("not named".to_string())) {
        Err(e) => {
            assert!(matches!(
                e.kind,
                KErrorKind::ShapeError(Message::Plain(text)) if text == "not named"
            ));
        }
        Ok(_) => panic!("expected an error"),
    }
}

/// A struct holds one cell per field, in the order of the declaration.
#[test]
fn structs_hold_their_checked_values() {
    let mut w = World::new();
    let names: Vec<Symbol> = (0..20).map(|i| w.labels.intern(&format!("f{}", 19 - i))).collect();
    let fields: Vec<Field> = names.iter().map(|name| field(*name, KType::Number)).collect();
    let values: Vec<ObjId> =
        (0..20).map(|i| w.region.add_object(KObject::Number(i), false)).collect();
    let own = KType::Sibling(3);
    match construct(&w.types, &w.labels, &w.region, own, &fields, &values) {
        Ok(KObject::Struct { fields, identity }) => {
            assert_eq!(identity, own);
            let expected: Vec<Cell> = names
                .iter()
                .zip(values.iter())
                .map(|(name, value)| Cell { name: *name, value: Carried::Object(*value) })
                .collect();
            assert_eq!(fields, expected);
        }
        _ => panic!("expected a struct"),
    }
    let twice = vec![field(names[0], KType::Number), field(names[0], KType::Number)];
    match construct(&w.types, &w.labels, &w.region, own, &twice, &values[..2].to_vec()) {
        Ok(KObject::Struct { fields, .. }) => {
            let cell = Cell { name: names[0], value: Carried::Object(values[1]) };
            assert_eq!(fields, vec![cell], "the later value takes the earlier's place");
        }
        _ => panic!("expected a struct"),
    }
    match construct(&w.types, &w.labels, &w.region, own, &fields, &values[..3].to_vec()) {
        Err(e) => match e.kind {
            KErrorKind::ArityMismatch { expected, got } => assert_eq!((expected, got), (20, 3)),
            _ => panic!("expected an ArityMismatch"),
        },
        Ok(_) => panic!("expected an error"),
    }
    let null = w.region.add_object(KObject::Null, false);
    match construct(&w.types, &w.labels, &w.region, own, &fields[..1].to_vec(), &vec![null]) {
        Err(e) => match e.kind {
            KErrorKind::TypeMismatch { arg, expected, got } => {
                assert_eq!(arg, "f19");
                assert_eq!((expected.as_str(), got.as_str()), ("Number", "Null"));
            }
            _ => panic!("expected a TypeMismatch"),
        },
        Ok(_) => panic!("expected an error"),
    }
}

/// A claimed type name: its binder's error, another look, or a wait.
#[test]
fn type_names_follow_the_standing_of_their_binder() {
    let mut w = World::new();
    let standings = [Standing::Running, Standing::Landed, Standing::Failed(failing())];
    let mut names = Vec::new();
    for (edge, standing) in standings.into_iter().enumerate() {
        let name = w.labels.intern(&format!("T{edge}"));
        let producer = ProducerId { edge };
        w.scope.levels[0].install_placeholder(name, producer, 0, BindKind::Type);
        w.standings.entries.push(ProducerEntry { producer, standing, waits_for: Vec::new() });
        names.push(name);
    }
    let leaf = |name: Symbol| {
        bare_type_leaf(&w.scope, None, &w.types, &w.standings, &w.labels, None, name)
    };
    assert!(matches!(
        leaf(names[0]),
        Outcome::ParkThenContinue {
            continuation: Continuation::Resume { resume: Resume::TypeLeaf(n), .. },
            ..
        } if n == names[0]
    ));
    assert!(matches!(
        leaf(names[1]),
        Outcome::Continue { work: Work::TypeLeaf(n), .. } if n == names[1]
    ));
    assert!(matches!(error(leaf(names[2])).kind, KErrorKind::User(_)));
    let expr = ExprId { at: 0 };
    let head = |name: Symbol| type_call(&w.scope, None, &w.standings, &w.labels, name, expr);
    assert!(matches!(
        head(names[0]),
        TypeHead::Settled(Outcome::ParkThenContinue {
            continuation: Continuation::Resume { resume: Resume::TypeCall(e), .. },
            ..
        }) if e == expr
    ));
    for name in [names[1], names[2]] {
        match head(name) {
            TypeHead::Settled(outcome) => {
                assert!(matches!(error(outcome).kind, KErrorKind::UnboundName(_)));
            }
            TypeHead::Apply(_) => panic!("expected an error"),
        }
    }
}

/// A region that hands out its own handles nests its groups in order.
#[test]
fn groups_lie_in_front_of_what_holds_them() {
    let part = |at: usize| bare(WorkingPart::Ast(ExpressionPart::Expression(ExprId { at })));
    let mut region = Region::new();
    assert!(region.is_nested_in_order());
    let inner = region.add_node(Vec::new(), no_meta());
    region.add_node(vec![part(inner.at)], no_meta());
    assert!(region.is_nested_in_order());
    let next = region.nodes.len();
    region.add_node(vec![part(inner.at), part(next)], no_meta());
    assert!(!region.is_nested_in_order(), "a node is no group of itself");
}

/// A binder form claims its own name and those of the declarations in its own chain, but nothing
/// of a block of statements.
#[test]
fn declaration_chains_are_claimed_together() {
    let mut w = World::new();
    let (a, b) = (w.labels.intern("a"), w.labels.intern("b"));
    let mut plan = |name: Symbol, chain_slots: Vec<bool>, region: &mut Region| {
        region.add_plan(BinderPlan {
            name_slot: Some(0),
            name: Some((name, BindKind::Value)),
            buckets: Vec::new(),
            chain_slots,
        })
    };
    let inner_plan: PlanId = plan(b, Vec::new(), &mut w.region);
    let outer_plan: PlanId = plan(a, vec![false, true, true, false], &mut w.region);
    let name = bare(WorkingPart::Ast(ExpressionPart::Identifier(a)));
    let meta = |plan: PlanId| NodeMeta { span: None, plan: Some(plan), raw: None };
    let inner = w.region.add_node(vec![name, name], meta(inner_plan));
    let block = w.region.add_node(vec![name, name], meta(inner_plan));
    let part = |expr: ExprId| bare(WorkingPart::Ast(ExpressionPart::Expression(expr)));
    let outer = w
        .region
        .add_node(vec![name, part(inner), part(block), part(inner)], meta(outer_plan));
    let group = w.region.add_node(vec![part(outer)], no_meta());
    let bodies = Bodies {
        entries: vec![BodyEntry { body: block, statements: vec![inner] }],
    };
    for expr in [outer, group] {
        assert_eq!(
            statement_binder_installs(&w.region, &bodies, expr),
            vec![outer_plan, inner_plan],
        );
    }
    let statement = submit_expression(&w.region, &bodies, outer, SubmitContext::Statement);
    assert!(matches!(statement.work, SubmittedWork::Dispatch(e) if e == outer));
    let source = ProducerId { edge: 8 };
    stamp_installs(&mut w.scope.levels[0], &w.region, &statement.installs, 3, source);
    let claims: Vec<Symbol> = w.scope.levels[0].values.iter().map(|v| v.name).collect();
    assert_eq!(claims, vec![a, b]);
    assert!(w.scope.levels[0]
        .values
        .iter()
        .all(|v| v.index == 3 && v.state == ValueState::Claimed(source)));
    for binder_covered in [false, true] {
        let context = SubmitContext::SubDispatch { binder_covered };
        let sub = submit_expression(&w.region, &bodies, inner, context);
        assert!(sub.installs.is_empty());
        match sub.work {
            SubmittedWork::Dispatch(e) => assert!(binder_covered && e == inner),
            SubmittedWork::Fail(e) => {
                assert!(!binder_covered);
                assert!(matches!(e.kind, KErrorKind::NestedBinder { expr, .. } if expr == inner));
            }
        }
    }
}
