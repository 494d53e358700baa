//! What a slot does between its turns: actions, tails, submission, field lists, the ambient
//! context, and the texts of errors.

use koan_dispatch::ambient::{AmbientContext, NodePayload, ParkState};
use koan_dispatch::ast::{bare, ExpressionPart, KeyElement, WorkingPart};
use koan_dispatch::decide::action::{
    block_placement, finish_tail, run_action, settle_contract, Action, ActionKind, WriteOp,
};
use koan_dispatch::decide::exec::{invoke_builtin, run_body};
use koan_dispatch::decide::field_list::{
    elaborate_record_value, feed_of, finish_record_value, rewalk_fields, FieldListContext,
    FieldListDeferral, FieldListOutcome, FieldNameKind,
};
use koan_dispatch::decide::submit::{
    stamp_claims, submit_expression, submit_pre_errored, SubmitContext,
};
use koan_dispatch::error::{
    propagate_dep_error, FrameLabel, KError, KErrorKind, Message, TraceFrame,
};
use koan_dispatch::ktype::{Field, KType, ScopeId, TypeNode, TypeRegistry};
use koan_dispatch::outcome::{
    keep_first, BlockEntry, BlockRequest, BodyPlacement, ChainOp, Continuation, Dep, DepPlacement,
    DepRequest, Finish, FinishId, FrameId, FramePlacement, Obligation, Outcome, ParkDeps,
    ReturnContract, TailContract, Work,
};
use koan_dispatch::region::{BindKind, BinderPlan, NodeMeta, Region};
use koan_dispatch::scope::{
    NameLookup, OverloadState, Scope, ScopeLevel, TypeLookup, ValueEntry, ValueState,
};
use koan_dispatch::symbol::Labels;
use koan_dispatch::text::{comes_before, decimal, dedup, quoted_list, sort};
use koan_dispatch::value::{Carried, ExprId, FnId, KObject, ProducerId};

fn contract(at: usize) -> ReturnContract {
    ReturnContract::Function { func: FnId { at }, site: ExprId { at: 0 } }
}

fn tail(
    leading: Vec<ExprId>,
    contract: TailContract,
    frame_placement: FramePlacement,
    block_entry: BlockEntry,
) -> Action {
    Action {
        effects: vec![WriteOp { at: 4 }, WriteOp { at: 3 }],
        next: ActionKind::Tail { leading, tail: ExprId { at: 9 }, contract, frame_placement, block_entry },
    }
}

/// A tail without leading statements is gone on with at once; the writes are handed over in order.
#[test]
fn lone_tails_continue_at_once() {
    let frame = FrameId { at: 2 };
    for (placement, entry, chain) in [
        (FramePlacement::Inherit, BlockEntry::Stay, ChainOp::Unchanged),
        (
            FramePlacement::FreshChild { frame },
            BlockEntry::FrameScope(frame),
            ChainOp::EnterBlock { index: 1 },
        ),
    ] {
        let mut effects = vec![WriteOp { at: 1 }];
        let own = TailContract::Eager(Some(contract(5)));
        match run_action(None, &mut effects, tail(Vec::new(), own, placement, entry)) {
            Outcome::Continue {
                work: Work::Dispatch(next),
                obligation,
                frame,
                chain: own_chain,
                block_entry,
                label,
            } => {
                assert_eq!((next, label), (ExprId { at: 9 }, ExprId { at: 9 }));
                assert_eq!(obligation, Some(Obligation { contract: contract(5) }));
                assert_eq!((frame, block_entry, own_chain), (placement, entry, chain));
            }
            _ => panic!("expected the tail"),
        }
        assert_eq!(effects, vec![WriteOp { at: 1 }, WriteOp { at: 4 }, WriteOp { at: 3 }]);
    }
}

/// A tail waits for its leading statements and comes back with the placement it parked with.
#[test]
fn tails_wait_for_their_leading_statements() {
    let frame = FrameId { at: 2 };
    let overlay = ScopeId { id: 6 };
    let types = TypeRegistry::new();
    let labels = Labels::new();
    let region = Region::new();
    for (placement, entry) in [
        (FramePlacement::Inherit, BlockEntry::FrameScope(frame)),
        (FramePlacement::FreshChild { frame }, BlockEntry::FrameScope(frame)),
        (FramePlacement::Inherit, BlockEntry::Overlay(overlay)),
    ] {
        let leading = vec![ExprId { at: 7 }, ExprId { at: 8 }];
        let own = TailContract::Eager(None);
        let mut effects = Vec::new();
        let (fresh, body, index) =
            match run_action(None, &mut effects, tail(leading.clone(), own, placement, entry)) {
                Outcome::Park {
                    deps: ParkDeps::Block(BlockRequest::Body { statements, placement }),
                    continuation:
                        Continuation::Finish(Finish::Tail {
                            fresh_child,
                            placement: again,
                            body_index,
                            ..
                        }),
                    error_frame,
                } => {
                    assert_eq!(statements, leading);
                    assert_eq!(placement, again);
                    assert_eq!(error_frame.map(|f| f.label), Some(FrameLabel::DepFinish));
                    (fresh_child, placement, body_index)
                }
                _ => panic!("expected to wait"),
            };
        assert_eq!(index, 3, "behind the parameters and the leading statements");
        let results = vec![Carried::Type(KType::Null); 2];
        match finish_tail(
            &types,
            &labels,
            &region,
            Some(Obligation { contract: contract(1) }),
            ExprId { at: 9 },
            own,
            fresh,
            body,
            index,
            &results,
        ) {
            Outcome::Continue { obligation, frame, block_entry, chain, .. } => {
                assert_eq!((frame, block_entry), (placement, entry));
                assert_eq!(chain, ChainOp::EnterBlock { index: 3 });
                assert_eq!(obligation, Some(Obligation { contract: contract(1) }));
            }
            _ => panic!("expected the tail"),
        }
    }
    let elsewhere = FramePlacement::FreshChild { frame: FrameId { at: 3 } };
    assert_eq!(block_placement(elsewhere, BlockEntry::FrameScope(frame)), None);
    assert_eq!(block_placement(FramePlacement::Inherit, BlockEntry::Stay), None);
}

/// The first declared return of a chain of tails is kept.
#[test]
fn later_contracts_do_not_replace_the_first() {
    let first = Obligation { contract: contract(1) };
    assert_eq!(keep_first(Some(first), Some(contract(2))), Some(first));
    assert_eq!(keep_first(None, Some(contract(2))), Some(Obligation { contract: contract(2) }));
    assert_eq!(keep_first(None, None), None);
}

/// A return type that was evaluated has to be a type.
#[test]
fn evaluated_return_types_settle_the_contract() {
    let types = TypeRegistry::new();
    let mut labels = Labels::new();
    let mut region = Region::new();
    let func = FnId { at: 3 };
    let site = ExprId { at: 4 };
    let own = TailContract::FromLastResult { func, site };
    let settle = |region: &Region, labels: &Labels, results: Vec<Carried>| {
        match settle_contract(&types, labels, region, own, &results) {
            Ok(found) => Ok(found),
            Err(e) => Err(e.kind),
        }
    };
    let results = vec![Carried::UnresolvedType(labels.intern("X")), Carried::Type(KType::Str)];
    let per_call = ReturnContract::PerCall { func, ret: KType::Str, site };
    assert!(matches!(settle(&region, &labels, results), Ok(Some(c)) if c == per_call));
    let value = region.add_object(KObject::Bool(true), false);
    match settle(&region, &labels, vec![Carried::Object(value)]) {
        Err(KErrorKind::ShapeError(Message::Plain(text))) => assert_eq!(
            text,
            "FN deferred return-type expression produced a non-type Bool value",
        ),
        _ => panic!("expected a ShapeError"),
    }
    let missing = Carried::UnresolvedType(labels.intern("Missing"));
    match settle(&region, &labels, vec![missing]) {
        Err(KErrorKind::UnboundName(name)) => assert_eq!(name, "Missing"),
        _ => panic!("expected an UnboundName"),
    }
}

#[test]
fn other_actions_wait_or_finish() {
    let finish = FinishId { at: 8 };
    let watched =
        DepRequest::Dispatch { expr: ExprId { at: 1 }, placement: DepPlacement::ActiveFrame };
    let mut effects = Vec::new();
    let run = |next: ActionKind, effects: &mut Vec<WriteOp>| {
        run_action(None, effects, Action { effects: Vec::new(), next })
    };
    let value = Carried::Type(KType::Any);
    match run(ActionKind::Done(Ok(value)), &mut effects) {
        Outcome::Done(Ok(own)) => assert_eq!(own, value),
        _ => panic!("expected the value"),
    }
    let deps = vec![Dep::Producer(ProducerId { edge: 3 }), Dep::Request(watched)];
    match run(ActionKind::AwaitDeps { deps: deps.clone(), finish }, &mut effects) {
        Outcome::Park {
            deps: ParkDeps::List(own),
            continuation: Continuation::Finish(Finish::Await(id)),
            error_frame,
        } => {
            assert_eq!((own, id), (deps, finish));
            assert_eq!(error_frame.map(|f| f.label), Some(FrameLabel::DepFinish));
        }
        _ => panic!("expected to wait"),
    }
    let block = BlockRequest::Scope { expr: ExprId { at: 2 }, scope: ScopeId { id: 3 } };
    match run(ActionKind::AwaitBlock { block, finish }, &mut effects) {
        Outcome::Park {
            deps: ParkDeps::Block(BlockRequest::Scope { expr, scope }),
            continuation: Continuation::Finish(Finish::Await(_)),
            ..
        } => assert_eq!((expr, scope), (ExprId { at: 2 }, ScopeId { id: 3 })),
        _ => panic!("expected to wait"),
    }
    match run(ActionKind::Catch { watched, finish }, &mut effects) {
        Outcome::Park {
            deps: ParkDeps::List(own),
            continuation: Continuation::Catch { watched: seen, finish: id },
            error_frame,
        } => {
            assert!(own.is_empty() && error_frame.is_none());
            assert_eq!((seen, id), (watched, finish));
        }
        _ => panic!("expected to watch"),
    }
    assert!(effects.is_empty());
}

#[test]
fn builtins_hand_over_their_writes_only_when_they_ran() {
    let mut effects = Vec::new();
    let action = Action {
        effects: vec![WriteOp { at: 1 }],
        next: ActionKind::Done(Ok(Carried::Type(KType::Null))),
    };
    assert!(matches!(invoke_builtin(None, &mut effects, Ok(action)), Outcome::Done(Ok(_))));
    assert_eq!(effects, vec![WriteOp { at: 1 }]);
    let failing = KError::new(KErrorKind::MissingArg("x".to_string()));
    assert!(matches!(invoke_builtin(None, &mut effects, Err(failing)), Outcome::Done(Err(_))));
    assert_eq!(effects, vec![WriteOp { at: 1 }]);
}

/// The statements of a body bind in the frame that holds the parameters.
#[test]
fn bodies_run_in_the_frame_of_their_parameters() {
    let cart = FrameId { at: 12 };
    let own = TailContract::FromLastResult { func: FnId { at: 0 }, site: ExprId { at: 0 } };
    match run_body(None, vec![ExprId { at: 1 }], ExprId { at: 2 }, own, cart) {
        Outcome::Park {
            deps: ParkDeps::Block(BlockRequest::Body { statements, placement }),
            continuation: Continuation::Finish(Finish::Tail { fresh_child, contract, .. }),
            ..
        } => {
            assert_eq!(statements, vec![ExprId { at: 1 }]);
            assert_eq!(placement, BodyPlacement::Frame(cart));
            assert!(!fresh_child);
            assert_eq!(contract, own);
        }
        _ => panic!("expected to wait"),
    }
}

fn level() -> ScopeLevel {
    ScopeLevel {
        id: ScopeId { id: 0 },
        values: Vec::new(),
        types: Vec::new(),
        overloads: Vec::new(),
        operators: Vec::new(),
        window: None,
    }
}

/// A declaration claims what it declares when it is a statement, and is refused anywhere else. A
/// redundant group is the statement inside it.
#[test]
fn declarations_are_statements() {
    let mut labels = Labels::new();
    let mut region = Region::new();
    let name = labels.intern("f");
    let keyword = labels.intern("F");
    let key = vec![KeyElement::Keyword(keyword), KeyElement::Slot];
    let plan = region.add_plan(BinderPlan {
        name_slot: Some(1),
        name: Some((name, BindKind::Value)),
        buckets: vec![key.clone(), vec![KeyElement::Keyword(keyword)]],
        chain_slots: Vec::new(),
    });
    let silent = region.add_plan(BinderPlan {
        name_slot: None,
        name: Some((name, BindKind::Type)),
        buckets: Vec::new(),
        chain_slots: Vec::new(),
    });
    let part = bare(WorkingPart::Ast(ExpressionPart::Identifier(name)));
    let plain = region.add_node(vec![part], NodeMeta { span: None, plan: None, raw: None });
    let binder =
        region.add_node(vec![part, part], NodeMeta { span: None, plan: Some(plan), raw: None });
    let named =
        region.add_node(vec![part, part], NodeMeta { span: None, plan: Some(silent), raw: None });
    let group = bare(WorkingPart::Ast(ExpressionPart::Expression(binder)));
    let grouped = region.add_node(vec![group], NodeMeta { span: None, plan: None, raw: None });
    for (expr, installs) in
        [(plain, None), (binder, Some(plan)), (grouped, Some(plan)), (named, Some(silent))]
    {
        let statement = submit_expression(&region, expr, SubmitContext::Statement);
        assert!(matches!(statement.work, Work::Dispatch(own) if own == expr));
        assert_eq!(statement.installs, installs);
        let sub = submit_expression(&region, expr, SubmitContext::SubDispatch);
        assert_eq!(sub.installs, None);
        match (sub.work, installs) {
            (Work::Dispatch(own), None) => assert_eq!(own, expr),
            (Work::Fail(e), Some(own)) => match e.kind {
                KErrorKind::NestedBinder { expr: at, suggest_flat } => {
                    assert_eq!(at, expr);
                    assert_eq!(suggest_flat, own == plan, "only a declared overload can be flat");
                }
                _ => panic!("expected a NestedBinder"),
            },
            _ => panic!("a declaration is refused, and nothing else is"),
        }
    }
    let mut own = level();
    let edges: Vec<ProducerId> = (10..13).map(|edge| ProducerId { edge }).collect();
    stamp_claims(&mut own, &region, plan, 4, &edges);
    assert_eq!(own.values.len(), 1);
    assert_eq!(own.overloads.len(), 2);
    assert_eq!(own.overloads[0].key, key);
    assert_eq!(own.overloads[0].state, OverloadState::Claimed(edges[1]));
    assert_eq!(own.overloads[1].state, OverloadState::Claimed(edges[2]));
    assert!(!own.overloads[1].builtin && own.overloads[1].index == 4);
    stamp_claims(&mut own, &region, silent, 5, &vec![edges[0]]);
    assert_eq!(own.lookup_type(name, None), Some(TypeLookup::Parked(edges[0])));
    assert_eq!(own.lookup_value(name, None), Some(NameLookup::Parked(edges[0])));
    assert_eq!(own.lookup_value(name, Some(4)), None, "a statement does not see its own claim");

    let failing = submit_pre_errored(KError::new(KErrorKind::User("no".to_string())));
    assert!(failing.installs.is_none() && matches!(failing.work, Work::Fail(_)));
}

/// Inner levels shadow outer ones, also with a claim.
#[test]
fn inner_claims_shadow_outer_values() {
    let mut labels = Labels::new();
    let name = labels.intern("x");
    let mut outer = level();
    let bound = ValueState::Bound(Carried::Type(KType::Bool));
    outer.values.push(ValueEntry { name, index: 0, state: bound });
    let mut inner = level();
    inner.id = ScopeId { id: 1 };
    let alone = Scope { levels: vec![outer] };
    assert_eq!(
        alone.resolve_value(name, None),
        Some(NameLookup::Bound(Carried::Type(KType::Bool))),
    );
    inner.install_placeholder(name, ProducerId { edge: 1 }, 0, BindKind::Value);
    let mut levels = alone.levels;
    levels.push(inner);
    let both = Scope { levels };
    assert_eq!(both.resolve_value(name, None), Some(NameLookup::Parked(ProducerId { edge: 1 })));
}

fn list_context(labels: &mut Labels) -> FieldListContext {
    FieldListContext { list: labels.intern("STRUCT") }
}

/// A list that has to wait waits for its binders first; the second walk is fed the results of the
/// expressions.
#[test]
fn field_lists_wait_for_binders_before_expressions() {
    let mut labels = Labels::new();
    let context = list_context(&mut labels);
    let fields = ExprId { at: 1 };
    let frame = TraceFrame { label: FrameLabel::FieldList, expr: Some(fields) };
    let deferral = || {
        FieldListDeferral::new(
            fields,
            vec![ProducerId { edge: 1 }, ProducerId { edge: 2 }],
            vec![ExprId { at: 5 }],
            context,
            FieldNameKind::Identifier,
        )
    };
    let request = DepRequest::Dispatch { expr: ExprId { at: 5 }, placement: DepPlacement::OwnScope };
    let expected = vec![
        Dep::Producer(ProducerId { edge: 1 }),
        Dep::Producer(ProducerId { edge: 2 }),
        Dep::Request(request),
    ];
    match deferral().outcome() {
        Outcome::Park {
            deps: ParkDeps::List(deps),
            continuation:
                Continuation::Finish(Finish::FieldList { fields: own, first_sub, error_frame }),
            error_frame: outer,
        } => {
            assert_eq!(deps, expected);
            assert_eq!((own, first_sub), (fields, 2));
            assert!(error_frame.is_none());
            assert_eq!(outer.map(|f| f.label), Some(FrameLabel::DepFinish));
        }
        _ => panic!("expected to wait"),
    }
    let name = labels.intern("Self");
    let declared = deferral()
        .with_threaded(vec![name])
        .with_window(3)
        .with_chain(None)
        .with_error_frame(frame);
    let (walk, action, first_sub) = declared.action(FinishId { at: 2 });
    assert_eq!(first_sub, 2);
    assert_eq!((walk.threaded.clone(), walk.window), (vec![name], Some(3)));
    match action.next {
        ActionKind::AwaitDeps { deps, finish } => {
            assert_eq!((deps, finish), (expected, FinishId { at: 2 }));
        }
        _ => panic!("expected to wait"),
    }
    let results = vec![
        Carried::Type(KType::Null),
        Carried::Type(KType::Bool),
        Carried::Type(KType::Str),
    ];
    assert_eq!(feed_of(&results, first_sub), vec![Carried::Type(KType::Str)]);
    match walk.run(&labels, FieldListOutcome::Malformed("no name".to_string())) {
        Err(e) => {
            assert!(matches!(
                e.kind,
                KErrorKind::ShapeError(Message::Plain(text)) if text == "no name"
            ));
            assert_eq!(e.frames.len(), 1);
            assert_eq!(e.frames[0].label, FrameLabel::FieldList);
        }
        Ok(_) => panic!("expected an error"),
    }
}

/// A second walk that has to wait again is an error.
#[test]
fn second_walks_do_not_wait_again() {
    let mut labels = Labels::new();
    let context = list_context(&mut labels);
    let pending = FieldListOutcome::Pending {
        awaited_producers: vec![ProducerId { edge: 1 }],
        sub_dispatches: Vec::new(),
    };
    match rewalk_fields(&labels, context, None, pending) {
        Err(e) => match e.kind {
            KErrorKind::ShapeError(Message::Plain(text)) => assert_eq!(
                text,
                "STRUCT: forward type reference still unresolved after dep-finish wake",
            ),
            _ => panic!("expected a ShapeError"),
        },
        Ok(_) => panic!("expected an error"),
    }
}

/// A record type comes to one type per structure.
#[test]
fn record_types_are_made_of_their_fields() {
    let mut labels = Labels::new();
    let mut types = TypeRegistry::new();
    let context = list_context(&mut labels);
    let x = labels.intern("x");
    let fields = || vec![Field { name: x, ktype: KType::Number }];
    let first = match elaborate_record_value(
        &mut types,
        ExprId { at: 0 },
        context,
        FieldListOutcome::Done(fields()),
    ) {
        Outcome::Done(Ok(Carried::Type(kt))) => kt,
        _ => panic!("expected a type"),
    };
    match types.node(first) {
        Some(TypeNode::Record { fields }) => {
            assert_eq!(fields.len(), 1);
            assert_eq!((fields[0].name, fields[0].ktype), (x, KType::Number));
        }
        _ => panic!("expected a record type"),
    }
    let again =
        finish_record_value(&mut types, &labels, context, FieldListOutcome::Done(fields()));
    assert!(matches!(again, Outcome::Done(Ok(Carried::Type(kt))) if kt == first));
    let pending = FieldListOutcome::Pending {
        awaited_producers: vec![ProducerId { edge: 3 }],
        sub_dispatches: Vec::new(),
    };
    match elaborate_record_value(&mut types, ExprId { at: 0 }, context, pending) {
        Outcome::Park { deps: ParkDeps::List(deps), .. } => {
            assert_eq!(deps, vec![Dep::Producer(ProducerId { edge: 3 })]);
        }
        _ => panic!("expected to wait"),
    }
}

/// Whatever a step leaves behind, the context is as before when it ends.
#[test]
fn steps_put_the_context_back() {
    let mut context = AmbientContext::new();
    assert!(!context.has_run_frame());
    context.set_run_frame(FrameId { at: 0 });
    assert_eq!(context.submission_cart(), (FrameId { at: 0 }, false));
    let outer = NodePayload { scope: ScopeId { id: 1 }, chain: 1 };
    let inner = NodePayload { scope: ScopeId { id: 2 }, chain: 2 };
    let first = context.install_slot_step(FrameId { at: 1 }, outer);
    let park = ParkState { obligation: Some(Obligation { contract: contract(1) }), block_frame: None };
    context.deposit_park(park);
    let before = context;
    let second = context.install_slot_step(FrameId { at: 2 }, inner);
    assert_eq!(context.current_obligation(), None, "a step starts with nothing carried");
    assert_eq!(context.submission_cart(), (FrameId { at: 2 }, true));
    context.deposit_block_frame(FrameId { at: 9 });
    let previous = context.install_active_frame(FrameId { at: 3 });
    assert_eq!(previous, Some(FrameId { at: 2 }));
    context.restore_active_frame(previous);
    context.restore_slot_step(second);
    assert_eq!(context, before);
    context.deposit_block_frame(FrameId { at: 4 });
    assert_eq!(
        context.park_state(),
        ParkState { obligation: park.obligation, block_frame: Some(FrameId { at: 4 }) },
    );
    assert_eq!(context.take_block_frame(), None, "the frame has left the step");
    assert_eq!(context.take_obligation(), park.obligation);
    assert_eq!(context.take_obligation(), None);
    context.restore_slot_step(first);
    assert_eq!(context.active_frame, None);
    assert!(context.has_run_frame());
}

/// A bracket hands the body the context inside it, and keeps only what no bracket displaces.
#[test]
fn brackets_put_back_what_they_displace() {
    let mut context = AmbientContext::new();
    let payload = NodePayload { scope: ScopeId { id: 1 }, chain: 1 };
    let before = context;
    let seen = context.with_slot_step(FrameId { at: 1 }, payload, |inside| {
        let mut during = inside;
        during.set_run_frame(FrameId { at: 7 });
        during.deposit_block_frame(FrameId { at: 8 });
        (during, (inside.active_frame, inside.active_payload))
    });
    assert_eq!(seen, (Some(FrameId { at: 1 }), Some(payload)));
    assert_eq!(context.run_frame, Some(FrameId { at: 7 }), "no step displaces the run's frame");
    assert_eq!((context.active_frame, context.active_park), (before.active_frame, before.active_park));
    let cart = context.with_active_frame(FrameId { at: 5 }, |inside| {
        let mut during = inside;
        during.deposit_block_frame(FrameId { at: 6 });
        (during, inside.submission_cart())
    });
    assert_eq!(cart, (FrameId { at: 5 }, true));
    assert_eq!(context.active_frame, None);
    assert_eq!(context.take_block_frame(), Some(FrameId { at: 6 }), "only the frame is put back");
}

/// Passing an error on keeps what happened and adds where it passed through.
#[test]
fn propagation_adds_frames_behind() {
    let first = TraceFrame { label: FrameLabel::Bind, expr: None };
    let second = TraceFrame { label: FrameLabel::DispatchPark, expr: Some(ExprId { at: 1 }) };
    let error = KError::new(KErrorKind::User("cause".to_string())).with_frame(first);
    let passed = propagate_dep_error(&error, Some(second));
    assert!(matches!(&passed.kind, KErrorKind::User(text) if text == "cause"));
    assert_eq!(passed.frames, vec![first, second]);
    assert_eq!(propagate_dep_error(&error, None).frames, vec![first]);
}

fn texts(items: &[&str]) -> Vec<String> {
    items.iter().map(|item| item.to_string()).collect()
}

#[test]
fn texts_are_ordered_by_character() {
    assert_eq!(decimal(0), "0");
    assert_eq!(decimal(7), "7");
    assert_eq!(decimal(1204), "1204");
    assert_eq!(decimal(usize::MAX), format!("{}", usize::MAX));
    assert!(comes_before("a", "b") && comes_before("a", "ab") && comes_before("", "a"));
    assert!(!comes_before("a", "a") && !comes_before("b", "ab"));
    assert_eq!(sort(texts(&["b", "a", "", "ab", "b"])), texts(&["", "a", "ab", "b", "b"]));
    assert_eq!(
        sort(texts(&["b", "ab", "b", "a", ""])),
        sort(texts(&["", "a", "b", "b", "ab"])),
        "the order they came in does not matter",
    );
    assert_eq!(dedup(texts(&["a", "a", "b", "a"])), texts(&["a", "b", "a"]));
    assert_eq!(quoted_list(&texts(&["x", "y"])), "`x`, `y`");
    assert_eq!(quoted_list(&texts(&[])), "");
}
