//! Resolving names of either channel, and the types that nothing works on any more.

use koan_dispatch::ast::{ExpressionPart, Spanned, WorkingPart};
use koan_dispatch::decide::resolve::{resolve_name, Resolution, TypeLeafChannels};
use koan_dispatch::decide::resolve_type_identifier::{
    for_each_user_type_ref, user_type_refs, FinalizeGate, TypeResolution, UserTypeRef,
};
use koan_dispatch::dispatch::harness::Bodies;
use koan_dispatch::dispatch::resolve_type_expr::{
    resolve_type_leaf_carrier, KTypeUserRefs, NamedRef, ResolveTypeExprOutcome, TypeExprMemo,
    TypeLeafCarrier,
};
use koan_dispatch::dispatch::submit::{stamp_installs, submit_expression, SubmitContext};
use koan_dispatch::ktype::{Field, KType, NodeSchema, ScopeId, TypeNode, TypeRegistry};
use koan_dispatch::region::{BindKind, BinderPlan, NodeMeta, Region};
use koan_dispatch::scope::{
    LexicalFrame, Position, Scope, ScopeLevel, TypeEntry, TypeState, ValueEntry, ValueState,
    Window,
};
use koan_dispatch::symbol::{Labels, Symbol};
use koan_dispatch::value::{Carried, KObject, ProducerId};

fn level(id: usize) -> ScopeLevel {
    ScopeLevel {
        id: ScopeId { id },
        values: Vec::new(),
        types: Vec::new(),
        overloads: Vec::new(),
        operators: Vec::new(),
        window: None,
    }
}

fn window(id: usize, member: Symbol) -> Option<Window> {
    Some(Window { id, members: vec![member], filled: vec![false] })
}

fn bind_type(level: &mut ScopeLevel, name: Symbol, kt: KType) {
    level.types.push(TypeEntry { name, index: 0, state: TypeState::Bound(kt) });
}

/// A root scope with the builtin leaves.
fn root(labels: &mut Labels) -> Scope {
    let mut own = level(0);
    bind_type(&mut own, labels.intern("Number"), KType::Number);
    bind_type(&mut own, labels.intern("Str"), KType::Str);
    Scope { levels: vec![own] }
}

fn resolve(scope: &Scope, part: ExpressionPart) -> Resolution {
    resolve_name(scope, part, None, &TypeRegistry::new(), TypeLeafChannels::TypeChannel)
}

#[test]
fn resolve_name_identifier_resolved() {
    let mut labels = Labels::new();
    let mut scope = root(&mut labels);
    let mut region = Region::new();
    let bound = region.add_object(KObject::Number(7.0f64.to_bits()), false);
    let x = labels.intern("x");
    scope.levels[0].values.push(ValueEntry {
        name: x,
        index: 0,
        state: ValueState::Bound(Carried::Object(bound)),
    });
    match resolve(&scope, ExpressionPart::Identifier(x)) {
        Resolution::Resolved(Carried::Object(object)) => assert!(
            matches!(
                region.object(object),
                Some(KObject::Number(n)) if f64::from_bits(*n) == 7.0
            ),
            "expected Resolution::Resolved(Number(7.0))",
        ),
        _ => panic!("expected Resolution::Resolved(Number)"),
    }
}

#[test]
fn resolve_name_type_resolved() {
    let mut labels = Labels::new();
    let scope = root(&mut labels);
    match resolve(&scope, ExpressionPart::Type(labels.intern("Number"))) {
        Resolution::Resolved(Carried::Type(KType::Number)) => {}
        other => panic!("expected Resolved(Type(Number)), got {other:?}"),
    }
}

#[test]
fn resolve_name_parked() {
    let mut labels = Labels::new();
    let mut scope = root(&mut labels);
    let claim = ProducerId { edge: 3 };
    let fwd = labels.intern("fwd");
    scope.levels[0].install_placeholder(fwd, claim, 0, BindKind::Value);
    match resolve(&scope, ExpressionPart::Identifier(fwd)) {
        Resolution::Parked(p) => assert_eq!(p, claim),
        _ => panic!("expected Resolution::Parked(claim)"),
    }
}

#[test]
fn resolve_name_unbound() {
    let mut labels = Labels::new();
    let scope = root(&mut labels);
    let missing = labels.intern("missing");
    match resolve(&scope, ExpressionPart::Identifier(missing)) {
        Resolution::Unbound(name) => assert_eq!(labels.render(name), "missing"),
        _ => panic!("expected Resolution::Unbound"),
    }
}

/// A claim is invisible to the statement that makes it and to everything before it.
#[test]
fn own_claims_are_invisible() {
    let mut labels = Labels::new();
    let mut scope = root(&mut labels);
    let name = labels.intern("later");
    let claim = ProducerId { edge: 4 };
    scope.levels[0].install_placeholder(name, claim, 2, BindKind::Value);
    for (position, expected) in
        [(1, Resolution::Unbound(name)), (2, Resolution::Unbound(name)), (3, Resolution::Parked(claim))]
    {
        let frame = LexicalFrame {
            positions: vec![Position { scope: ScopeId { id: 0 }, index: position }],
        };
        let got = resolve_name(
            &scope,
            ExpressionPart::Identifier(name),
            Some(&frame),
            &TypeRegistry::new(),
            TypeLeafChannels::TypeChannel,
        );
        assert_eq!(got, expected, "a reader at {position}");
    }
}

/// An inner level hides what an outer one says about a name.
#[test]
fn inner_levels_shadow() {
    let mut labels = Labels::new();
    let mut scope = root(&mut labels);
    let name = labels.intern("x");
    let claim = ProducerId { edge: 9 };
    scope.levels[0].values.push(ValueEntry {
        name,
        index: 0,
        state: ValueState::Bound(Carried::Type(KType::Number)),
    });
    scope.levels.push(level(1));
    scope.levels[1].install_placeholder(name, claim, 0, BindKind::Value);
    assert_eq!(resolve(&scope, ExpressionPart::Identifier(name)), Resolution::Parked(claim));
}

/// A claim in the value channel is waited for first where that channel is read first.
#[test]
fn value_claims_come_first_where_asked() {
    let mut labels = Labels::new();
    let mut scope = root(&mut labels);
    let number = labels.intern("Number");
    let claim = ProducerId { edge: 2 };
    scope.levels[0].install_placeholder(number, claim, 0, BindKind::Value);
    let types = TypeRegistry::new();
    let part = ExpressionPart::Type(number);
    assert_eq!(
        resolve_name(&scope, part, None, &types, TypeLeafChannels::ValueChannelFirst),
        Resolution::Parked(claim),
    );
    assert_eq!(
        resolve_name(&scope, part, None, &types, TypeLeafChannels::TypeChannel),
        Resolution::Resolved(Carried::Type(KType::Number)),
    );
}

#[test]
fn resolve_type_expr_builtin_leaf_resolves_stably() {
    let mut labels = Labels::new();
    let scope = root(&mut labels);
    let types = TypeRegistry::new();
    let te = labels.intern("Number");
    let first = match scope.resolve_type_identifier(te, None, &types) {
        TypeResolution::Done(resolved) => resolved,
        _ => panic!("expected Done"),
    };
    assert_eq!(first, KType::Number);
    let second = match scope.resolve_type_identifier(te, None, &types) {
        TypeResolution::Done(resolved) => resolved,
        _ => panic!("expected Done on second call"),
    };
    assert_eq!(first, second, "a re-resolve yields the same handle");

    let mut memo = TypeExprMemo { entries: Vec::new() };
    for _ in 0..2 {
        assert!(matches!(
            scope.resolve_type_expr(te, None, &types, &mut memo),
            ResolveTypeExprOutcome::Done(KType::Number)
        ));
        assert_eq!(memo.entries.len(), 1, "a name is remembered once");
    }
}

#[test]
fn resolve_type_expr_unbound_returns_unbound() {
    let mut labels = Labels::new();
    let scope = root(&mut labels);
    let types = TypeRegistry::new();
    let te = labels.intern("NotABuiltin");
    match scope.resolve_type_identifier(te, None, &types) {
        TypeResolution::Unbound(_) => {}
        _ => panic!("expected Unbound for unknown leaf"),
    }
    let mut memo = TypeExprMemo { entries: Vec::new() };
    assert!(matches!(
        scope.resolve_type_expr(te, None, &types, &mut memo),
        ResolveTypeExprOutcome::Unbound(name) if name == te
    ));
    assert!(memo.entries.is_empty(), "a miss is not remembered");
}

/// A declared type resolves to its sealed member once the declaration has landed.
#[test]
fn resolve_type_expr_user_struct_resolves_after_finalize() {
    let mut labels = Labels::new();
    let mut scope = root(&mut labels);
    let mut types = TypeRegistry::new();
    let point = labels.intern("Point");
    let repr = types.record(vec![
        Field { name: labels.intern("x"), ktype: KType::Number },
        Field { name: labels.intern("y"), ktype: KType::Number },
    ]);
    let member = types.declare(ScopeId { id: 0 }, point, NodeSchema::NewType(repr));
    bind_type(&mut scope.levels[0], point, member);
    let kt = match scope.resolve_type_identifier(point, None, &types) {
        TypeResolution::Done(resolved) => resolved,
        _ => panic!("expected Done after the declaration"),
    };
    match types.node(kt) {
        Some(TypeNode::SetMember { name, .. }) => assert_eq!(labels.render(*name), "Point"),
        _ => panic!("expected a sealed member node for Point"),
    }
    let kt2 = match scope.resolve_type_identifier(point, None, &types) {
        TypeResolution::Done(resolved) => resolved,
        _ => panic!("expected Done on re-resolve"),
    };
    assert_eq!(kt, kt2);
}

/// Siblings at any depth are met, in the order of the walk.
#[test]
fn user_type_refs_yields_nested_siblings_in_order() {
    let mut types = TypeRegistry::new();
    let inner = types.list(KType::Sibling(1));
    let kt = types.dict(KType::Sibling(0), inner);
    let refs = user_type_refs(kt, &types);
    match refs.as_slice() {
        [UserTypeRef::Sibling { index: a }, UserTypeRef::Sibling { index: b }] => {
            assert_eq!((*a, *b), (0, 1), "siblings come back in walk order");
        }
        _ => panic!("expected two sibling refs in order"),
    }
}

/// The fields of a record and the parameters of a function come back last one first, the return type
/// behind the parameters; the recursive walk goes first to last. Both wait for the same binders.
#[test]
fn walks_differ_in_their_order_alone() {
    let mut labels = Labels::new();
    let mut types = TypeRegistry::new();
    let (a, b) = (labels.intern("A"), labels.intern("B"));
    let record = types.record(vec![
        Field { name: a, ktype: KType::Sibling(0) },
        Field { name: b, ktype: KType::Sibling(1) },
    ]);
    let function = types.intern(TypeNode::KFunction {
        params: vec![
            Field { name: a, ktype: KType::Sibling(0) },
            Field { name: b, ktype: KType::Sibling(1) },
        ],
        ret: KType::Sibling(2),
    });
    let siblings = |refs: Vec<UserTypeRef>| -> Vec<usize> {
        refs.into_iter()
            .map(|found| match found {
                UserTypeRef::Sibling { index } => index,
                _ => panic!("expected a sibling"),
            })
            .collect()
    };
    assert_eq!(siblings(user_type_refs(record, &types)), vec![1, 0]);
    assert_eq!(siblings(user_type_refs(function, &types)), vec![1, 0, 2]);
    for (kt, expected) in [(record, vec![0, 1]), (function, vec![0, 1, 2])] {
        let mut found = Vec::new();
        for_each_user_type_ref(kt, &types, &mut found);
        assert_eq!(siblings(found), expected);
    }
    let mut scope = Scope { levels: vec![level(0)] };
    scope.levels[0].window =
        Some(Window { id: 3, members: vec![a, b], filled: vec![false, false] });
    let (first, second) = (ProducerId { edge: 1 }, ProducerId { edge: 2 });
    scope.levels[0].install_placeholder(a, first, 0, BindKind::Type);
    scope.levels[0].install_placeholder(b, second, 0, BindKind::Type);
    let gate = FinalizeGate { scope: &scope, types: &types };
    assert_eq!(gate.pending_producers(record), vec![second, first]);
    assert_eq!(gate.pending_sources(record), vec![first, second]);
}

/// A sealed member is finished, and its schema is not walked.
#[test]
fn user_type_refs_does_not_recurse_into_a_sealed_member() {
    let mut labels = Labels::new();
    let mut types = TypeRegistry::new();
    let repr = types.list(KType::Sibling(0));
    let sealed =
        types.declare(ScopeId { id: 0 }, labels.intern("Chain"), NodeSchema::NewType(repr));
    assert!(
        user_type_refs(sealed, &types).is_empty(),
        "a sealed member is finished and its schema is not walked",
    );
}

/// A leaf refers to nothing.
#[test]
fn user_type_refs_yields_nothing_for_leaf() {
    let types = TypeRegistry::new();
    assert!(user_type_refs(KType::Number, &types).is_empty());
}

#[test]
fn builtin_synthesizes_type_carrier() {
    let mut labels = Labels::new();
    let mut scope = Scope { levels: vec![level(0)] };
    let number = labels.intern("Number");
    bind_type(&mut scope.levels[0], number, KType::Number);
    let types = TypeRegistry::new();
    match scope.resolve_type_identifier(number, None, &types) {
        TypeResolution::Done(resolved) if resolved == KType::Number => {}
        _ => panic!("expected Done(Number)"),
    }
}

#[test]
fn unbound_returns_unbound() {
    let mut labels = Labels::new();
    let scope = Scope { levels: vec![level(0)] };
    let types = TypeRegistry::new();
    let missing = labels.intern("Missing");
    match scope.resolve_type_identifier(missing, None, &types) {
        TypeResolution::Unbound(name) => assert!(
            labels.render(name).contains("Missing"),
            "expected an unbound message naming `Missing`",
        ),
        _ => panic!("expected Unbound"),
    }
}

/// A member of an open window waits for its declaration, and resolves once the window is sealed.
#[test]
fn mid_window_member_parks_then_resolves() {
    let mut labels = Labels::new();
    let mut types = TypeRegistry::new();
    let node = labels.intern("Node");
    let mut scope = Scope { levels: vec![level(0), level(1)] };
    scope.levels[1].window = window(1, node);
    scope.levels[1].install_placeholder(node, ProducerId { edge: 7 }, 0, BindKind::Type);
    match scope.resolve_type_identifier(node, None, &types) {
        TypeResolution::Park(producers) => {
            assert_eq!(producers, vec![ProducerId { edge: 7 }], "parks on the single producer");
        }
        _ => panic!("expected Park mid-window"),
    }

    let repr = types.record(vec![Field { name: labels.intern("x"), ktype: KType::Number }]);
    let sealed = types.declare(ScopeId { id: 1 }, node, NodeSchema::NewType(repr));
    scope.levels[1].types.clear();
    bind_type(&mut scope.levels[1], node, sealed);
    scope.levels[1].window = None;
    match scope.resolve_type_identifier(node, None, &types) {
        TypeResolution::Done(resolved) => assert_eq!(resolved, sealed),
        _ => panic!("expected Done(member) after seal"),
    }
}

/// A declaration of the same name in another window does not stand in for the window's own.
#[test]
fn a_same_named_declaration_in_another_window_does_not_capture() {
    let mut labels = Labels::new();
    let types = TypeRegistry::new();
    let node = labels.intern("Node");
    let mut scope = Scope { levels: vec![level(0), level(1), level(2)] };
    scope.levels[1].window = window(1, node);
    scope.levels[1].install_placeholder(node, ProducerId { edge: 11 }, 0, BindKind::Type);
    scope.levels[2].window = window(2, node);
    match scope.resolve_type_identifier(node, None, &types) {
        TypeResolution::Done(_) => {}
        _ => panic!("the outer same-named declaration must not capture this reference"),
    }
}

/// The walk over user types yields members, variants, modules and abstract slots, each by the scope
/// that declares it; the types of record fields come last one first.
#[test]
fn named_refs_come_in_walk_order() {
    let mut labels = Labels::new();
    let mut types = TypeRegistry::new();
    let home = ScopeId { id: 4 };
    let point = labels.intern("Point");
    let shape = labels.intern("Shape");
    let member = types.declare(home, point, NodeSchema::NewType(KType::Number));
    let variant = types.intern(TypeNode::Variant { member, tag: labels.intern("Some") });
    let module = types.intern(TypeNode::Module { source: home, path: shape });
    let slot = types.intern(TypeNode::AbstractType {
        source: ScopeId { id: 5 },
        name: shape,
        param_names: Vec::new(),
    });
    let inner = types.dict(KType::Number, variant);
    let record = types.record(vec![
        Field { name: labels.intern("a"), ktype: inner },
        Field { name: labels.intern("b"), ktype: slot },
    ]);
    let all = types.dict(module, record);
    let mut walk = KTypeUserRefs::of(all, &types);
    let mut got = Vec::new();
    while let Some(found) = walk.next(&types) {
        got.push(found);
    }
    assert_eq!(
        got,
        vec![
            NamedRef { scope_id: home, name: shape },
            NamedRef { scope_id: ScopeId { id: 5 }, name: shape },
            NamedRef { scope_id: home, name: point },
        ],
    );
    assert!(walk.next(&types).is_none());
}

/// A type that a binder still works on is waited for and not remembered; readers at different
/// positions are remembered apart.
#[test]
fn unfinished_types_are_not_remembered() {
    let mut labels = Labels::new();
    let mut scope = root(&mut labels);
    let mut types = TypeRegistry::new();
    let point = labels.intern("Point");
    let alias = labels.intern("Alias");
    let binder = ProducerId { edge: 12 };
    let member = types.declare(ScopeId { id: 0 }, point, NodeSchema::NewType(KType::Number));
    let list = types.list(member);
    bind_type(&mut scope.levels[0], alias, list);
    scope.levels[0].install_placeholder(point, binder, 0, BindKind::Type);
    let mut memo = TypeExprMemo { entries: Vec::new() };
    match resolve_type_leaf_carrier(&scope, alias, None, &types, &mut memo) {
        TypeLeafCarrier::Park(sources) => assert_eq!(sources, vec![binder]),
        _ => panic!("expected Park"),
    }
    assert!(memo.entries.is_empty());

    scope.levels[0].types.retain(|entry| entry.name != point);
    for position in [5, 6] {
        let frame = LexicalFrame {
            positions: vec![Position { scope: ScopeId { id: 0 }, index: position }],
        };
        assert!(matches!(
            resolve_type_leaf_carrier(&scope, alias, Some(&frame), &types, &mut memo),
            TypeLeafCarrier::Resolved(kt) if kt == list
        ));
    }
    assert_eq!(memo.entries.len(), 2);
}

/// A type that a submitted statement declares is in flight until it is bound: whatever refers to it
/// waits for the statement, and nothing of it is remembered.
#[test]
fn submitted_declarations_are_waited_for() {
    let mut labels = Labels::new();
    let mut scope = root(&mut labels);
    let mut types = TypeRegistry::new();
    let mut region = Region::new();
    let point = labels.intern("Point");
    let alias = labels.intern("Alias");
    let plan = region.add_plan(BinderPlan {
        name_slot: Some(1),
        name: Some((point, BindKind::Type)),
        buckets: Vec::new(),
        chain_slots: Vec::new(),
    });
    let keyword = ExpressionPart::Keyword(labels.intern("NEWTYPE"));
    let parts = [keyword, ExpressionPart::Type(point)]
        .map(|part| Spanned { value: WorkingPart::Ast(part), span: None });
    let meta = NodeMeta { span: None, plan: Some(plan), raw: None };
    let expr = region.add_node(parts.to_vec(), meta);
    let bodies = Bodies { entries: Vec::new() };
    let statement = submit_expression(&region, &bodies, expr, SubmitContext::Statement);
    let binder = ProducerId { edge: 12 };
    stamp_installs(&mut scope.levels[0], &region, &statement.installs, 0, binder);
    let member = types.declare(ScopeId { id: 0 }, point, NodeSchema::NewType(KType::Number));
    let list = types.list(member);
    bind_type(&mut scope.levels[0], alias, list);
    let mut memo = TypeExprMemo { entries: Vec::new() };
    match scope.resolve_type_expr(alias, None, &types, &mut memo) {
        ResolveTypeExprOutcome::Park(sources) => assert_eq!(sources, vec![binder]),
        _ => panic!("expected Park"),
    }
    assert!(memo.entries.is_empty());
}
