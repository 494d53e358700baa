//! List, dict and record literals, from the plan of their cells to the value.

use koan_dispatch::ast::{ExpressionPart, KLiteral};
use koan_dispatch::decide::literal::{
    finish_aggregate, schedule_dict_literal, schedule_list_literal, schedule_record_literal,
    AggRow, Assembly, Slot,
};
use koan_dispatch::decide::DecideCtx;
use koan_dispatch::dispatch::bare_name::{ProducerEntry, Standing, Standings};
use koan_dispatch::dispatch::literal as indexed;
use koan_dispatch::error::{FrameLabel, KError, KErrorKind, Message};
use koan_dispatch::function::Functions;
use koan_dispatch::ktype::{KType, ScopeId, TypeRegistry};
use koan_dispatch::outcome::{Dep, DepPlacement, DepRequest};
use koan_dispatch::region::{BindKind, FieldPart, NodeMeta, PairPart, Region};
use koan_dispatch::scope::{Scope, ScopeLevel, ValueEntry, ValueState};
use koan_dispatch::symbol::{Labels, Symbol};
use koan_dispatch::value::{Carried, ExprId, KKey, KObject, ObjId, ProducerId};

struct World {
    labels: Labels,
    types: TypeRegistry,
    region: Region,
    scope: Scope,
    functions: Functions,
    bound: Symbol,
    claimed: Symbol,
    missing: Symbol,
    claim: ProducerId,
}

/// A scope in which one name is bound, one claimed and one unknown.
fn world() -> World {
    let mut labels = Labels::new();
    let bound = labels.intern("bound");
    let claimed = labels.intern("claimed");
    let missing = labels.intern("missing");
    let claim = ProducerId { edge: 5 };
    let mut region = Region::new();
    let value = region.add_object(KObject::Bool(true), false);
    let mut level = ScopeLevel {
        id: ScopeId { id: 0 },
        values: vec![ValueEntry {
            name: bound,
            index: 0,
            state: ValueState::Bound(Carried::Object(value)),
        }],
        types: Vec::new(),
        overloads: Vec::new(),
        operators: Vec::new(),
        window: None,
    };
    level.install_placeholder(claimed, claim, 0, BindKind::Value);
    World {
        labels,
        types: TypeRegistry::new(),
        region,
        scope: Scope { levels: vec![level] },
        functions: Functions { table: Vec::new() },
        bound,
        claimed,
        missing,
        claim,
    }
}

fn number(n: f64) -> ExpressionPart {
    ExpressionPart::Literal(KLiteral::Number(n.to_bits()))
}

fn ctx<'a>(scope: &'a Scope, labels: &'a Labels, functions: &'a Functions) -> DecideCtx<'a> {
    DecideCtx { scope, chain: None, obligation: None, labels, functions, diagnosis: None }
}

fn lone_part(region: &Region, expr: ExprId) -> koan_dispatch::ast::WorkingPart {
    let parts = region.parts_of(expr);
    assert_eq!(parts.len(), 1);
    parts[0].value
}

/// What has landed fills its cell, a claim is waited for, and anything else is dispatched.
#[test]
fn cells_are_planned_by_what_they_hold() {
    let mut w = world();
    let inner = w.region.add_node(Vec::new(), NodeMeta { span: None, plan: None, raw: None });
    let items = vec![
        number(1.0),
        ExpressionPart::Identifier(w.bound),
        ExpressionPart::Identifier(w.claimed),
        ExpressionPart::Identifier(w.missing),
        ExpressionPart::Expression(inner),
        ExpressionPart::QuotedExpression(inner),
    ];
    let c = ctx(&w.scope, &w.labels, &w.functions);
    let plan = schedule_list_literal(&c, &w.types, &mut w.region, &items);
    let values: Vec<Slot> = plan.rows.iter().map(|row| row.value).collect();
    assert_eq!(
        values,
        vec![
            Slot::Static(Carried::Object(ObjId { at: 1 })),
            Slot::Static(Carried::Object(ObjId { at: 0 })),
            Slot::Dep,
            Slot::Dep,
            Slot::Dep,
            Slot::Dep,
        ],
    );
    assert!(plan.rows.iter().all(|row| row.key.is_none()));
    assert_eq!(plan.deps[0], Dep::Producer(w.claim));
    assert_eq!(
        plan.deps[2],
        Dep::Request(DepRequest::Dispatch { expr: inner, placement: DepPlacement::OwnScope }),
    );
    for (at, part) in [(1, items[3]), (3, items[5])] {
        match plan.deps[at] {
            Dep::Request(DepRequest::Dispatch { expr, .. }) => {
                assert_eq!(
                    lone_part(&w.region, expr),
                    koan_dispatch::ast::WorkingPart::Ast(part)
                );
            }
            _ => panic!("an unbound name and a quote are dispatched on their own"),
        }
    }
}

/// The items of a list keep their order, also beyond what is kept inline.
#[test]
fn lists_keep_the_order_of_their_items() {
    let mut w = world();
    let items: Vec<ExpressionPart> = (0..11).map(|i| number(i as f64)).collect();
    let c = ctx(&w.scope, &w.labels, &w.functions);
    let plan = schedule_list_literal(&c, &w.types, &mut w.region, &items);
    let own = w.types.list(KType::Number);
    let built =
        finish_aggregate(&mut w.region, &Assembly::List, &plan.rows, &Vec::new(), own);
    let object = match built {
        Ok(Carried::Object(object)) => object,
        _ => panic!("expected a list"),
    };
    match w.region.object(object) {
        Some(KObject::List { items, ktype }) => {
            assert_eq!(*ktype, own);
            let numbers: Vec<f64> = items
                .iter()
                .map(|item| match item {
                    Carried::Object(o) => match w.region.object(*o) {
                        Some(KObject::Number(bits)) => f64::from_bits(*bits),
                        _ => panic!("expected a number"),
                    },
                    _ => panic!("expected a value"),
                })
                .collect();
            assert_eq!(numbers, (0..11).map(|i| i as f64).collect::<Vec<f64>>());
        }
        _ => panic!("expected a list"),
    }
}

/// Results are taken in the order that they were asked for, keys before their values; of two
/// values under one key the later stays in the earlier's place.
#[test]
fn dicts_take_keys_before_values() {
    let mut w = world();
    let a = w.labels.intern("a");
    let pairs = vec![
        PairPart {
            key: ExpressionPart::Identifier(w.missing),
            value: ExpressionPart::Identifier(w.claimed),
        },
        PairPart { key: number(2.0), value: number(20.0) },
        PairPart { key: ExpressionPart::Literal(KLiteral::Str(a)), value: number(30.0) },
    ];
    let c = ctx(&w.scope, &w.labels, &w.functions);
    let plan = schedule_dict_literal(&c, &w.types, &mut w.region, &pairs);
    assert_eq!(plan.rows[0], AggRow { key: Some(Slot::Dep), value: Slot::Dep });
    assert_eq!(plan.deps.len(), 2);
    let key = w.region.add_object(KObject::Str(a), false);
    let value = w.region.add_object(KObject::Null, false);
    let own = w.types.dict(KType::Any, KType::Any);
    let results = vec![Carried::Object(key), Carried::Object(value)];
    let built = finish_aggregate(&mut w.region, &Assembly::Dict, &plan.rows, &results, own);
    let object = match built {
        Ok(Carried::Object(object)) => object,
        _ => panic!("expected a dict"),
    };
    match w.region.object(object) {
        Some(KObject::Dict { entries, .. }) => {
            let keys: Vec<KKey> = entries.iter().map(|e| e.key).collect();
            assert_eq!(keys, vec![KKey::String(a), KKey::Number(2.0f64.to_bits())]);
            assert_ne!(entries[0].value, Carried::Object(value), "the later value stays");
        }
        _ => panic!("expected a dict"),
    }
}

fn text(result: Result<Carried, KError>) -> String {
    match result {
        Err(e) => {
            assert_eq!(e.frames.len(), 1);
            assert_eq!(e.frames[0].label, FrameLabel::Dict);
            match e.kind {
                KErrorKind::ShapeError(Message::Plain(text)) => text,
                KErrorKind::ShapeError(Message::Showing { before, after, .. }) => {
                    assert_eq!(after, "");
                    before
                }
                _ => panic!("expected a ShapeError"),
            }
        }
        Ok(_) => panic!("expected an error"),
    }
}

/// Only owned strings, numbers and bools are keys, and nothing is built over a bad one.
#[test]
fn bad_keys_are_refused_before_anything_is_built() {
    let mut w = world();
    let borrowed = w.region.add_object(KObject::Bool(false), true);
    let null = w.region.add_object(KObject::Null, false);
    let rows = vec![AggRow { key: Some(Slot::Dep), value: Slot::Static(Carried::Object(null)) }];
    let before = w.region.objects.len();
    for (key, expected) in [
        (Carried::Type(KType::Number), "dict key must be a value, not a type"),
        (Carried::Object(null), "dict key must be a string, a number or a bool, got "),
        (
            Carried::Object(borrowed),
            "dict key must be owned data, but its value borrows a region",
        ),
    ] {
        let built =
            finish_aggregate(&mut w.region, &Assembly::Dict, &rows, &vec![key], KType::Any);
        assert_eq!(text(built), expected);
        assert_eq!(w.region.objects.len(), before);
    }
}

/// The names of a record stand as they are; its values are planned like items.
#[test]
fn records_pair_names_with_values() {
    let mut w = world();
    let x = w.labels.intern("x");
    let y = w.labels.intern("y");
    let fields = vec![
        FieldPart { name: x, value: ExpressionPart::Identifier(w.bound) },
        FieldPart { name: y, value: ExpressionPart::Keyword(x) },
    ];
    let c = ctx(&w.scope, &w.labels, &w.functions);
    let plan = schedule_record_literal(&c, &w.types, &mut w.region, &fields);
    let assembly = Assembly::Record(vec![x, y]);
    let built =
        finish_aggregate(&mut w.region, &assembly, &plan.rows, &Vec::new(), KType::Any);
    match built {
        Ok(Carried::Object(object)) => match w.region.object(object) {
            Some(KObject::Record { fields, .. }) => {
                assert_eq!((fields[0].name, fields[1].name), (x, y));
                assert_eq!(fields[0].value, Carried::Object(ObjId { at: 0 }));
                match fields[1].value {
                    Carried::Object(o) => {
                        assert!(matches!(w.region.object(o), Some(KObject::Str(s)) if *s == x));
                    }
                    _ => panic!("a keyword stands for its spelling"),
                }
            }
            _ => panic!("expected a record"),
        },
        _ => panic!("expected a record"),
    }
}

/// Cells that say where their result is: a binder that failed is dispatched like an unbound name.
#[test]
fn indexed_cells_point_at_their_results() {
    let mut w = world();
    let broken = w.labels.intern("broken");
    let other = ProducerId { edge: 6 };
    w.scope.levels[0].install_placeholder(broken, other, 0, BindKind::Value);
    let standings = Standings {
        entries: vec![ProducerEntry {
            producer: other,
            standing: Standing::Failed(KError::new(KErrorKind::User("broken".to_string()))),
            waits_for: Vec::new(),
        }],
    };
    let items = vec![
        ExpressionPart::Identifier(w.missing),
        ExpressionPart::Identifier(w.claimed),
        ExpressionPart::Identifier(broken),
        ExpressionPart::Identifier(w.bound),
    ];
    let plan = indexed::schedule_list_literal(
        &w.scope,
        None,
        &standings,
        &w.types,
        &mut w.region,
        &items,
    );
    let values: Vec<indexed::Slot> = plan.rows.iter().map(|row| row.value).collect();
    assert_eq!(
        values,
        vec![
            indexed::Slot::Owned(0),
            indexed::Slot::Park(0),
            indexed::Slot::Owned(1),
            indexed::Slot::Static(Carried::Object(ObjId { at: 0 })),
        ],
    );
    assert_eq!(plan.deps.parks, vec![w.claim]);
    assert_eq!(plan.deps.owned.len(), 2);
    let parked = vec![Carried::Type(KType::Number)];
    let owned = vec![Carried::Type(KType::Str), Carried::Type(KType::Bool)];
    let (keys, cells) = match indexed::fill_rows(&w.region, &plan.rows, &parked, &owned) {
        Ok(filled) => filled,
        Err(_) => panic!("a list has no keys to refuse"),
    };
    assert!(keys.is_empty());
    assert_eq!(cells[..3], [owned[0], parked[0], owned[1]]);
    let built = indexed::finish_aggregate(
        &mut w.region,
        &Assembly::List,
        &plan.rows,
        &parked,
        &owned,
        KType::Any,
    );
    assert!(matches!(built, Ok(Carried::Object(_))));

    let pairs = vec![PairPart { key: ExpressionPart::Identifier(w.claimed), value: number(1.0) }];
    let plan = indexed::schedule_dict_literal(
        &w.scope,
        None,
        &standings,
        &w.types,
        &mut w.region,
        &pairs,
    );
    let refused = indexed::finish_aggregate(
        &mut w.region,
        &Assembly::Dict,
        &plan.rows,
        &parked,
        &Vec::new(),
        KType::Any,
    );
    assert_eq!(text(refused), "dict key must be a value, not a type");
}
