//! What a slot admits, and what a candidate that does not fit yet leans on.

use koan_dispatch::ast::{ExpressionPart, KLiteral, Spanned, WorkingPart};
use koan_dispatch::decide::resolve::Resolution;
use koan_dispatch::decide::resolve_dispatch::{relaxed_admits, slot_admits_strict, Lean};
use koan_dispatch::function::{Argument, SignatureElement};
use koan_dispatch::ktype::{KKind, KType, TypeRegistry};
use koan_dispatch::region::Region;
use koan_dispatch::symbol::Symbol;
use koan_dispatch::value::{Carried, ExprId, ObjId, ProducerId};

const PROPER_TYPE: KType = KType::OfKind(KKind::ProperType);

/// Every carrier spelling of a type slot, and the value-name token.
fn carrier_union(types: &mut TypeRegistry) -> KType {
    types.union_of(vec![
        KType::TypeNameToken,
        KType::SigiledTypeExpr,
        KType::RecordType,
        KType::Identifier,
    ])
}

fn slot_of(ktype: KType) -> SignatureElement {
    SignatureElement::Argument(Argument { name: Symbol { id: 0 }, ktype, role: None })
}

/// Strict admission of one part at one slot.
fn admits_with(
    types: &TypeRegistry,
    ktype: KType,
    part: ExpressionPart,
    outcome: Option<Resolution>,
) -> bool {
    let region = Region::new();
    slot_admits_strict(types, &region, slot_of(ktype), WorkingPart::Ast(part), 0, &vec![outcome])
}

fn sigil() -> ExpressionPart {
    ExpressionPart::SigiledTypeExpr(ExprId { at: 0 })
}

fn record() -> ExpressionPart {
    ExpressionPart::RecordType(ExprId { at: 0 })
}

fn one() -> ExpressionPart {
    ExpressionPart::Literal(KLiteral::Number(1.0f64.to_bits()))
}

/// Each kind of type expression is admitted through its own member of a union.
#[test]
fn a_raw_type_expression_strict_admits_at_a_union_carrier_slot() {
    let mut types = TypeRegistry::new();
    let slot = carrier_union(&mut types);
    assert!(admits_with(&types, slot, sigil(), None));
    assert!(admits_with(&types, slot, record(), None));
}

/// A member that captures a type name takes the token whatever the name resolves to.
#[test]
fn a_fresh_type_token_strict_admits_through_its_name_member() {
    let mut types = TypeRegistry::new();
    let meters = Symbol { id: 7 };
    let unbound = Some(Resolution::Unbound(meters));
    let slot = carrier_union(&mut types);
    assert!(admits_with(&types, slot, ExpressionPart::Type(meters), unbound));
    let no_name_member = types.union_of(vec![KType::SigiledTypeExpr, KType::RecordType]);
    assert!(!admits_with(&types, no_name_member, ExpressionPart::Type(meters), unbound));
}

/// A union that captures one kind of type expression does not take the other.
#[test]
fn the_speculative_guard_distributes_over_union_members() {
    let mut types = TypeRegistry::new();
    let with_sigil = types.union_of(vec![KType::TypeNameToken, KType::SigiledTypeExpr]);
    assert!(!admits_with(&types, with_sigil, record(), None));
    assert!(admits_with(&types, with_sigil, sigil(), None));

    let with_record = types.union_of(vec![KType::TypeNameToken, KType::RecordType]);
    assert!(!admits_with(&types, with_record, sigil(), None));
    assert!(admits_with(&types, with_record, record(), None));

    let neither = types.union_of(vec![KType::TypeNameToken, KType::Number]);
    assert!(admits_with(&types, neither, sigil(), None));
    assert!(admits_with(&types, neither, record(), None));
}

/// A slot of one carrier type takes exactly its own spelling.
#[test]
fn bare_carrier_slots_keep_their_verdicts() {
    let types = TypeRegistry::new();
    assert!(admits_with(&types, KType::SigiledTypeExpr, sigil(), None));
    assert!(!admits_with(&types, KType::SigiledTypeExpr, record(), None));
    assert!(!admits_with(&types, KType::RecordType, sigil(), None));
    assert!(!admits_with(&types, KType::KExpression, sigil(), None));
    assert!(admits_with(&types, PROPER_TYPE, sigil(), None));
}

/// A part that no member captures is admitted by what it is.
#[test]
fn an_unclaimed_part_falls_through_to_the_value_walk() {
    let mut types = TypeRegistry::new();
    let number_union = types.union_of(vec![KType::TypeNameToken, KType::Number]);
    assert!(admits_with(&types, number_union, one(), None));
    let carriers = carrier_union(&mut types);
    assert!(!admits_with(&types, carriers, one(), None));
}

/// A slot whose name has not landed leans on the binder, unless it captures the name.
#[test]
fn relaxed_admission_leans_on_a_parked_name_at_a_union_slot() {
    let mut types = TypeRegistry::new();
    let region = Region::new();
    let width = Symbol { id: 3 };
    let parts = vec![Spanned {
        value: WorkingPart::Ast(ExpressionPart::Identifier(width)),
        span: None,
    }];
    let slot = types.union_of(vec![KType::TypeNameToken, KType::Number]);
    let producer = ProducerId { edge: 7 };
    let outcomes = vec![Some(Resolution::Parked(producer))];
    let leans = relaxed_admits(&types, &region, &vec![slot_of(slot)], &parts, &outcomes)
        .expect("a parked slot is relaxed-satisfiable");
    assert!(matches!(leans.as_slice(), [Lean::Parked(p)] if *p == producer));

    let owning = carrier_union(&mut types);
    let leans = relaxed_admits(&types, &region, &vec![slot_of(owning)], &parts, &outcomes)
        .expect("a strictly-admitting slot leans on nothing");
    assert!(leans.is_empty());
}

/// A kind member takes every spelling of a type by its shape, in a union as on its own.
#[test]
fn a_kind_member_keeps_its_shape_only_admission_in_a_union() {
    let mut types = TypeRegistry::new();
    let meters = Symbol { id: 7 };
    let token = ExpressionPart::Type(meters);
    let unbound = Some(Resolution::Unbound(meters));
    let slot = types.union_of(vec![PROPER_TYPE, KType::Identifier]);
    assert!(admits_with(&types, PROPER_TYPE, token, unbound));
    assert!(admits_with(&types, slot, token, unbound));
    for shape in [sigil(), record()] {
        assert!(admits_with(&types, slot, shape, None));
    }
    assert_eq!(types.raw_capture_member(slot, token), None);
}

/// An unbound name is leaned on without hope; a value of the wrong type is never leaned on.
#[test]
fn dead_leans_name_the_slot() {
    let types = TypeRegistry::new();
    let region = Region::new();
    let name = Symbol { id: 5 };
    let role = Symbol { id: 6 };
    let elements = vec![SignatureElement::Argument(Argument {
        name: Symbol { id: 0 },
        ktype: KType::Number,
        role: Some(role),
    })];
    let parts = vec![Spanned {
        value: WorkingPart::Ast(ExpressionPart::Identifier(name)),
        span: None,
    }];
    let leans =
        relaxed_admits(&types, &region, &elements, &parts, &vec![Some(Resolution::Unbound(name))])
            .expect("an unbound name is still a lean");
    assert!(matches!(leans.as_slice(), [Lean::Dead(n, Some(r))] if *n == name && *r == role));

    let text = vec![Spanned {
        value: WorkingPart::Ast(ExpressionPart::Literal(KLiteral::Bool(true))),
        span: None,
    }];
    assert!(relaxed_admits(&types, &region, &elements, &text, &vec![None]).is_none());
    assert!(relaxed_admits(&types, &region, &elements, &Vec::new(), &Vec::new()).is_none());
}

/// A resolved name is admitted by its value, not by its spelling.
#[test]
fn resolved_names_are_admitted_by_value() {
    let types = TypeRegistry::new();
    let mut region = Region::new();
    let seven = region.add_object(
        koan_dispatch::value::KObject::Number(7.0f64.to_bits()),
        false,
    );
    assert_eq!(seven, ObjId { at: 0 });
    let part = WorkingPart::Ast(ExpressionPart::Identifier(Symbol { id: 1 }));
    let outcomes = vec![Some(Resolution::Resolved(Carried::Object(seven)))];
    assert!(slot_admits_strict(&types, &region, slot_of(KType::Number), part, 0, &outcomes));
    assert!(!slot_admits_strict(&types, &region, slot_of(KType::Str), part, 0, &outcomes));
    assert!(slot_admits_strict(&types, &region, slot_of(KType::Any), part, 0, &outcomes));
}

/// A keyword element takes its own keyword and nothing else.
#[test]
fn keywords_admit_themselves() {
    let types = TypeRegistry::new();
    let region = Region::new();
    let own = Symbol { id: 1 };
    let other = Symbol { id: 2 };
    let element = SignatureElement::Keyword(own);
    let admits = |part: ExpressionPart| {
        slot_admits_strict(&types, &region, element, WorkingPart::Ast(part), 0, &Vec::new())
    };
    assert!(admits(ExpressionPart::Keyword(own)));
    assert!(!admits(ExpressionPart::Keyword(other)));
    assert!(!admits(ExpressionPart::Identifier(own)));
}
