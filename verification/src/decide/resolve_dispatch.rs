//! Overload resolution: which callable in scope an expression means.
//!
//! Names that have not landed are waited for before any overload is considered, so a pick never
//! depends on the order in which binders finish. Scopes are then decided innermost first. Within a
//! scope an overload that is still being declared is waited for; otherwise the most specific one
//! that admits every slot is picked; and where none admits, the slots that could still come to fit
//! are leaned on.

use super::resolve::Resolution;
use crate::ast::{dispatch_key, key_of, ExpressionPart, KeyElement, Spanned, WorkingPart};
use crate::function::{
    classify_for_pick, is_most_specific, most_specific, most_specific_is_unique, wrap_slots,
    Functions, SignatureElement,
};
use crate::ktype::{KKind, KType, TypeRegistry};
use crate::region::{Region, RegionView};
use crate::scope::{binding_cutoff, cutoff_in, FunctionLookup, LexicalFrame, Scope, ScopeLevel};
use crate::symbol::Symbol;
use crate::value::{push_new, with_new, ExprId, FnId, ProducerId};
use vstd::prelude::*;

verus! {

/// How often overload resolution has been entered.
pub struct EntryCounter {
    pub entries: usize,
}

/// How often overload resolution has been entered since the last reset.
pub fn resolve_dispatch_entry_count(counter: &EntryCounter) -> (r: usize)
    ensures
        r == counter.entries,
{
    counter.entries
}

/// Starts counting from zero.
pub fn reset_resolve_dispatch_entry_count(counter: &mut EntryCounter)
    ensures
        final(counter).entries == 0,
{
    counter.entries = 0;
}

/// The count after one more entry; it stays at the largest number once it has reached it.
pub open spec fn counted(entries: usize) -> usize {
    if entries < usize::MAX {
        (entries + 1) as usize
    } else {
        entries
    }
}

/// A picked callable, with the slots that take the value of a bare name.
pub struct Resolved {
    pub function: FnId,
    pub wrap_indices: Vec<usize>,
}

/// What overload resolution came to.
pub enum DispatchOutcome {
    Resolved(Resolved),
    /// This many overloads admit the expression and none is the most specific.
    Ambiguous(usize),
    /// Wait for these binders and resolve again.
    ParkOnProducers(Vec<ProducerId>),
    /// A bare name is bound to nothing. The second field is the role of the slot it stands in.
    UnboundName(Symbol, Option<Symbol>),
    /// No overload admits the expression. `quote_hint` is set when a forgotten `#(…)` explains it.
    Unmatched { quote_hint: bool },
}

/// The content of a [`DispatchOutcome`].
pub enum DispatchView {
    Resolved { function: FnId, wrap_indices: Seq<usize> },
    Ambiguous(usize),
    ParkOnProducers(Seq<ProducerId>),
    UnboundName(Symbol, Option<Symbol>),
    Unmatched { quote_hint: bool },
}

impl View for DispatchOutcome {
    type V = DispatchView;

    open spec fn view(&self) -> DispatchView {
        match *self {
            DispatchOutcome::Resolved(resolved) => DispatchView::Resolved {
                function: resolved.function,
                wrap_indices: resolved.wrap_indices@,
            },
            DispatchOutcome::Ambiguous(n) => DispatchView::Ambiguous(n),
            DispatchOutcome::ParkOnProducers(sources) => DispatchView::ParkOnProducers(sources@),
            DispatchOutcome::UnboundName(name, role) => DispatchView::UnboundName(name, role),
            DispatchOutcome::Unmatched { quote_hint } => DispatchView::Unmatched { quote_hint },
        }
    }
}

/// What one scope contributes. A dead lean does not end the walk: an outer scope may still take
/// the unbound name as a token.
pub enum ScopeDecision {
    Terminal(DispatchOutcome),
    DeadLean(Symbol, Option<Symbol>),
    Continue,
}

/// The content of a [`ScopeDecision`].
pub enum DecisionView {
    Terminal(DispatchView),
    DeadLean(Symbol, Option<Symbol>),
    Continue,
}

impl View for ScopeDecision {
    type V = DecisionView;

    open spec fn view(&self) -> DecisionView {
        match *self {
            ScopeDecision::Terminal(outcome) => DecisionView::Terminal(outcome@),
            ScopeDecision::DeadLean(name, role) => DecisionView::DeadLean(name, role),
            ScopeDecision::Continue => DecisionView::Continue,
        }
    }
}

/// What a candidate would still need at a slot that it does not admit yet.
#[derive(Clone, Copy, PartialEq, Eq, Structural, Debug)]
pub enum Lean {
    /// A binder has to land.
    Parked(ProducerId),
    /// The name is unbound and never will be bound. The second field is the role of the slot.
    Dead(Symbol, Option<Symbol>),
}

/// What one pass over a scope's overloads picked.
#[derive(Clone, Copy, PartialEq, Eq, Structural, Debug)]
pub enum PickPass {
    /// The candidate at this place.
    Picked(usize),
    /// This many candidates admit the expression and none is the most specific.
    Tie(usize),
    Empty,
}

/// The outcome of the name at slot `i`.
pub open spec fn outcome_at(outcomes: Seq<Option<Resolution>>, i: int) -> Option<Resolution> {
    if 0 <= i < outcomes.len() {
        outcomes[i]
    } else {
        None
    }
}

/// The outcome of the name at slot `i`.
pub fn outcome_of(outcomes: &Vec<Option<Resolution>>, i: usize) -> (r: Option<Resolution>)
    ensures
        r == outcome_at(outcomes@, i as int),
{
    if i < outcomes.len() {
        outcomes[i]
    } else {
        None
    }
}

/// Whether a slot is resolved by the binder form itself: the declared name, and its type operands.
pub open spec fn park_exempt(region: RegionView, expr: ExprId, i: int, part: WorkingPart) -> bool {
    region.meta(expr).plan is Some && (region.name_slot(expr) == Some(i as usize) || (part matches WorkingPart::Ast(
        ExpressionPart::Type(_),
    )))
}

/// Whether a slot is resolved by the binder form itself.
pub fn park_exempt_slot(region: &Region, expr: ExprId, i: usize, part: WorkingPart) -> (r: bool)
    ensures
        r == park_exempt(region@, expr, i as int, part),
{
    if region.meta_of(expr).plan.is_none() {
        return false;
    }
    let named = match region.binder_name_slot(expr) {
        Some(slot) => slot == i,
        None => false,
    };
    named || matches!(part, WorkingPart::Ast(ExpressionPart::Type(_)))
}

/// The binders behind every name that has not landed and is not the binder form's own business,
/// each once, among the first `upto` slots.
pub open spec fn parked_upto(
    region: RegionView,
    expr: ExprId,
    outcomes: Seq<Option<Resolution>>,
    upto: nat,
) -> Seq<ProducerId>
    decreases upto,
{
    if upto == 0 {
        Seq::empty()
    } else {
        let at = (upto - 1) as int;
        let earlier = parked_upto(region, expr, outcomes, at as nat);
        match outcome_at(outcomes, at) {
            Some(Resolution::Parked(source)) => if park_exempt(
                region,
                expr,
                at,
                region.parts(expr)[at].value,
            ) {
                earlier
            } else {
                with_new(earlier, source)
            },
            _ => earlier,
        }
    }
}

/// The binders that resolution waits for before it considers any overload.
pub fn parked_producers(
    region: &Region,
    expr: ExprId,
    parts: &Vec<Spanned>,
    outcomes: &Vec<Option<Resolution>>,
) -> (r: Vec<ProducerId>)
    requires
        parts@ == region@.parts(expr),
    ensures
        r@ == parked_upto(region@, expr, outcomes@, parts@.len()),
{
    let mut r: Vec<ProducerId> = Vec::new();
    let mut i: usize = 0;
    while i < parts.len()
        invariant
            i <= parts.len(),
            parts@ == region@.parts(expr),
            r@ == parked_upto(region@, expr, outcomes@, i as nat),
        decreases parts.len() - i,
    {
        if let Some(Resolution::Parked(source)) = outcome_of(outcomes, i) {
            if !park_exempt_slot(region, expr, i, parts[i].value) {
                push_new(&mut r, source);
            }
        }
        i = i + 1;
    }
    r
}

/// Whether a parameter admits the value that a slot holds, or the part that it captures by shape.
pub open spec fn argument_admits(
    types: &TypeRegistry,
    region: RegionView,
    kt: KType,
    part: ExpressionPart,
    outcome: Option<Resolution>,
) -> bool {
    if types.capturing_member(kt, part) is Some {
        types.takes_part(kt, part)
    } else if types.has_member(kt, KType::OfKind(KKind::ProperType)) && (part is SigiledTypeExpr
        || part is RecordType || part is Type) {
        true
    } else if kt == KType::Identifier || kt == KType::NameToken || kt == KType::TypeNameToken {
        types.takes_part(kt, part)
    } else if part is SigiledTypeExpr && !types.has_member(kt, KType::KExpression)
        && !types.has_member(kt, KType::RecordType) {
        true
    } else if part is RecordType && !types.has_member(kt, KType::KExpression)
        && !types.has_member(kt, KType::SigiledTypeExpr) {
        true
    } else {
        match outcome {
            Some(Resolution::Resolved(carried)) => types.accepts(region, kt, carried),
            Some(Resolution::Parked(_)) => false,
            Some(Resolution::Unbound(_)) => false,
            None => types.takes_part(kt, part),
        }
    }
}

/// Whether a signature element admits a slot.
pub open spec fn slot_admits(
    types: &TypeRegistry,
    region: RegionView,
    element: SignatureElement,
    part: WorkingPart,
    outcome: Option<Resolution>,
) -> bool {
    match element {
        SignatureElement::Keyword(symbol) => part.keyword() == Some(symbol),
        SignatureElement::Argument(arg) => match part {
            WorkingPart::Ast(ast) => argument_admits(types, region, arg.ktype, ast, outcome),
            WorkingPart::Spliced { cell, .. } => types.accepts(region, arg.ktype, cell),
            _ => false,
        },
    }
}

/// Whether a signature element admits a slot.
pub fn slot_admits_strict(
    types: &TypeRegistry,
    region: &Region,
    element: SignatureElement,
    part: WorkingPart,
    i: usize,
    outcomes: &Vec<Option<Resolution>>,
) -> (r: bool)
    ensures
        r == slot_admits(types, region@, element, part, outcome_at(outcomes@, i as int)),
{
    match element {
        SignatureElement::Keyword(symbol) => match part.as_keyword() {
            Some(own) => own == symbol,
            None => false,
        },
        SignatureElement::Argument(arg) => match part {
            WorkingPart::Spliced { cell, .. } => types.accepts_carried(region, arg.ktype, cell),
            WorkingPart::Ast(ast) => {
                let kt = arg.ktype;
                // A member that captures the part as it stands: the part is never evaluated.
                if types.raw_capture_member(kt, ast).is_some() {
                    return types.matches_part(kt, ast);
                }
                // A kind expectation takes every spelling of a type by its shape.
                if types.union_has_member(kt, KType::OfKind(KKind::ProperType)) && matches!(
                    ast,
                    ExpressionPart::SigiledTypeExpr(_) | ExpressionPart::RecordType(_)
                        | ExpressionPart::Type(_)
                ) {
                    return true;
                }
                // A declaration slot owns the name it holds.
                if matches!(kt, KType::Identifier | KType::NameToken | KType::TypeNameToken) {
                    return types.matches_part(kt, ast);
                }
                // Anywhere but at a slot that captures the other kind of type expression, a type
                // expression is evaluated to the type it stands for.
                if matches!(ast, ExpressionPart::SigiledTypeExpr(_)) && !types.union_has_member(
                    kt,
                    KType::KExpression,
                ) && !types.union_has_member(kt, KType::RecordType) {
                    return true;
                }
                if matches!(ast, ExpressionPart::RecordType(_)) && !types.union_has_member(
                    kt,
                    KType::KExpression,
                ) && !types.union_has_member(kt, KType::SigiledTypeExpr) {
                    return true;
                }
                match outcome_of(outcomes, i) {
                    Some(Resolution::Resolved(carried)) => types.accepts_carried(
                        region,
                        kt,
                        carried,
                    ),
                    Some(Resolution::Parked(_)) | Some(Resolution::Unbound(_)) => false,
                    None => types.matches_part(kt, ast),
                }
            },
            _ => false,
        },
    }
}

/// Whether a signature admits every slot of an expression.
pub open spec fn signature_admits(
    types: &TypeRegistry,
    region: RegionView,
    elements: Seq<SignatureElement>,
    parts: Seq<Spanned>,
    outcomes: Seq<Option<Resolution>>,
) -> bool {
    elements.len() == parts.len() && forall|i: int|
        0 <= i < parts.len() ==> slot_admits(
            types,
            region,
            elements[i],
            (#[trigger] parts[i]).value,
            outcome_at(outcomes, i),
        )
}

/// Whether a signature admits every slot of an expression.
pub fn signature_admits_strict(
    types: &TypeRegistry,
    region: &Region,
    elements: &Vec<SignatureElement>,
    parts: &Vec<Spanned>,
    outcomes: &Vec<Option<Resolution>>,
) -> (r: bool)
    ensures
        r == signature_admits(types, region@, elements@, parts@, outcomes@),
{
    if elements.len() != parts.len() {
        return false;
    }
    let mut i: usize = 0;
    while i < parts.len()
        invariant
            i <= parts.len(),
            elements.len() == parts.len(),
            forall|k: int|
                0 <= k < i ==> slot_admits(
                    types,
                    region@,
                    elements@[k],
                    (#[trigger] parts@[k]).value,
                    outcome_at(outcomes@, k),
                ),
        decreases parts.len() - i,
    {
        if !slot_admits_strict(types, region, elements[i], parts[i].value, i, outcomes) {
            assert(!slot_admits(
                types,
                region@,
                elements@[i as int],
                parts@[i as int].value,
                outcome_at(outcomes@, i as int),
            ));
            return false;
        }
        i = i + 1;
    }
    true
}

/// The role that a slot's parameter declares.
pub open spec fn role_of(element: SignatureElement) -> Option<Symbol> {
    match element {
        SignatureElement::Argument(arg) => arg.role,
        SignatureElement::Keyword(_) => None,
    }
}

/// What the first `upto` slots would still need; nothing when one of them can never fit.
pub open spec fn leans_upto(
    types: &TypeRegistry,
    region: RegionView,
    elements: Seq<SignatureElement>,
    parts: Seq<Spanned>,
    outcomes: Seq<Option<Resolution>>,
    upto: nat,
) -> Option<Seq<Lean>>
    decreases upto,
{
    if upto == 0 {
        Some(Seq::empty())
    } else {
        let at = (upto - 1) as int;
        match leans_upto(types, region, elements, parts, outcomes, at as nat) {
            Some(earlier) => if slot_admits(
                types,
                region,
                elements[at],
                parts[at].value,
                outcome_at(outcomes, at),
            ) {
                Some(earlier)
            } else {
                match outcome_at(outcomes, at) {
                    Some(Resolution::Parked(source)) => Some(earlier.push(Lean::Parked(source))),
                    Some(Resolution::Unbound(name)) => Some(
                        earlier.push(Lean::Dead(name, role_of(elements[at]))),
                    ),
                    _ => None,
                }
            },
            None => None,
        }
    }
}

/// What a candidate would still need; nothing when it can never fit.
pub open spec fn leans_of(
    types: &TypeRegistry,
    region: RegionView,
    elements: Seq<SignatureElement>,
    parts: Seq<Spanned>,
    outcomes: Seq<Option<Resolution>>,
) -> Option<Seq<Lean>> {
    if elements.len() != parts.len() {
        None
    } else {
        leans_upto(types, region, elements, parts, outcomes, parts.len())
    }
}

proof fn no_leans_from_a_hard_reject(
    types: &TypeRegistry,
    region: RegionView,
    elements: Seq<SignatureElement>,
    parts: Seq<Spanned>,
    outcomes: Seq<Option<Resolution>>,
    at: nat,
    upto: nat,
)
    requires
        at <= upto,
        leans_upto(types, region, elements, parts, outcomes, at) is None,
    ensures
        leans_upto(types, region, elements, parts, outcomes, upto) is None,
    decreases upto,
{
    if at < upto {
        no_leans_from_a_hard_reject(
            types,
            region,
            elements,
            parts,
            outcomes,
            at,
            (upto - 1) as nat,
        );
    }
}

/// What a candidate would still need; nothing when it can never fit.
pub fn relaxed_admits(
    types: &TypeRegistry,
    region: &Region,
    elements: &Vec<SignatureElement>,
    parts: &Vec<Spanned>,
    outcomes: &Vec<Option<Resolution>>,
) -> (r: Option<Vec<Lean>>)
    ensures
        match r {
            Some(leans) => leans_of(types, region@, elements@, parts@, outcomes@) == Some(leans@),
            None => leans_of(types, region@, elements@, parts@, outcomes@) is None,
        },
{
    if elements.len() != parts.len() {
        return None;
    }
    let mut leans: Vec<Lean> = Vec::new();
    let mut i: usize = 0;
    while i < parts.len()
        invariant
            i <= parts.len(),
            elements.len() == parts.len(),
            leans_upto(types, region@, elements@, parts@, outcomes@, i as nat) == Some(leans@),
        decreases parts.len() - i,
    {
        if !slot_admits_strict(types, region, elements[i], parts[i].value, i, outcomes) {
            match outcome_of(outcomes, i) {
                Some(Resolution::Parked(source)) => {
                    leans.push(Lean::Parked(source));
                },
                Some(Resolution::Unbound(name)) => {
                    let role = match elements[i] {
                        SignatureElement::Argument(arg) => arg.role,
                        SignatureElement::Keyword(_) => None,
                    };
                    leans.push(Lean::Dead(name, role));
                },
                _ => {
                    proof {
                        no_leans_from_a_hard_reject(
                            types,
                            region@,
                            elements@,
                            parts@,
                            outcomes@,
                            (i + 1) as nat,
                            parts@.len(),
                        );
                    }
                    return None;
                },
            }
        }
        i = i + 1;
    }
    Some(leans)
}

/// The producers among a run of leans, added to `sources`, each once.
pub open spec fn parked_leans(sources: Seq<ProducerId>, leans: Seq<Lean>) -> Seq<ProducerId>
    decreases leans.len(),
{
    if leans.len() == 0 {
        sources
    } else {
        let earlier = parked_leans(sources, leans.drop_last());
        match leans.last() {
            Lean::Parked(source) => with_new(earlier, source),
            Lean::Dead(_, _) => earlier,
        }
    }
}

/// The first dead name among a run of leans, unless one is known already.
pub open spec fn dead_lean(known: Option<(Symbol, Option<Symbol>)>, leans: Seq<Lean>) -> Option<
    (Symbol, Option<Symbol>),
>
    decreases leans.len(),
{
    if leans.len() == 0 {
        known
    } else {
        match (dead_lean(known, leans.drop_last()), leans.last()) {
            (None, Lean::Dead(name, role)) => Some((name, role)),
            (earlier, _) => earlier,
        }
    }
}

/// What the relaxed pass over the first `upto` candidates has found.
pub struct RelaxedView {
    pub parked: Seq<ProducerId>,
    pub dead: Option<(Symbol, Option<Symbol>)>,
}

/// The relaxed pass over the first `upto` candidates.
pub open spec fn relaxed_upto(
    functions: &Functions,
    types: &TypeRegistry,
    region: RegionView,
    candidates: Seq<FnId>,
    parts: Seq<Spanned>,
    outcomes: Seq<Option<Resolution>>,
    upto: nat,
) -> RelaxedView
    decreases upto,
{
    if upto == 0 {
        RelaxedView { parked: Seq::empty(), dead: None }
    } else {
        let at = (upto - 1) as int;
        let earlier = relaxed_upto(
            functions,
            types,
            region,
            candidates,
            parts,
            outcomes,
            at as nat,
        );
        match leans_of(types, region, functions.signature(candidates[at]), parts, outcomes) {
            Some(leans) => RelaxedView {
                parked: parked_leans(earlier.parked, leans),
                dead: dead_lean(earlier.dead, leans),
            },
            None => earlier,
        }
    }
}

/// Adds the producers among `leans` behind `sources`, each once.
fn collect_parked(sources: &mut Vec<ProducerId>, leans: &Vec<Lean>)
    ensures
        final(sources)@ == parked_leans(old(sources)@, leans@),
{
    let mut i: usize = 0;
    let ghost before = sources@;
    proof {
        assert(leans@.take(0) =~= Seq::<Lean>::empty());
    }
    while i < leans.len()
        invariant
            i <= leans.len(),
            sources@ == parked_leans(before, leans@.take(i as int)),
        decreases leans.len() - i,
    {
        proof {
            assert(leans@.take(i as int + 1).drop_last() =~= leans@.take(i as int));
        }
        if let Lean::Parked(source) = leans[i] {
            push_new(sources, source);
        }
        i = i + 1;
    }
    assert(leans@.take(i as int) =~= leans@);
}

/// The first dead name among `leans`, unless one is known already.
fn collect_dead(known: Option<(Symbol, Option<Symbol>)>, leans: &Vec<Lean>) -> (r: Option<
    (Symbol, Option<Symbol>),
>)
    ensures
        r == dead_lean(known, leans@),
{
    let mut dead = known;
    let mut i: usize = 0;
    proof {
        assert(leans@.take(0) =~= Seq::<Lean>::empty());
    }
    while i < leans.len()
        invariant
            i <= leans.len(),
            dead == dead_lean(known, leans@.take(i as int)),
        decreases leans.len() - i,
    {
        proof {
            assert(leans@.take(i as int + 1).drop_last() =~= leans@.take(i as int));
        }
        if dead.is_none() {
            if let Lean::Dead(name, role) = leans[i] {
                dead = Some((name, role));
            }
        }
        i = i + 1;
    }
    assert(leans@.take(i as int) =~= leans@);
    dead
}

/// The places of the candidates among the first `upto` that admit every slot.
pub open spec fn survivors_upto(
    functions: &Functions,
    types: &TypeRegistry,
    region: RegionView,
    candidates: Seq<FnId>,
    parts: Seq<Spanned>,
    outcomes: Seq<Option<Resolution>>,
    upto: nat,
) -> Seq<usize>
    decreases upto,
{
    if upto == 0 {
        Seq::empty()
    } else {
        let at = (upto - 1) as int;
        let earlier = survivors_upto(
            functions,
            types,
            region,
            candidates,
            parts,
            outcomes,
            at as nat,
        );
        if signature_admits(types, region, functions.signature(candidates[at]), parts, outcomes) {
            earlier.push(at as usize)
        } else {
            earlier
        }
    }
}

/// The signatures of the candidates at `places`.
pub open spec fn signatures_at(
    functions: &Functions,
    candidates: Seq<FnId>,
    places: Seq<usize>,
) -> Seq<Seq<SignatureElement>> {
    places.map_values(|place: usize| functions.signature(candidates[place as int]))
}

/// What the strict pass over all candidates picks.
pub open spec fn strict_pick(
    functions: &Functions,
    types: &TypeRegistry,
    region: RegionView,
    candidates: Seq<FnId>,
    parts: Seq<Spanned>,
    outcomes: Seq<Option<Resolution>>,
) -> PickPass {
    let survivors = survivors_upto(
        functions,
        types,
        region,
        candidates,
        parts,
        outcomes,
        candidates.len(),
    );
    let sigs = signatures_at(functions, candidates, survivors);
    if exists|best: int| is_most_specific(types, sigs, best) {
        PickPass::Picked(survivors[choose|best: int| is_most_specific(types, sigs, best)])
    } else if survivors.len() > 0 {
        PickPass::Tie(survivors.len() as usize)
    } else {
        PickPass::Empty
    }
}

/// One scope's overloads under the key of the expression.
pub struct OverloadBucket<'a> {
    pub candidates: &'a Vec<FnId>,
}

impl<'a> OverloadBucket<'a> {
    /// The most specific of the candidates that admit every slot.
    pub fn pick_strict(
        &self,
        functions: &Functions,
        types: &TypeRegistry,
        region: &Region,
        parts: &Vec<Spanned>,
        outcomes: &Vec<Option<Resolution>>,
    ) -> (r: PickPass)
        ensures
            r == strict_pick(
                functions,
                types,
                region@,
                self.candidates@,
                parts@,
                outcomes@,
            ),
            r matches PickPass::Picked(at) ==> at < self.candidates@.len(),
    {
        let mut survivors: Vec<usize> = Vec::new();
        let mut sigs: Vec<Vec<SignatureElement>> = Vec::new();
        let mut i: usize = 0;
        while i < self.candidates.len()
            invariant
                i <= self.candidates.len(),
                survivors@ == survivors_upto(
                    functions,
                    types,
                    region@,
                    self.candidates@,
                    parts@,
                    outcomes@,
                    i as nat,
                ),
                forall|k: int| 0 <= k < survivors@.len() ==> survivors@[k] < i,
                sigs@.len() == survivors@.len(),
                forall|k: int|
                    0 <= k < sigs@.len() ==> (#[trigger] sigs@[k])@ == functions.signature(
                        self.candidates@[survivors@[k] as int],
                    ),
            decreases self.candidates.len() - i,
        {
            let sig = functions.signature_of(self.candidates[i]);
            if signature_admits_strict(types, region, &sig, parts, outcomes) {
                survivors.push(i);
                sigs.push(sig);
            }
            i = i + 1;
        }
        proof {
            assert(crate::function::signatures(sigs@) =~= signatures_at(
                functions,
                self.candidates@,
                survivors@,
            ));
        }
        let ghost all = signatures_at(functions, self.candidates@, survivors@);
        match most_specific(types, &sigs) {
            Some(best) => {
                proof {
                    assert(is_most_specific(types, all, best as int));
                    let chosen = choose|b: int| is_most_specific(types, all, b);
                    most_specific_is_unique(types, all, best as int, chosen);
                }
                PickPass::Picked(survivors[best])
            },
            None => {
                if survivors.len() > 0 {
                    PickPass::Tie(survivors.len())
                } else {
                    PickPass::Empty
                }
            },
        }
    }

    /// The relaxed pass over all candidates: the producers they lean on, and the first dead name.
    fn relaxed_pass(
        &self,
        functions: &Functions,
        types: &TypeRegistry,
        region: &Region,
        parts: &Vec<Spanned>,
        outcomes: &Vec<Option<Resolution>>,
    ) -> (r: (Vec<ProducerId>, Option<(Symbol, Option<Symbol>)>))
        ensures
            ({
                let all = relaxed_upto(
                    functions,
                    types,
                    region@,
                    self.candidates@,
                    parts@,
                    outcomes@,
                    self.candidates@.len(),
                );
                r.0@ == all.parked && r.1 == all.dead
            }),
    {
        let mut parked: Vec<ProducerId> = Vec::new();
        let mut dead: Option<(Symbol, Option<Symbol>)> = None;
        let mut i: usize = 0;
        while i < self.candidates.len()
            invariant
                i <= self.candidates.len(),
                parked@ == relaxed_upto(
                    functions,
                    types,
                    region@,
                    self.candidates@,
                    parts@,
                    outcomes@,
                    i as nat,
                ).parked,
                dead == relaxed_upto(
                    functions,
                    types,
                    region@,
                    self.candidates@,
                    parts@,
                    outcomes@,
                    i as nat,
                ).dead,
            decreases self.candidates.len() - i,
        {
            let sig = functions.signature_of(self.candidates[i]);
            if let Some(leans) = relaxed_admits(types, region, &sig, parts, outcomes) {
                collect_parked(&mut parked, &leans);
                dead = collect_dead(dead, &leans);
            }
            i = i + 1;
        }
        (parked, dead)
    }

    /// The producers that any candidate leans on, each once.
    pub fn relaxed_parked_producers(
        &self,
        functions: &Functions,
        types: &TypeRegistry,
        region: &Region,
        parts: &Vec<Spanned>,
        outcomes: &Vec<Option<Resolution>>,
    ) -> (r: Vec<ProducerId>)
        ensures
            r@ == relaxed_upto(
                functions,
                types,
                region@,
                self.candidates@,
                parts@,
                outcomes@,
                self.candidates@.len(),
            ).parked,
    {
        let (parked, _) = self.relaxed_pass(functions, types, region, parts, outcomes);
        parked
    }
}

/// What a scope contributes when none of its overloads admits the expression yet.
pub open spec fn relaxed_decision(
    functions: &Functions,
    types: &TypeRegistry,
    region: RegionView,
    candidates: Seq<FnId>,
    parts: Seq<Spanned>,
    outcomes: Seq<Option<Resolution>>,
) -> DecisionView {
    let all = relaxed_upto(
        functions,
        types,
        region,
        candidates,
        parts,
        outcomes,
        candidates.len(),
    );
    if all.parked.len() > 0 {
        DecisionView::Terminal(DispatchView::ParkOnProducers(all.parked))
    } else {
        match all.dead {
            Some((name, role)) => DecisionView::DeadLean(name, role),
            None => DecisionView::Continue,
        }
    }
}

/// What a scope contributes when none of its overloads admits the expression yet.
pub fn decide_relaxed(
    bucket: &OverloadBucket,
    functions: &Functions,
    types: &TypeRegistry,
    region: &Region,
    parts: &Vec<Spanned>,
    outcomes: &Vec<Option<Resolution>>,
) -> (r: ScopeDecision)
    ensures
        r@ == relaxed_decision(
            functions,
            types,
            region@,
            bucket.candidates@,
            parts@,
            outcomes@,
        ),
{
    let (parked, dead) = bucket.relaxed_pass(functions, types, region, parts, outcomes);
    if parked.len() > 0 {
        return ScopeDecision::Terminal(DispatchOutcome::ParkOnProducers(parked));
    }
    match dead {
        Some((name, role)) => ScopeDecision::DeadLean(name, role),
        None => ScopeDecision::Continue,
    }
}

/// Which slots hold a name that has not landed.
pub open spec fn parked_flags(outcomes: Seq<Option<Resolution>>, count: nat) -> Seq<bool> {
    Seq::new(
        count,
        |i: int| outcome_at(outcomes, i) matches Some(Resolution::Parked(_)),
    )
}

/// `sources` with every one of `more` behind it, each once.
pub open spec fn with_all_new(sources: Seq<ProducerId>, more: Seq<ProducerId>) -> Seq<ProducerId>
    decreases more.len(),
{
    if more.len() == 0 {
        sources
    } else {
        with_new(with_all_new(sources, more.drop_last()), more.last())
    }
}

/// What a scope contributes.
pub open spec fn scope_decision(
    functions: &Functions,
    types: &TypeRegistry,
    region: RegionView,
    candidates: Seq<FnId>,
    pending: Option<ProducerId>,
    parts: Seq<Spanned>,
    outcomes: Seq<Option<Resolution>>,
) -> DecisionView {
    match pending {
        Some(source) => DecisionView::Terminal(
            DispatchView::ParkOnProducers(
                with_all_new(
                    seq![source],
                    relaxed_upto(
                        functions,
                        types,
                        region,
                        candidates,
                        parts,
                        outcomes,
                        candidates.len(),
                    ).parked,
                ),
            ),
        ),
        None => match strict_pick(functions, types, region, candidates, parts, outcomes) {
            PickPass::Picked(at) => DecisionView::Terminal(
                DispatchView::Resolved {
                    function: candidates[at as int],
                    wrap_indices: wrap_slots(
                        types,
                        functions.signature(candidates[at as int]),
                        parts,
                        parked_flags(outcomes, parts.len()),
                        parts.len(),
                    ),
                },
            ),
            PickPass::Tie(n) => DecisionView::Terminal(DispatchView::Ambiguous(n)),
            PickPass::Empty => relaxed_decision(
                functions,
                types,
                region,
                candidates,
                parts,
                outcomes,
            ),
        },
    }
}

/// Which slots hold a name that has not landed.
fn flag_parked(outcomes: &Vec<Option<Resolution>>, count: usize) -> (r: Vec<bool>)
    ensures
        r@ == parked_flags(outcomes@, count as nat),
{
    let mut r: Vec<bool> = Vec::new();
    let mut i: usize = 0;
    while i < count
        invariant
            i <= count,
            r@ == parked_flags(outcomes@, count as nat).take(i as int),
        decreases count - i,
    {
        let flag = matches!(outcome_of(outcomes, i), Some(Resolution::Parked(_)));
        r.push(flag);
        assert(parked_flags(outcomes@, count as nat).take(i as int + 1) =~= parked_flags(
            outcomes@,
            count as nat,
        ).take(i as int).push(flag));
        i = i + 1;
    }
    assert(parked_flags(outcomes@, count as nat).take(i as int) =~= parked_flags(
        outcomes@,
        count as nat,
    ));
    r
}

/// What a scope contributes.
pub fn decide_scope(
    lookup: &FunctionLookup,
    functions: &Functions,
    types: &TypeRegistry,
    region: &Region,
    parts: &Vec<Spanned>,
    outcomes: &Vec<Option<Resolution>>,
) -> (r: ScopeDecision)
    ensures
        r@ == scope_decision(
            functions,
            types,
            region@,
            lookup.overloads@,
            lookup.pending,
            parts@,
            outcomes@,
        ),
{
    let bucket = OverloadBucket { candidates: &lookup.overloads };
    if let Some(pending) = lookup.pending {
        // An overload that is still being declared would shadow whatever is picked now.
        let mut producers: Vec<ProducerId> = Vec::new();
        producers.push(pending);
        let more = bucket.relaxed_parked_producers(functions, types, region, parts, outcomes);
        let mut i: usize = 0;
        proof {
            assert(producers@ =~= seq![pending]);
            assert(more@.take(0) =~= Seq::<ProducerId>::empty());
        }
        while i < more.len()
            invariant
                i <= more.len(),
                producers@ == with_all_new(seq![pending], more@.take(i as int)),
            decreases more.len() - i,
        {
            proof {
                assert(more@.take(i as int + 1).drop_last() =~= more@.take(i as int));
            }
            push_new(&mut producers, more[i]);
            i = i + 1;
        }
        assert(more@.take(i as int) =~= more@);
        return ScopeDecision::Terminal(DispatchOutcome::ParkOnProducers(producers));
    }
    match bucket.pick_strict(functions, types, region, parts, outcomes) {
        PickPass::Picked(at) => {
            let function = lookup.overloads[at];
            let parked = flag_parked(outcomes, parts.len());
            let wrap_indices = classify_for_pick(
                types,
                &functions.signature_of(function),
                parts,
                &parked,
            );
            ScopeDecision::Terminal(
                DispatchOutcome::Resolved(Resolved { function, wrap_indices }),
            )
        },
        PickPass::Tie(n) => ScopeDecision::Terminal(DispatchOutcome::Ambiguous(n)),
        PickPass::Empty => decide_relaxed(&bucket, functions, types, region, parts, outcomes),
    }
}

/// Whether a slot holds a value that is not code.
pub open spec fn holds_non_code(
    types: &TypeRegistry,
    region: RegionView,
    part: WorkingPart,
    outcome: Option<Resolution>,
) -> bool {
    match part {
        WorkingPart::Spliced { cell, .. } => !types.accepts(region, KType::KExpression, cell),
        _ => match outcome {
            Some(Resolution::Resolved(carried)) => !types.accepts(
                region,
                KType::KExpression,
                carried,
            ),
            _ => false,
        },
    }
}

/// Whether a slot holds a value that is not code.
pub fn holds_evaluated_non_code(
    types: &TypeRegistry,
    region: &Region,
    part: WorkingPart,
    i: usize,
    outcomes: &Vec<Option<Resolution>>,
) -> (r: bool)
    ensures
        r == holds_non_code(types, region@, part, outcome_at(outcomes@, i as int)),
{
    if let WorkingPart::Spliced { cell, .. } = part {
        return !types.accepts_carried(region, KType::KExpression, cell);
    }
    match outcome_of(outcomes, i) {
        Some(Resolution::Resolved(carried)) => !types.accepts_carried(
            region,
            KType::KExpression,
            carried,
        ),
        _ => false,
    }
}

/// Whether a slot of a signature asks for code and got a value.
pub open spec fn quote_helps_at(
    types: &TypeRegistry,
    region: RegionView,
    elements: Seq<SignatureElement>,
    parts: Seq<Spanned>,
    outcomes: Seq<Option<Resolution>>,
    i: int,
) -> bool {
    &&& 0 <= i < elements.len()
    &&& i < parts.len()
    &&& elements[i] matches SignatureElement::Argument(arg)
    &&& arg.ktype == KType::KExpression
    &&& holds_non_code(types, region, parts[i].value, outcome_at(outcomes, i))
}

/// Whether quoting an argument would help one of the candidates.
pub open spec fn quote_helps_any(
    functions: &Functions,
    types: &TypeRegistry,
    region: RegionView,
    candidates: Seq<FnId>,
    parts: Seq<Spanned>,
    outcomes: Seq<Option<Resolution>>,
) -> bool {
    exists|f: int, i: int|
        0 <= f < candidates.len() && #[trigger] quote_helps_at(
            types,
            region,
            functions.signature(candidates[f]),
            parts,
            outcomes,
            i,
        )
}

/// Whether quoting an argument would help any overload in scope.
pub open spec fn quote_helps(
    functions: &Functions,
    types: &TypeRegistry,
    region: RegionView,
    levels: Seq<ScopeLevel>,
    chain: Option<&LexicalFrame>,
    parts: Seq<Spanned>,
    outcomes: Seq<Option<Resolution>>,
) -> bool
    decreases levels.len(),
{
    levels.len() > 0 && (quote_helps_any(
        functions,
        types,
        region,
        ScopeLevel::overloads_at(
            levels.last().overloads@,
            key_of(parts),
            cutoff_in(chain, levels.last().id),
        ),
        parts,
        outcomes,
    ) || quote_helps(functions, types, region, levels.drop_last(), chain, parts, outcomes))
}

/// Whether quoting an argument would help one callable.
fn quote_helps_signature(
    types: &TypeRegistry,
    region: &Region,
    elements: &Vec<SignatureElement>,
    parts: &Vec<Spanned>,
    outcomes: &Vec<Option<Resolution>>,
) -> (r: bool)
    ensures
        r == exists|i: int|
            #[trigger] quote_helps_at(types, region@, elements@, parts@, outcomes@, i),
{
    let mut i: usize = 0;
    while i < elements.len() && i < parts.len()
        invariant
            i <= elements.len(),
            i <= parts.len(),
            forall|k: int|
                0 <= k < i ==> !#[trigger] quote_helps_at(
                    types,
                    region@,
                    elements@,
                    parts@,
                    outcomes@,
                    k,
                ),
        decreases elements.len() - i,
    {
        if let SignatureElement::Argument(arg) = elements[i] {
            if matches!(arg.ktype, KType::KExpression) && holds_evaluated_non_code(
                types,
                region,
                parts[i].value,
                i,
                outcomes,
            ) {
                assert(quote_helps_at(types, region@, elements@, parts@, outcomes@, i as int));
                return true;
            }
        }
        i = i + 1;
    }
    false
}

/// Whether quoting an argument would help one of the candidates.
fn quote_helps_bucket(
    functions: &Functions,
    types: &TypeRegistry,
    region: &Region,
    candidates: &Vec<FnId>,
    parts: &Vec<Spanned>,
    outcomes: &Vec<Option<Resolution>>,
) -> (r: bool)
    ensures
        r == quote_helps_any(functions, types, region@, candidates@, parts@, outcomes@),
{
    let mut f: usize = 0;
    while f < candidates.len()
        invariant
            f <= candidates.len(),
            forall|k: int, i: int|
                0 <= k < f ==> !#[trigger] quote_helps_at(
                    types,
                    region@,
                    functions.signature(candidates@[k]),
                    parts@,
                    outcomes@,
                    i,
                ),
        decreases candidates.len() - f,
    {
        let elements = functions.signature_of(candidates[f]);
        if quote_helps_signature(types, region, &elements, parts, outcomes) {
            return true;
        }
        f = f + 1;
    }
    false
}

/// Whether a forgotten quote explains that nothing matched.
pub fn quote_would_help(
    scope: &Scope,
    functions: &Functions,
    types: &TypeRegistry,
    region: &Region,
    key: &Vec<KeyElement>,
    chain: Option<&LexicalFrame>,
    parts: &Vec<Spanned>,
    outcomes: &Vec<Option<Resolution>>,
) -> (r: bool)
    requires
        key@ == key_of(parts@),
    ensures
        r == quote_helps(functions, types, region@, scope.levels@, chain, parts@, outcomes@),
{
    let mut at: usize = scope.levels.len();
    proof {
        assert(scope.levels@.take(at as int) =~= scope.levels@);
    }
    while at > 0
        invariant
            at <= scope.levels.len(),
            key@ == key_of(parts@),
            quote_helps(functions, types, region@, scope.levels@, chain, parts@, outcomes@)
                == quote_helps(
                functions,
                types,
                region@,
                scope.levels@.take(at as int),
                chain,
                parts@,
                outcomes@,
            ),
        decreases at,
    {
        at = at - 1;
        proof {
            assert(scope.levels@.take(at as int + 1).drop_last() =~= scope.levels@.take(
                at as int,
            ));
        }
        let level = &scope.levels[at];
        let lookup = level.lookup_function(key, binding_cutoff(chain, level.id));
        if quote_helps_bucket(functions, types, region, &lookup.overloads, parts, outcomes) {
            return true;
        }
    }
    false
}

/// What one level of a scope contributes.
pub open spec fn level_decision(
    functions: &Functions,
    types: &TypeRegistry,
    region: RegionView,
    level: ScopeLevel,
    chain: Option<&LexicalFrame>,
    parts: Seq<Spanned>,
    outcomes: Seq<Option<Resolution>>,
) -> DecisionView {
    let key = key_of(parts);
    let cutoff = cutoff_in(chain, level.id);
    scope_decision(
        functions,
        types,
        region,
        ScopeLevel::overloads_at(level.overloads@, key, cutoff),
        level.claimed_key_at(key, cutoff),
        parts,
        outcomes,
    )
}

/// What the walk over `levels`, innermost first, comes to; `dead` is the first dead name that
/// inner levels met.
pub open spec fn walk_levels(
    functions: &Functions,
    types: &TypeRegistry,
    region: RegionView,
    levels: Seq<ScopeLevel>,
    chain: Option<&LexicalFrame>,
    parts: Seq<Spanned>,
    outcomes: Seq<Option<Resolution>>,
    dead: Option<(Symbol, Option<Symbol>)>,
) -> Result<DispatchView, Option<(Symbol, Option<Symbol>)>>
    decreases levels.len(),
{
    if levels.len() == 0 {
        Err(dead)
    } else {
        match level_decision(functions, types, region, levels.last(), chain, parts, outcomes) {
            DecisionView::Terminal(outcome) => Ok(outcome),
            DecisionView::DeadLean(name, role) => walk_levels(
                functions,
                types,
                region,
                levels.drop_last(),
                chain,
                parts,
                outcomes,
                if dead is None {
                    Some((name, role))
                } else {
                    dead
                },
            ),
            DecisionView::Continue => walk_levels(
                functions,
                types,
                region,
                levels.drop_last(),
                chain,
                parts,
                outcomes,
                dead,
            ),
        }
    }
}

/// What the builtins of the root level decide; they cannot be shadowed.
pub open spec fn root_decision(
    functions: &Functions,
    types: &TypeRegistry,
    region: RegionView,
    levels: Seq<ScopeLevel>,
    chain: Option<&LexicalFrame>,
    parts: Seq<Spanned>,
    outcomes: Seq<Option<Resolution>>,
) -> Option<DispatchView> {
    if levels.len() > 0 && levels[0].has_builtin(key_of(parts)) {
        match level_decision(functions, types, region, levels[0], chain, parts, outcomes) {
            DecisionView::Terminal(outcome) => Some(outcome),
            _ => None,
        }
    } else {
        None
    }
}

/// What overload resolution comes to.
pub open spec fn dispatch_of(
    functions: &Functions,
    types: &TypeRegistry,
    region: RegionView,
    levels: Seq<ScopeLevel>,
    chain: Option<&LexicalFrame>,
    expr: ExprId,
    outcomes: Seq<Option<Resolution>>,
) -> DispatchView {
    let parts = region.parts(expr);
    let parked = parked_upto(region, expr, outcomes, parts.len());
    if parked.len() > 0 {
        DispatchView::ParkOnProducers(parked)
    } else {
        match root_decision(functions, types, region, levels, chain, parts, outcomes) {
            Some(outcome) => outcome,
            None => match walk_levels(
                functions,
                types,
                region,
                levels,
                chain,
                parts,
                outcomes,
                None,
            ) {
                Ok(outcome) => outcome,
                Err(Some((name, role))) => DispatchView::UnboundName(name, role),
                Err(None) => DispatchView::Unmatched {
                    quote_hint: quote_helps(
                        functions,
                        types,
                        region,
                        levels,
                        chain,
                        parts,
                        outcomes,
                    ),
                },
            },
        }
    }
}

/// Resolves an expression against the overloads in scope.
pub fn resolve_dispatch(
    scope: &Scope,
    functions: &Functions,
    types: &TypeRegistry,
    region: &Region,
    expr: ExprId,
    chain: Option<&LexicalFrame>,
    outcomes: &Vec<Option<Resolution>>,
    counter: &mut EntryCounter,
) -> (r: DispatchOutcome)
    ensures
        r@ == dispatch_of(
            functions,
            types,
            region@,
            scope.levels@,
            chain,
            expr,
            outcomes@,
        ),
        final(counter).entries == counted(old(counter).entries),
{
    if counter.entries < usize::MAX {
        counter.entries = counter.entries + 1;
    }
    let parts = region.parts_of(expr);
    let parked = parked_producers(region, expr, &parts, outcomes);
    if parked.len() > 0 {
        return DispatchOutcome::ParkOnProducers(parked);
    }
    let key = dispatch_key(&parts);
    if scope.levels.len() > 0 && scope.levels[0].has_builtin_function(&key) {
        let root = &scope.levels[0];
        let lookup = root.lookup_function(&key, binding_cutoff(chain, root.id));
        if let ScopeDecision::Terminal(outcome) = decide_scope(
            &lookup,
            functions,
            types,
            region,
            &parts,
            outcomes,
        ) {
            return outcome;
        }
    }
    let mut dead: Option<(Symbol, Option<Symbol>)> = None;
    let mut at: usize = scope.levels.len();
    let ghost all = walk_levels(
        functions,
        types,
        region@,
        scope.levels@,
        chain,
        parts@,
        outcomes@,
        None,
    );
    proof {
        assert(scope.levels@.take(at as int) =~= scope.levels@);
    }
    while at > 0
        invariant
            at <= scope.levels.len(),
            key@ == key_of(parts@),
            all == walk_levels(
                functions,
                types,
                region@,
                scope.levels@.take(at as int),
                chain,
                parts@,
                outcomes@,
                dead,
            ),
            parts@ == region@.parts(expr),
            parked_upto(region@, expr, outcomes@, parts@.len()).len() == 0,
            root_decision(
                functions,
                types,
                region@,
                scope.levels@,
                chain,
                parts@,
                outcomes@,
            ) is None,
            all == walk_levels(
                functions,
                types,
                region@,
                scope.levels@,
                chain,
                parts@,
                outcomes@,
                None,
            ),
            counter.entries == counted(old(counter).entries),
        decreases at,
    {
        at = at - 1;
        proof {
            assert(scope.levels@.take(at as int + 1).drop_last() =~= scope.levels@.take(
                at as int,
            ));
        }
        let level = &scope.levels[at];
        let lookup = level.lookup_function(&key, binding_cutoff(chain, level.id));
        match decide_scope(&lookup, functions, types, region, &parts, outcomes) {
            ScopeDecision::Terminal(outcome) => {
                return outcome;
            },
            ScopeDecision::DeadLean(name, role) => {
                if dead.is_none() {
                    dead = Some((name, role));
                }
            },
            ScopeDecision::Continue => {},
        }
    }
    match dead {
        Some((name, role)) => DispatchOutcome::UnboundName(name, role),
        None => DispatchOutcome::Unmatched {
            quote_hint: quote_would_help(
                scope,
                functions,
                types,
                region,
                &key,
                chain,
                &parts,
                outcomes,
            ),
        },
    }
}

/// A name that has not landed is waited for before any overload is considered: the decision is
/// the same whatever overloads are in scope.
pub proof fn unlanded_names_are_awaited_first(
    functions: &Functions,
    types: &TypeRegistry,
    region: RegionView,
    levels: Seq<ScopeLevel>,
    chain: Option<&LexicalFrame>,
    expr: ExprId,
    outcomes: Seq<Option<Resolution>>,
)
    ensures
        parked_upto(region, expr, outcomes, region.parts(expr).len()).len() > 0 ==> dispatch_of(
            functions,
            types,
            region,
            levels,
            chain,
            expr,
            outcomes,
        ) == DispatchView::ParkOnProducers(
            parked_upto(region, expr, outcomes, region.parts(expr).len()),
        ),
{
}

/// A signature that admits every slot leans on nothing, and a signature that leans on nothing
/// admits every slot.
pub proof fn leaning_on_nothing_is_admitting(
    types: &TypeRegistry,
    region: RegionView,
    elements: Seq<SignatureElement>,
    parts: Seq<Spanned>,
    outcomes: Seq<Option<Resolution>>,
)
    ensures
        signature_admits(types, region, elements, parts, outcomes) <==> leans_of(
            types,
            region,
            elements,
            parts,
            outcomes,
        ) == Some(Seq::<Lean>::empty()),
{
    if elements.len() == parts.len() {
        no_leans_means_admitted(types, region, elements, parts, outcomes, parts.len());
    }
}

proof fn no_leans_means_admitted(
    types: &TypeRegistry,
    region: RegionView,
    elements: Seq<SignatureElement>,
    parts: Seq<Spanned>,
    outcomes: Seq<Option<Resolution>>,
    upto: nat,
)
    requires
        elements.len() == parts.len(),
        upto <= parts.len(),
    ensures
        (forall|i: int|
            0 <= i < upto ==> slot_admits(
                types,
                region,
                elements[i],
                (#[trigger] parts[i]).value,
                outcome_at(outcomes, i),
            )) <==> leans_upto(types, region, elements, parts, outcomes, upto) == Some(
            Seq::<Lean>::empty(),
        ),
    decreases upto,
{
    if upto > 0 {
        let at = (upto - 1) as int;
        no_leans_means_admitted(types, region, elements, parts, outcomes, at as nat);
        let earlier = leans_upto(types, region, elements, parts, outcomes, at as nat);
        let now = leans_upto(types, region, elements, parts, outcomes, upto);
        let admits = slot_admits(
            types,
            region,
            elements[at],
            parts[at].value,
            outcome_at(outcomes, at),
        );
        if forall|i: int|
            0 <= i < upto ==> slot_admits(
                types,
                region,
                elements[i],
                (#[trigger] parts[i]).value,
                outcome_at(outcomes, i),
            ) {
            assert(slot_admits(
                types,
                region,
                elements[at],
                parts[at].value,
                outcome_at(outcomes, at),
            ));
        }
        if now == Some(Seq::<Lean>::empty()) {
            if !admits {
                assert(earlier is Some);
                assert(now->0.len() == earlier->0.len() + 1);
            }
        }
    }
}

/// An inner level that reaches a decision hides every outer level, except that the builtins of the
/// root cannot be shadowed.
pub proof fn inner_decisions_win(
    functions: &Functions,
    types: &TypeRegistry,
    region: RegionView,
    outer: Seq<ScopeLevel>,
    level: ScopeLevel,
    chain: Option<&LexicalFrame>,
    parts: Seq<Spanned>,
    outcomes: Seq<Option<Resolution>>,
)
    ensures
        level_decision(
            functions,
            types,
            region,
            level,
            chain,
            parts,
            outcomes,
        ) matches DecisionView::Terminal(outcome) ==> walk_levels(
            functions,
            types,
            region,
            outer.push(level),
            chain,
            parts,
            outcomes,
            None,
        ) == Ok::<DispatchView, Option<(Symbol, Option<Symbol>)>>(outcome),
{
    assert(outer.push(level).last() == level);
}

} // verus!
