//! Overload resolution over parts that may not be evaluated yet.
//!
//! Scopes are decided innermost first. Within a scope an overload that is still being declared is
//! waited for; otherwise the most specific one that admits every slot is picked; and where none
//! admits, a slot may lean on what has not arrived: a binder that has not landed, or a part that
//! has not been evaluated.

use super::bare_name::{option_view, outcome_views, NameOutcome, NameView};
use crate::ast::{dispatch_key, key_of, ExpressionPart, KeyElement, Spanned, WorkingPart};
use crate::decide::resolve_dispatch::{counted, signatures_at, with_all_new, EntryCounter, PickPass};
use crate::decide::staging::{is_eager_slot, is_eager_working_part};
use crate::function::{
    classify_for_pick, is_most_specific, most_specific, most_specific_is_unique, wrap_slots,
    Functions, SignatureElement,
};
use crate::ktype::{KKind, KType, TypeRegistry};
use crate::region::{BindKind, Region, RegionView};
use crate::scope::{binding_cutoff, cutoff_in, FunctionLookup, LexicalFrame, Scope, ScopeLevel};
use crate::symbol::Symbol;
use crate::value::{push_new, with_new, ExprId, FnId, ProducerId};
use vstd::prelude::*;

verus! {

/// What a pick does with each slot of an expression. No slot is in two of the lists.
pub struct ClassifiedSlots {
    /// The slots whose parts are evaluated; every part that can be, where there is no list.
    pub eager_indices: Option<Vec<usize>>,
    /// The slots that take the value of a bare name.
    pub wrap_indices: Vec<usize>,
    /// The slots that take a bare name as a reference.
    pub ref_name_indices: Vec<usize>,
}

/// The content of a [`ClassifiedSlots`].
#[verifier::ext_equal]
pub struct SlotsView {
    pub eager_indices: Option<Seq<usize>>,
    pub wrap_indices: Seq<usize>,
    pub ref_name_indices: Seq<usize>,
}

impl View for ClassifiedSlots {
    type V = SlotsView;

    open spec fn view(&self) -> SlotsView {
        SlotsView {
            eager_indices: match self.eager_indices {
                Some(indices) => Some(indices@),
                None => None,
            },
            wrap_indices: self.wrap_indices@,
            ref_name_indices: self.ref_name_indices@,
        }
    }
}

/// A picked callable, with what it does with each slot and what the expression declares.
pub struct Resolved {
    pub function: FnId,
    /// The name that the expression declares, with the channel it binds in.
    pub placeholder: Option<(Symbol, BindKind)>,
    /// The key of the overload that the expression registers.
    pub pending_overload_bucket: Option<Vec<KeyElement>>,
    pub slots: ClassifiedSlots,
}

/// The content of a [`Resolved`].
pub struct ResolvedView {
    pub function: FnId,
    pub placeholder: Option<(Symbol, BindKind)>,
    pub pending_overload_bucket: Option<Seq<KeyElement>>,
    pub slots: SlotsView,
}

impl View for Resolved {
    type V = ResolvedView;

    open spec fn view(&self) -> ResolvedView {
        ResolvedView {
            function: self.function,
            placeholder: self.placeholder,
            pending_overload_bucket: match self.pending_overload_bucket {
                Some(key) => Some(key@),
                None => None,
            },
            slots: self.slots@,
        }
    }
}

/// What overload resolution came to.
pub enum DispatchOutcome {
    Resolved(Resolved),
    /// This many overloads admit the expression and none is the most specific.
    Ambiguous(usize),
    /// Evaluate the parts first, then resolve again.
    Deferred,
    /// Wait for these binders and resolve again.
    ParkOnProducers(Vec<ProducerId>),
    /// A bare name is bound to nothing.
    UnboundName(Symbol),
    Unmatched,
}

/// The content of a [`DispatchOutcome`].
pub enum DispatchView {
    Resolved(ResolvedView),
    Ambiguous(usize),
    Deferred,
    ParkOnProducers(Seq<ProducerId>),
    UnboundName(Symbol),
    Unmatched,
}

impl View for DispatchOutcome {
    type V = DispatchView;

    open spec fn view(&self) -> DispatchView {
        match *self {
            DispatchOutcome::Resolved(resolved) => DispatchView::Resolved(resolved@),
            DispatchOutcome::Ambiguous(n) => DispatchView::Ambiguous(n),
            DispatchOutcome::Deferred => DispatchView::Deferred,
            DispatchOutcome::ParkOnProducers(sources) => DispatchView::ParkOnProducers(sources@),
            DispatchOutcome::UnboundName(name) => DispatchView::UnboundName(name),
            DispatchOutcome::Unmatched => DispatchView::Unmatched,
        }
    }
}

/// What one scope contributes. A dead lean does not end the walk: an outer scope may still take
/// the unbound name as a token.
pub enum ScopeDecision {
    Terminal(DispatchOutcome),
    DeadLean(Symbol),
    Continue,
}

/// The content of a [`ScopeDecision`].
pub enum DecisionView {
    Terminal(DispatchView),
    DeadLean(Symbol),
    Continue,
}

impl View for ScopeDecision {
    type V = DecisionView;

    open spec fn view(&self) -> DecisionView {
        match *self {
            ScopeDecision::Terminal(outcome) => DecisionView::Terminal(outcome@),
            ScopeDecision::DeadLean(name) => DecisionView::DeadLean(name),
            ScopeDecision::Continue => DecisionView::Continue,
        }
    }
}

/// What a candidate would still need at a slot that it does not admit yet.
#[derive(Clone, Copy, PartialEq, Eq, Structural, Debug)]
pub enum Lean {
    /// A binder has to land.
    Parked(ProducerId),
    /// The part has to be evaluated.
    Eager,
    /// The name is unbound and never will be bound.
    Dead(Symbol),
}

/// The syntax that a slot still holds.
pub open spec fn syntax_of(part: WorkingPart) -> Option<ExpressionPart> {
    match part {
        WorkingPart::Ast(ast) => Some(ast),
        WorkingPart::Expression(inner) => Some(ExpressionPart::Expression(inner)),
        WorkingPart::RecordType(inner) => Some(ExpressionPart::RecordType(inner)),
        _ => None,
    }
}

/// The syntax that a slot still holds.
pub fn slot_syntax(part: WorkingPart) -> (r: Option<ExpressionPart>)
    ensures
        r == syntax_of(part),
{
    match part {
        WorkingPart::Ast(ast) => Some(ast),
        WorkingPart::Expression(inner) => Some(ExpressionPart::Expression(inner)),
        WorkingPart::RecordType(inner) => Some(ExpressionPart::RecordType(inner)),
        _ => None,
    }
}

/// Whether a parameter takes a group as code, unevaluated.
pub open spec fn takes_code(element: SignatureElement, part: WorkingPart) -> bool {
    element matches SignatureElement::Argument(arg) && arg.ktype == KType::KExpression && (syntax_of(
        part,
    ) matches Some(ExpressionPart::Expression(_)))
}

/// Whether any parameter takes a group as code: then the other groups of the expression are
/// admitted unseen and evaluated behind the pick.
pub open spec fn has_lazy(elements: Seq<SignatureElement>, parts: Seq<Spanned>) -> bool {
    exists|i: int|
        0 <= i < elements.len() && i < parts.len() && #[trigger] takes_code(
            elements[i],
            parts[i].value,
        )
}

/// Whether any parameter takes a group as code.
pub fn has_lazy_kexpr_slot(elements: &Vec<SignatureElement>, parts: &Vec<Spanned>) -> (r: bool)
    ensures
        r == has_lazy(elements@, parts@),
{
    let mut i: usize = 0;
    while i < elements.len() && i < parts.len()
        invariant
            i <= elements.len(),
            i <= parts.len(),
            forall|k: int| 0 <= k < i ==> !#[trigger] takes_code(elements@[k], parts@[k].value),
        decreases elements.len() - i,
    {
        if let SignatureElement::Argument(arg) = elements[i] {
            if matches!(arg.ktype, KType::KExpression) {
                if let Some(ExpressionPart::Expression(_)) = slot_syntax(parts[i].value) {
                    assert(takes_code(elements@[i as int], parts@[i as int].value));
                    return true;
                }
            }
        }
        i = i + 1;
    }
    false
}

/// Whether a parameter admits the syntax in a slot, or the value of the name there.
pub open spec fn argument_admits(
    types: &TypeRegistry,
    region: RegionView,
    kt: KType,
    part: ExpressionPart,
    lazy: bool,
    outcome: Option<NameView>,
) -> bool {
    if kt == KType::Identifier || kt == KType::OfKind(KKind::ProperType) {
        part is SigiledTypeExpr || part is RecordType || types.takes_part(kt, part)
    } else if part is SigiledTypeExpr && kt != KType::KExpression && kt != KType::RecordType {
        true
    } else if part is RecordType && kt != KType::KExpression && kt != KType::SigiledTypeExpr {
        true
    } else if lazy && part is Expression && kt != KType::KExpression && kt
        != KType::SigiledTypeExpr && kt != KType::RecordType {
        true
    } else {
        match outcome {
            Some(NameView::Resolved(carried)) => types.accepts(region, kt, carried),
            Some(NameView::Parked(_)) => types.takes_part(kt, part),
            Some(NameView::Unbound(_)) => types.takes_part(kt, part),
            Some(NameView::Cycle(_)) => false,
            Some(NameView::ProducerErrored(_)) => false,
            None => types.takes_part(kt, part),
        }
    }
}

/// Whether a signature element admits a slot.
pub open spec fn slot_admits(
    types: &TypeRegistry,
    region: RegionView,
    element: SignatureElement,
    part: WorkingPart,
    lazy: bool,
    outcome: Option<NameView>,
) -> bool {
    match element {
        SignatureElement::Keyword(symbol) => part.keyword() == Some(symbol),
        SignatureElement::Argument(arg) => match part {
            WorkingPart::Spliced { cell, .. } => types.accepts(region, arg.ktype, cell),
            _ => match syntax_of(part) {
                Some(ast) => argument_admits(types, region, arg.ktype, ast, lazy, outcome),
                None => false,
            },
        },
    }
}

/// The outcome of the name at slot `i`.
pub open spec fn outcome_at(outcomes: Seq<Option<NameView>>, i: int) -> Option<NameView> {
    if 0 <= i < outcomes.len() {
        outcomes[i]
    } else {
        None
    }
}

/// Whether a signature element admits a slot.
pub fn slot_admits_strict(
    types: &TypeRegistry,
    region: &Region,
    element: SignatureElement,
    part: WorkingPart,
    i: usize,
    lazy: bool,
    outcomes: &Vec<Option<NameOutcome>>,
) -> (r: bool)
    ensures
        r == slot_admits(
            types,
            region@,
            element,
            part,
            lazy,
            outcome_at(outcome_views(outcomes@), i as int),
        ),
{
    match element {
        SignatureElement::Keyword(symbol) => match part.as_keyword() {
            Some(own) => own == symbol,
            None => false,
        },
        SignatureElement::Argument(arg) => {
            if let WorkingPart::Spliced { cell, .. } = part {
                return types.accepts_carried(region, arg.ktype, cell);
            }
            let ast = match slot_syntax(part) {
                Some(ast) => ast,
                None => {
                    return false;
                },
            };
            let kt = arg.ktype;
            // A declaration slot owns the name it holds, and type syntax evaluates to a type.
            if matches!(kt, KType::Identifier | KType::OfKind(KKind::ProperType)) {
                return matches!(
                    ast,
                    ExpressionPart::SigiledTypeExpr(_) | ExpressionPart::RecordType(_)
                ) || types.matches_part(kt, ast);
            }
            // The two slots that capture type syntax each take their own kind of it only.
            if matches!(ast, ExpressionPart::SigiledTypeExpr(_)) && !matches!(
                kt,
                KType::KExpression | KType::RecordType
            ) {
                return true;
            }
            if matches!(ast, ExpressionPart::RecordType(_)) && !matches!(
                kt,
                KType::KExpression | KType::SigiledTypeExpr
            ) {
                return true;
            }
            if lazy && matches!(ast, ExpressionPart::Expression(_)) && !matches!(
                kt,
                KType::KExpression | KType::SigiledTypeExpr | KType::RecordType
            ) {
                return true;
            }
            if i < outcomes.len() {
                assert(outcome_views(outcomes@)[i as int] == option_view(outcomes@[i as int]));
                match &outcomes[i] {
                    Some(NameOutcome::Resolved(carried)) => types.accepts_carried(
                        region,
                        kt,
                        *carried,
                    ),
                    Some(NameOutcome::Parked(_)) | Some(NameOutcome::Unbound(_)) =>
                        types.matches_part(kt, ast),
                    Some(NameOutcome::Cycle(_)) | Some(NameOutcome::ProducerErrored(_)) => false,
                    None => types.matches_part(kt, ast),
                }
            } else {
                types.matches_part(kt, ast)
            }
        },
    }
}

/// Whether a signature admits every slot of an expression.
pub open spec fn signature_admits(
    types: &TypeRegistry,
    region: RegionView,
    elements: Seq<SignatureElement>,
    parts: Seq<Spanned>,
    outcomes: Seq<Option<NameView>>,
) -> bool {
    elements.len() == parts.len() && forall|i: int|
        0 <= i < parts.len() ==> slot_admits(
            types,
            region,
            elements[i],
            (#[trigger] parts[i]).value,
            has_lazy(elements, parts),
            outcome_at(outcomes, i),
        )
}

/// Whether a signature admits every slot of an expression.
pub fn signature_admits_strict(
    types: &TypeRegistry,
    region: &Region,
    elements: &Vec<SignatureElement>,
    parts: &Vec<Spanned>,
    outcomes: &Vec<Option<NameOutcome>>,
) -> (r: bool)
    ensures
        r == signature_admits(types, region@, elements@, parts@, outcome_views(outcomes@)),
{
    if elements.len() != parts.len() {
        return false;
    }
    let lazy = has_lazy_kexpr_slot(elements, parts);
    let mut i: usize = 0;
    while i < parts.len()
        invariant
            i <= parts.len(),
            elements.len() == parts.len(),
            lazy == has_lazy(elements@, parts@),
            forall|k: int|
                0 <= k < i ==> slot_admits(
                    types,
                    region@,
                    elements@[k],
                    (#[trigger] parts@[k]).value,
                    lazy,
                    outcome_at(outcome_views(outcomes@), k),
                ),
        decreases parts.len() - i,
    {
        if !slot_admits_strict(types, region, elements[i], parts[i].value, i, lazy, outcomes) {
            assert(!slot_admits(
                types,
                region@,
                elements@[i as int],
                parts@[i as int].value,
                lazy,
                outcome_at(outcome_views(outcomes@), i as int),
            ));
            return false;
        }
        i = i + 1;
    }
    true
}

/// What a slot that is not admitted would still need; nothing when it can never fit.
pub open spec fn lean_of(
    element: SignatureElement,
    part: WorkingPart,
    outcome: Option<NameView>,
) -> Option<Lean> {
    if is_eager_slot(part) && element is Argument {
        Some(Lean::Eager)
    } else {
        match outcome {
            Some(NameView::Parked(source)) => Some(Lean::Parked(source)),
            Some(NameView::Unbound(name)) => Some(Lean::Dead(name)),
            _ => None,
        }
    }
}

/// What the first `upto` slots would still need; nothing when one of them can never fit.
pub open spec fn leans_upto(
    types: &TypeRegistry,
    region: RegionView,
    elements: Seq<SignatureElement>,
    parts: Seq<Spanned>,
    outcomes: Seq<Option<NameView>>,
    upto: nat,
) -> Option<Seq<Lean>>
    decreases upto,
{
    if upto == 0 {
        Some(Seq::empty())
    } else {
        let at = (upto - 1) as int;
        match leans_upto(types, region, elements, parts, outcomes, at as nat) {
            Some(earlier) => if slot_admits(
                types,
                region,
                elements[at],
                parts[at].value,
                has_lazy(elements, parts),
                outcome_at(outcomes, at),
            ) {
                Some(earlier)
            } else {
                match lean_of(elements[at], parts[at].value, outcome_at(outcomes, at)) {
                    Some(lean) => Some(earlier.push(lean)),
                    None => None,
                }
            },
            None => None,
        }
    }
}

/// What a candidate would still need; nothing when it can never fit.
pub open spec fn leans_of(
    types: &TypeRegistry,
    region: RegionView,
    elements: Seq<SignatureElement>,
    parts: Seq<Spanned>,
    outcomes: Seq<Option<NameView>>,
) -> Option<Seq<Lean>> {
    if elements.len() != parts.len() {
        None
    } else {
        leans_upto(types, region, elements, parts, outcomes, parts.len())
    }
}

proof fn no_leans_from_a_hard_reject(
    types: &TypeRegistry,
    region: RegionView,
    elements: Seq<SignatureElement>,
    parts: Seq<Spanned>,
    outcomes: Seq<Option<NameView>>,
    at: nat,
    upto: nat,
)
    requires
        at <= upto,
        leans_upto(types, region, elements, parts, outcomes, at) is None,
    ensures
        leans_upto(types, region, elements, parts, outcomes, upto) is None,
    decreases upto,
{
    if at < upto {
        no_leans_from_a_hard_reject(
            types,
            region,
            elements,
            parts,
            outcomes,
            at,
            (upto - 1) as nat,
        );
    }
}

/// What a candidate would still need; nothing when it can never fit.
pub fn relaxed_admits(
    types: &TypeRegistry,
    region: &Region,
    elements: &Vec<SignatureElement>,
    parts: &Vec<Spanned>,
    outcomes: &Vec<Option<NameOutcome>>,
) -> (r: Option<Vec<Lean>>)
    ensures
        match r {
            Some(leans) => leans_of(
                types,
                region@,
                elements@,
                parts@,
                outcome_views(outcomes@),
            ) == Some(leans@),
            None => leans_of(
                types,
                region@,
                elements@,
                parts@,
                outcome_views(outcomes@),
            ) is None,
        },
{
    if elements.len() != parts.len() {
        return None;
    }
    let lazy = has_lazy_kexpr_slot(elements, parts);
    let mut leans: Vec<Lean> = Vec::new();
    let mut i: usize = 0;
    let ghost all = outcome_views(outcomes@);
    while i < parts.len()
        invariant
            i <= parts.len(),
            elements.len() == parts.len(),
            all == outcome_views(outcomes@),
            lazy == has_lazy(elements@, parts@),
            leans_upto(types, region@, elements@, parts@, all, i as nat) == Some(leans@),
        decreases parts.len() - i,
    {
        if !slot_admits_strict(types, region, elements[i], parts[i].value, i, lazy, outcomes) {
            let own = if is_eager_working_part(parts[i].value) && matches!(
                elements[i],
                SignatureElement::Argument(_)
            ) {
                Some(Lean::Eager)
            } else if i < outcomes.len() {
                assert(all[i as int] == option_view(outcomes@[i as int]));
                match &outcomes[i] {
                    Some(NameOutcome::Parked(source)) => Some(Lean::Parked(*source)),
                    Some(NameOutcome::Unbound(name)) => Some(Lean::Dead(*name)),
                    _ => None,
                }
            } else {
                None
            };
            assert(own == lean_of(
                elements@[i as int],
                parts@[i as int].value,
                outcome_at(all, i as int),
            ));
            match own {
                Some(lean) => {
                    leans.push(lean);
                },
                None => {
                    proof {
                        no_leans_from_a_hard_reject(
                            types,
                            region@,
                            elements@,
                            parts@,
                            all,
                            (i + 1) as nat,
                            parts@.len(),
                        );
                    }
                    return None;
                },
            }
        }
        i = i + 1;
    }
    Some(leans)
}

/// What the relaxed pass over a run of candidates has found.
pub struct RelaxedView {
    pub parked: Seq<ProducerId>,
    pub eager: bool,
    pub dead: Option<Symbol>,
}

/// What a run of leans adds to what is known.
pub open spec fn with_leans(known: RelaxedView, leans: Seq<Lean>) -> RelaxedView
    decreases leans.len(),
{
    if leans.len() == 0 {
        known
    } else {
        let earlier = with_leans(known, leans.drop_last());
        match leans.last() {
            Lean::Parked(source) => RelaxedView {
                parked: with_new(earlier.parked, source),
                ..earlier
            },
            Lean::Eager => RelaxedView { eager: true, ..earlier },
            Lean::Dead(name) => if earlier.dead is None {
                RelaxedView { dead: Some(name), ..earlier }
            } else {
                earlier
            },
        }
    }
}

/// The relaxed pass over the first `upto` candidates.
pub open spec fn relaxed_upto(
    functions: &Functions,
    types: &TypeRegistry,
    region: RegionView,
    candidates: Seq<FnId>,
    parts: Seq<Spanned>,
    outcomes: Seq<Option<NameView>>,
    upto: nat,
) -> RelaxedView
    decreases upto,
{
    if upto == 0 {
        RelaxedView { parked: Seq::empty(), eager: false, dead: None }
    } else {
        let at = (upto - 1) as int;
        let earlier = relaxed_upto(
            functions,
            types,
            region,
            candidates,
            parts,
            outcomes,
            at as nat,
        );
        match leans_of(types, region, functions.signature(candidates[at]), parts, outcomes) {
            Some(leans) => with_leans(earlier, leans),
            None => earlier,
        }
    }
}

/// What the relaxed pass over all candidates finds.
pub open spec fn relaxed_all(
    functions: &Functions,
    types: &TypeRegistry,
    region: RegionView,
    candidates: Seq<FnId>,
    parts: Seq<Spanned>,
    outcomes: Seq<Option<NameView>>,
) -> RelaxedView {
    relaxed_upto(functions, types, region, candidates, parts, outcomes, candidates.len())
}

/// What the relaxed pass over a scope's overloads has found.
struct Relaxed {
    parked: Vec<ProducerId>,
    eager: bool,
    dead: Option<Symbol>,
}

impl Relaxed {
    spec fn known(&self) -> RelaxedView {
        RelaxedView { parked: self.parked@, eager: self.eager, dead: self.dead }
    }

    /// Adds what a run of leans shows.
    fn add_leans(&mut self, leans: &Vec<Lean>)
        ensures
            final(self).known() == with_leans(old(self).known(), leans@),
    {
        let ghost before = self.known();
        let mut i: usize = 0;
        proof {
            assert(leans@.take(0) =~= Seq::<Lean>::empty());
        }
        while i < leans.len()
            invariant
                i <= leans.len(),
                self.known() == with_leans(before, leans@.take(i as int)),
            decreases leans.len() - i,
        {
            proof {
                assert(leans@.take(i as int + 1).drop_last() =~= leans@.take(i as int));
            }
            match leans[i] {
                Lean::Parked(source) => {
                    push_new(&mut self.parked, source);
                },
                Lean::Eager => {
                    self.eager = true;
                },
                Lean::Dead(name) => {
                    if self.dead.is_none() {
                        self.dead = Some(name);
                    }
                },
            }
            i = i + 1;
        }
        assert(leans@.take(i as int) =~= leans@);
    }
}

/// The places of the candidates among the first `upto` that admit every slot.
pub open spec fn survivors_upto(
    functions: &Functions,
    types: &TypeRegistry,
    region: RegionView,
    candidates: Seq<FnId>,
    parts: Seq<Spanned>,
    outcomes: Seq<Option<NameView>>,
    upto: nat,
) -> Seq<usize>
    decreases upto,
{
    if upto == 0 {
        Seq::empty()
    } else {
        let at = (upto - 1) as int;
        let earlier = survivors_upto(
            functions,
            types,
            region,
            candidates,
            parts,
            outcomes,
            at as nat,
        );
        if signature_admits(types, region, functions.signature(candidates[at]), parts, outcomes) {
            earlier.push(at as usize)
        } else {
            earlier
        }
    }
}

/// What the strict pass over all candidates picks.
pub open spec fn strict_pick(
    functions: &Functions,
    types: &TypeRegistry,
    region: RegionView,
    candidates: Seq<FnId>,
    parts: Seq<Spanned>,
    outcomes: Seq<Option<NameView>>,
) -> PickPass {
    let survivors = survivors_upto(
        functions,
        types,
        region,
        candidates,
        parts,
        outcomes,
        candidates.len(),
    );
    let sigs = signatures_at(functions, candidates, survivors);
    if exists|best: int| is_most_specific(types, sigs, best) {
        PickPass::Picked(survivors[choose|best: int| is_most_specific(types, sigs, best)])
    } else if survivors.len() > 0 {
        PickPass::Tie(survivors.len() as usize)
    } else {
        PickPass::Empty
    }
}

/// One scope's overloads under the key of the expression.
pub struct OverloadBucket<'a> {
    pub candidates: &'a Vec<FnId>,
}

impl<'a> OverloadBucket<'a> {
    /// The most specific of the candidates that admit every slot.
    pub fn pick_strict(
        &self,
        functions: &Functions,
        types: &TypeRegistry,
        region: &Region,
        parts: &Vec<Spanned>,
        outcomes: &Vec<Option<NameOutcome>>,
    ) -> (r: PickPass)
        ensures
            r == strict_pick(
                functions,
                types,
                region@,
                self.candidates@,
                parts@,
                outcome_views(outcomes@),
            ),
            r matches PickPass::Picked(at) ==> at < self.candidates@.len(),
    {
        let mut survivors: Vec<usize> = Vec::new();
        let mut sigs: Vec<Vec<SignatureElement>> = Vec::new();
        let mut i: usize = 0;
        while i < self.candidates.len()
            invariant
                i <= self.candidates.len(),
                survivors@ == survivors_upto(
                    functions,
                    types,
                    region@,
                    self.candidates@,
                    parts@,
                    outcome_views(outcomes@),
                    i as nat,
                ),
                forall|k: int| 0 <= k < survivors@.len() ==> survivors@[k] < i,
                sigs@.len() == survivors@.len(),
                forall|k: int|
                    0 <= k < sigs@.len() ==> (#[trigger] sigs@[k])@ == functions.signature(
                        self.candidates@[survivors@[k] as int],
                    ),
            decreases self.candidates.len() - i,
        {
            let sig = functions.signature_of(self.candidates[i]);
            if signature_admits_strict(types, region, &sig, parts, outcomes) {
                survivors.push(i);
                sigs.push(sig);
            }
            i = i + 1;
        }
        let ghost all = signatures_at(functions, self.candidates@, survivors@);
        proof {
            assert(crate::function::signatures(sigs@) =~= all);
        }
        match most_specific(types, &sigs) {
            Some(best) => {
                proof {
                    assert(is_most_specific(types, all, best as int));
                    let chosen = choose|b: int| is_most_specific(types, all, b);
                    most_specific_is_unique(types, all, best as int, chosen);
                }
                PickPass::Picked(survivors[best])
            },
            None => {
                if survivors.len() > 0 {
                    PickPass::Tie(survivors.len())
                } else {
                    PickPass::Empty
                }
            },
        }
    }

    /// The relaxed pass over all candidates.
    fn relaxed_pass(
        &self,
        functions: &Functions,
        types: &TypeRegistry,
        region: &Region,
        parts: &Vec<Spanned>,
        outcomes: &Vec<Option<NameOutcome>>,
    ) -> (r: Relaxed)
        ensures
            r.known() == relaxed_all(
                functions,
                types,
                region@,
                self.candidates@,
                parts@,
                outcome_views(outcomes@),
            ),
    {
        let mut found = Relaxed { parked: Vec::new(), eager: false, dead: None };
        let mut i: usize = 0;
        proof {
            assert(found.parked@ =~= Seq::<ProducerId>::empty());
        }
        while i < self.candidates.len()
            invariant
                i <= self.candidates.len(),
                found.known() == relaxed_upto(
                    functions,
                    types,
                    region@,
                    self.candidates@,
                    parts@,
                    outcome_views(outcomes@),
                    i as nat,
                ),
            decreases self.candidates.len() - i,
        {
            let sig = functions.signature_of(self.candidates[i]);
            if let Some(leans) = relaxed_admits(types, region, &sig, parts, outcomes) {
                found.add_leans(&leans);
            }
            i = i + 1;
        }
        found
    }

    /// The producers that any candidate leans on, each once.
    pub fn relaxed_parked_producers(
        &self,
        functions: &Functions,
        types: &TypeRegistry,
        region: &Region,
        parts: &Vec<Spanned>,
        outcomes: &Vec<Option<NameOutcome>>,
    ) -> (r: Vec<ProducerId>)
        ensures
            r@ == relaxed_all(
                functions,
                types,
                region@,
                self.candidates@,
                parts@,
                outcome_views(outcomes@),
            ).parked,
    {
        let found = self.relaxed_pass(functions, types, region, parts, outcomes);
        found.parked
    }
}

/// What a scope contributes when none of its overloads admits the expression yet: a binder that has
/// to land is waited for before a part is evaluated, and an unbound name only labels the miss.
pub open spec fn relaxed_decision(found: RelaxedView) -> DecisionView {
    if found.parked.len() > 0 {
        DecisionView::Terminal(DispatchView::ParkOnProducers(found.parked))
    } else if found.eager {
        DecisionView::Terminal(DispatchView::Deferred)
    } else {
        match found.dead {
            Some(name) => DecisionView::DeadLean(name),
            None => DecisionView::Continue,
        }
    }
}

/// What a scope contributes when none of its overloads admits the expression yet.
pub fn decide_relaxed(
    bucket: &OverloadBucket,
    functions: &Functions,
    types: &TypeRegistry,
    region: &Region,
    parts: &Vec<Spanned>,
    outcomes: &Vec<Option<NameOutcome>>,
) -> (r: ScopeDecision)
    ensures
        r@ == relaxed_decision(
            relaxed_all(
                functions,
                types,
                region@,
                bucket.candidates@,
                parts@,
                outcome_views(outcomes@),
            ),
        ),
{
    let found = bucket.relaxed_pass(functions, types, region, parts, outcomes);
    if found.parked.len() > 0 {
        return ScopeDecision::Terminal(DispatchOutcome::ParkOnProducers(found.parked));
    }
    if found.eager {
        return ScopeDecision::Terminal(DispatchOutcome::Deferred);
    }
    match found.dead {
        Some(name) => ScopeDecision::DeadLean(name),
        None => ScopeDecision::Continue,
    }
}

/// Whether any part of an expression can be evaluated before it.
pub open spec fn has_eager(parts: Seq<Spanned>) -> bool {
    exists|i: int| 0 <= i < parts.len() && is_eager_slot((#[trigger] parts[i]).value)
}

/// Whether any part of an expression can be evaluated before it.
pub fn expr_has_eager_part(parts: &Vec<Spanned>) -> (r: bool)
    ensures
        r == has_eager(parts@),
{
    let mut i: usize = 0;
    while i < parts.len()
        invariant
            i <= parts.len(),
            forall|k: int| 0 <= k < i ==> !is_eager_slot((#[trigger] parts@[k]).value),
        decreases parts.len() - i,
    {
        if is_eager_working_part(parts[i].value) {
            assert(is_eager_slot(parts@[i as int].value));
            return true;
        }
        i = i + 1;
    }
    false
}

/// Whether a parameter captures the part in a slot as it stands.
pub open spec fn captures(types: &TypeRegistry, element: SignatureElement, part: WorkingPart) -> bool {
    match (element, syntax_of(part)) {
        (SignatureElement::Argument(arg), Some(ast)) => takes_code(element, part)
            || types.capturing_member(arg.ktype, ast) is Some,
        _ => false,
    }
}

/// Whether a parameter captures the part in a slot as it stands.
fn slot_captures(types: &TypeRegistry, element: SignatureElement, part: WorkingPart) -> (r: bool)
    ensures
        r == captures(types, element, part),
{
    match (element, slot_syntax(part)) {
        (SignatureElement::Argument(arg), Some(ast)) => (matches!(
            arg.ktype,
            KType::KExpression
        ) && matches!(ast, ExpressionPart::Expression(_))) || types.raw_capture_member(
            arg.ktype,
            ast,
        ).is_some(),
        _ => false,
    }
}

/// Whether an eager part of slot `i` is captured, so that only some of the parts are evaluated.
pub open spec fn captures_eager(
    types: &TypeRegistry,
    elements: Seq<SignatureElement>,
    parts: Seq<Spanned>,
    i: int,
) -> bool {
    0 <= i < elements.len() && i < parts.len() && is_eager_slot(parts[i].value) && captures(
        types,
        elements[i],
        parts[i].value,
    )
}

/// The slots among the first `upto` whose parts a pick evaluates.
pub open spec fn eager_upto(
    types: &TypeRegistry,
    elements: Seq<SignatureElement>,
    parts: Seq<Spanned>,
    upto: nat,
) -> Seq<usize>
    decreases upto,
{
    if upto == 0 {
        Seq::empty()
    } else {
        let at = (upto - 1) as int;
        let earlier = eager_upto(types, elements, parts, at as nat);
        if is_eager_slot(parts[at].value) && !captures_eager(types, elements, parts, at) {
            earlier.push(at as usize)
        } else {
            earlier
        }
    }
}

/// Whether a slot takes a bare name as a reference: the parameter captures it as a token, and it
/// is not the name that the expression declares.
pub open spec fn refers(
    types: &TypeRegistry,
    elements: Seq<SignatureElement>,
    parts: Seq<Spanned>,
    name_slot: Option<usize>,
    i: int,
) -> bool {
    0 <= i < elements.len() && i < parts.len() && name_slot != Some(i as usize)
        && parts[i].value.bare_name() is Some && captures(types, elements[i], parts[i].value)
}

/// The slots among the first `upto` that take a bare name as a reference.
pub open spec fn refs_upto(
    types: &TypeRegistry,
    elements: Seq<SignatureElement>,
    parts: Seq<Spanned>,
    name_slot: Option<usize>,
    upto: nat,
) -> Seq<usize>
    decreases upto,
{
    if upto == 0 {
        Seq::empty()
    } else {
        let at = (upto - 1) as int;
        let earlier = refs_upto(types, elements, parts, name_slot, at as nat);
        if refers(types, elements, parts, name_slot, at) {
            earlier.push(at as usize)
        } else {
            earlier
        }
    }
}

/// What a pick does with each slot.
pub open spec fn classified(
    types: &TypeRegistry,
    elements: Seq<SignatureElement>,
    parts: Seq<Spanned>,
    name_slot: Option<usize>,
) -> SlotsView {
    SlotsView {
        eager_indices: if exists|i: int| #[trigger] captures_eager(types, elements, parts, i) {
            Some(eager_upto(types, elements, parts, parts.len()))
        } else {
            None
        },
        wrap_indices: wrap_slots(types, elements, parts, Seq::empty(), parts.len()),
        ref_name_indices: refs_upto(types, elements, parts, name_slot, parts.len()),
    }
}

/// Sorts the slots of an expression by what a pick does with them.
pub fn classify_slots(
    types: &TypeRegistry,
    elements: &Vec<SignatureElement>,
    parts: &Vec<Spanned>,
    name_slot: Option<usize>,
) -> (r: ClassifiedSlots)
    ensures
        r@ == classified(types, elements@, parts@, name_slot),
{
    let mut eager: Vec<usize> = Vec::new();
    let mut refs: Vec<usize> = Vec::new();
    let mut partial = false;
    let mut i: usize = 0;
    while i < parts.len()
        invariant
            i <= parts.len(),
            eager@ == eager_upto(types, elements@, parts@, i as nat),
            refs@ == refs_upto(types, elements@, parts@, name_slot, i as nat),
            partial == exists|k: int|
                k < i && #[trigger] captures_eager(types, elements@, parts@, k),
        decreases parts.len() - i,
    {
        let captured = i < elements.len() && slot_captures(types, elements[i], parts[i].value);
        let is_eager = is_eager_working_part(parts[i].value);
        assert(captures_eager(types, elements@, parts@, i as int) == (is_eager && captured));
        if is_eager && captured {
            partial = true;
        } else if is_eager {
            eager.push(i);
        }
        let declared = match name_slot {
            Some(slot) => slot == i,
            None => false,
        };
        let named = matches!(
            parts[i].value,
            WorkingPart::Ast(ExpressionPart::Identifier(_) | ExpressionPart::Type(_))
        );
        if named && captured && !declared {
            refs.push(i);
        }
        i = i + 1;
    }
    let none: Vec<bool> = Vec::new();
    let wrap_indices = classify_for_pick(types, elements, parts, &none);
    let eager_indices = if partial {
        Some(eager)
    } else {
        None
    };
    proof {
        assert(none@ =~= Seq::<bool>::empty());
        assert(forall|k: int|
            #[trigger] captures_eager(types, elements@, parts@, k) ==> k < parts@.len());
    }
    ClassifiedSlots { eager_indices, wrap_indices, ref_name_indices: refs }
}

impl RegionView {
    /// The name that an expression declares.
    pub open spec fn declared_name(self, expr: ExprId) -> Option<(Symbol, BindKind)> {
        match self.meta(expr).plan {
            Some(plan) => self.plan_name(plan),
            None => None,
        }
    }

    /// The key of the first overload that an expression registers.
    pub open spec fn declared_bucket(self, expr: ExprId) -> Option<Seq<KeyElement>> {
        match self.meta(expr).plan {
            Some(plan) => if self.plan_buckets(plan).len() > 0 {
                Some(self.plan_buckets(plan)[0])
            } else {
                None
            },
            None => None,
        }
    }
}

/// A pick, with what it does with each slot and what the expression declares.
pub open spec fn resolved_with(
    functions: &Functions,
    types: &TypeRegistry,
    region: RegionView,
    picked: FnId,
    expr: ExprId,
) -> ResolvedView {
    ResolvedView {
        function: picked,
        placeholder: region.declared_name(expr),
        pending_overload_bucket: region.declared_bucket(expr),
        slots: classified(
            types,
            functions.signature(picked),
            region.parts(expr),
            region.name_slot(expr),
        ),
    }
}

/// Copies a key.
fn copy_key(key: &Vec<KeyElement>) -> (r: Vec<KeyElement>)
    ensures
        r@ == key@,
{
    let mut r: Vec<KeyElement> = Vec::new();
    let mut i: usize = 0;
    while i < key.len()
        invariant
            i <= key.len(),
            r@ == key@.take(i as int),
        decreases key.len() - i,
    {
        r.push(key[i]);
        assert(key@.take(i as int + 1) =~= key@.take(i as int).push(key@[i as int]));
        i = i + 1;
    }
    assert(key@.take(i as int) =~= key@);
    r
}

/// A pick, with what it does with each slot and what the expression declares.
pub fn build_resolved(
    functions: &Functions,
    types: &TypeRegistry,
    region: &Region,
    picked: FnId,
    expr: ExprId,
) -> (r: Resolved)
    ensures
        r@ == resolved_with(functions, types, region@, picked, expr),
{
    let parts = region.parts_of(expr);
    let slots = classify_slots(
        types,
        &functions.signature_of(picked),
        &parts,
        region.binder_name_slot(expr),
    );
    let mut placeholder: Option<(Symbol, BindKind)> = None;
    let mut pending_overload_bucket: Option<Vec<KeyElement>> = None;
    if let Some(plan) = region.meta_of(expr).plan {
        if plan.at < region.plans.len() {
            placeholder = region.plans[plan.at].name;
            if region.plans[plan.at].buckets.len() > 0 {
                pending_overload_bucket = Some(copy_key(&region.plans[plan.at].buckets[0]));
            }
        }
    }
    Resolved { function: picked, placeholder, pending_overload_bucket, slots }
}

/// What a scope contributes. A tie among parts that are not evaluated may still break: a value
/// shows more than the syntax it comes from.
pub open spec fn scope_decision(
    functions: &Functions,
    types: &TypeRegistry,
    region: RegionView,
    candidates: Seq<FnId>,
    pending: Option<ProducerId>,
    expr: ExprId,
    outcomes: Seq<Option<NameView>>,
) -> DecisionView {
    let parts = region.parts(expr);
    let found = relaxed_all(functions, types, region, candidates, parts, outcomes);
    match pending {
        Some(source) => DecisionView::Terminal(
            DispatchView::ParkOnProducers(with_all_new(seq![source], found.parked)),
        ),
        None => match strict_pick(functions, types, region, candidates, parts, outcomes) {
            PickPass::Picked(at) => DecisionView::Terminal(
                DispatchView::Resolved(
                    resolved_with(functions, types, region, candidates[at as int], expr),
                ),
            ),
            PickPass::Tie(n) => DecisionView::Terminal(
                if has_eager(parts) {
                    DispatchView::Deferred
                } else {
                    DispatchView::Ambiguous(n)
                },
            ),
            PickPass::Empty => relaxed_decision(found),
        },
    }
}

/// What a scope contributes.
pub fn decide_scope(
    lookup: &FunctionLookup,
    functions: &Functions,
    types: &TypeRegistry,
    region: &Region,
    expr: ExprId,
    parts: &Vec<Spanned>,
    outcomes: &Vec<Option<NameOutcome>>,
) -> (r: ScopeDecision)
    requires
        parts@ == region@.parts(expr),
    ensures
        r@ == scope_decision(
            functions,
            types,
            region@,
            lookup.overloads@,
            lookup.pending,
            expr,
            outcome_views(outcomes@),
        ),
{
    let bucket = OverloadBucket { candidates: &lookup.overloads };
    if let Some(pending) = lookup.pending {
        // An overload that is still being declared would shadow whatever is picked now.
        let mut producers: Vec<ProducerId> = Vec::new();
        producers.push(pending);
        let more = bucket.relaxed_parked_producers(functions, types, region, parts, outcomes);
        let mut i: usize = 0;
        proof {
            assert(producers@ =~= seq![pending]);
            assert(more@.take(0) =~= Seq::<ProducerId>::empty());
        }
        while i < more.len()
            invariant
                i <= more.len(),
                producers@ == with_all_new(seq![pending], more@.take(i as int)),
            decreases more.len() - i,
        {
            proof {
                assert(more@.take(i as int + 1).drop_last() =~= more@.take(i as int));
            }
            push_new(&mut producers, more[i]);
            i = i + 1;
        }
        assert(more@.take(i as int) =~= more@);
        return ScopeDecision::Terminal(DispatchOutcome::ParkOnProducers(producers));
    }
    match bucket.pick_strict(functions, types, region, parts, outcomes) {
        PickPass::Picked(at) => ScopeDecision::Terminal(
            DispatchOutcome::Resolved(
                build_resolved(functions, types, region, lookup.overloads[at], expr),
            ),
        ),
        PickPass::Tie(n) => {
            if expr_has_eager_part(parts) {
                ScopeDecision::Terminal(DispatchOutcome::Deferred)
            } else {
                ScopeDecision::Terminal(DispatchOutcome::Ambiguous(n))
            }
        },
        PickPass::Empty => decide_relaxed(&bucket, functions, types, region, parts, outcomes),
    }
}

/// What one level of a scope contributes.
pub open spec fn level_decision(
    functions: &Functions,
    types: &TypeRegistry,
    region: RegionView,
    level: ScopeLevel,
    chain: Option<&LexicalFrame>,
    expr: ExprId,
    outcomes: Seq<Option<NameView>>,
) -> DecisionView {
    let key = key_of(region.parts(expr));
    let cutoff = cutoff_in(chain, level.id);
    scope_decision(
        functions,
        types,
        region,
        ScopeLevel::overloads_at(level.overloads@, key, cutoff),
        level.claimed_key_at(key, cutoff),
        expr,
        outcomes,
    )
}

/// What the walk over `levels`, innermost first, comes to; `dead` is the first dead name that
/// inner levels met.
pub open spec fn walk_levels(
    functions: &Functions,
    types: &TypeRegistry,
    region: RegionView,
    levels: Seq<ScopeLevel>,
    chain: Option<&LexicalFrame>,
    expr: ExprId,
    outcomes: Seq<Option<NameView>>,
    dead: Option<Symbol>,
) -> DispatchView
    decreases levels.len(),
{
    if levels.len() == 0 {
        match dead {
            Some(name) => DispatchView::UnboundName(name),
            None => DispatchView::Unmatched,
        }
    } else {
        match level_decision(functions, types, region, levels.last(), chain, expr, outcomes) {
            DecisionView::Terminal(outcome) => outcome,
            DecisionView::DeadLean(name) => walk_levels(
                functions,
                types,
                region,
                levels.drop_last(),
                chain,
                expr,
                outcomes,
                if dead is None {
                    Some(name)
                } else {
                    dead
                },
            ),
            DecisionView::Continue => walk_levels(
                functions,
                types,
                region,
                levels.drop_last(),
                chain,
                expr,
                outcomes,
                dead,
            ),
        }
    }
}

/// What overload resolution comes to. The builtins of the root cannot be shadowed, so a decision
/// that they reach stands.
pub open spec fn dispatch_of(
    functions: &Functions,
    types: &TypeRegistry,
    region: RegionView,
    levels: Seq<ScopeLevel>,
    chain: Option<&LexicalFrame>,
    expr: ExprId,
    outcomes: Seq<Option<NameView>>,
) -> DispatchView {
    let walked = walk_levels(functions, types, region, levels, chain, expr, outcomes, None);
    if levels.len() > 0 && levels[0].has_builtin(key_of(region.parts(expr))) {
        match level_decision(functions, types, region, levels[0], chain, expr, outcomes) {
            DecisionView::Terminal(outcome) => outcome,
            _ => walked,
        }
    } else {
        walked
    }
}

impl Scope {
    /// Resolves an expression against the overloads in self.
    pub fn resolve_dispatch(
        &self,
        functions: &Functions,
        types: &TypeRegistry,
        region: &Region,
        expr: ExprId,
        chain: Option<&LexicalFrame>,
        outcomes: &Vec<Option<NameOutcome>>,
        counter: &mut EntryCounter,
    ) -> (r: DispatchOutcome)
        ensures
            r@ == dispatch_of(
                functions,
                types,
                region@,
                self.levels@,
                chain,
                expr,
                outcome_views(outcomes@),
            ),
            final(counter).entries == counted(old(counter).entries),
    {
        if counter.entries < usize::MAX {
            counter.entries = counter.entries + 1;
        }
        let parts = region.parts_of(expr);
        let key = dispatch_key(&parts);
        if self.levels.len() > 0 && self.levels[0].has_builtin_function(&key) {
            let root = &self.levels[0];
            let lookup = root.lookup_function(&key, binding_cutoff(chain, root.id));
            if let ScopeDecision::Terminal(outcome) = decide_scope(
                &lookup,
                functions,
                types,
                region,
                expr,
                &parts,
                outcomes,
            ) {
                return outcome;
            }
        }
        let mut dead: Option<Symbol> = None;
        let mut at: usize = self.levels.len();
        let ghost all = dispatch_of(
            functions,
            types,
            region@,
            self.levels@,
            chain,
            expr,
            outcome_views(outcomes@),
        );
        proof {
            assert(self.levels@.take(at as int) =~= self.levels@);
        }
        while at > 0
            invariant
                at <= self.levels.len(),
                parts@ == region@.parts(expr),
                key@ == key_of(parts@),
                all == walk_levels(
                    functions,
                    types,
                    region@,
                    self.levels@.take(at as int),
                    chain,
                    expr,
                    outcome_views(outcomes@),
                    dead,
                ),
                all == dispatch_of(
                    functions,
                    types,
                    region@,
                    self.levels@,
                    chain,
                    expr,
                    outcome_views(outcomes@),
                ),
                counter.entries == counted(old(counter).entries),
            decreases at,
        {
            at = at - 1;
            proof {
                assert(self.levels@.take(at as int + 1).drop_last() =~= self.levels@.take(
                    at as int,
                ));
            }
            let level = &self.levels[at];
            let lookup = level.lookup_function(&key, binding_cutoff(chain, level.id));
            match decide_scope(&lookup, functions, types, region, expr, &parts, outcomes) {
                ScopeDecision::Terminal(outcome) => {
                    return outcome;
                },
                ScopeDecision::DeadLean(name) => {
                    if dead.is_none() {
                        dead = Some(name);
                    }
                },
                ScopeDecision::Continue => {},
            }
        }
        match dead {
            Some(name) => DispatchOutcome::UnboundName(name),
            None => DispatchOutcome::Unmatched,
        }
    }
}

proof fn slots_come_from_their_kind(
    types: &TypeRegistry,
    elements: Seq<SignatureElement>,
    parts: Seq<Spanned>,
    name_slot: Option<usize>,
    upto: nat,
    slot: usize,
)
    requires
        upto <= parts.len() <= usize::MAX,
    ensures
        eager_upto(types, elements, parts, upto).contains(slot) ==> slot < upto && is_eager_slot(
            parts[slot as int].value,
        ),
        refs_upto(types, elements, parts, name_slot, upto).contains(slot) ==> slot < upto && refers(
            types,
            elements,
            parts,
            name_slot,
            slot as int,
        ),
        wrap_slots(types, elements, parts, Seq::empty(), upto).contains(slot) ==> slot < upto
            && slot < elements.len() && crate::function::wraps(
            types,
            elements[slot as int],
            parts[slot as int].value,
            false,
        ),
    decreases upto,
{
    if upto > 0 {
        let at = (upto - 1) as nat;
        slots_come_from_their_kind(types, elements, parts, name_slot, at, slot);
        let eager = eager_upto(types, elements, parts, at);
        let refs = refs_upto(types, elements, parts, name_slot, at);
        let wraps = wrap_slots(types, elements, parts, Seq::empty(), at);
        if slot != at as usize {
            if eager_upto(types, elements, parts, upto).contains(slot) {
                let all = eager_upto(types, elements, parts, upto);
                let k = choose|k: int| 0 <= k < all.len() && all[k] == slot;
                assert(eager[k] == slot);
            }
            if refs_upto(types, elements, parts, name_slot, upto).contains(slot) {
                let all = refs_upto(types, elements, parts, name_slot, upto);
                let k = choose|k: int| 0 <= k < all.len() && all[k] == slot;
                assert(refs[k] == slot);
            }
            if wrap_slots(types, elements, parts, Seq::empty(), upto).contains(slot) {
                let all = wrap_slots(types, elements, parts, Seq::empty(), upto);
                let k = choose|k: int| 0 <= k < all.len() && all[k] == slot;
                assert(wraps[k] == slot);
            }
        }
    }
}

/// No slot is in two of a pick's lists: what is evaluated, what is replaced by a name's value and
/// what is taken as a reference are different slots.
pub proof fn classified_slots_are_disjoint(
    types: &TypeRegistry,
    elements: Seq<SignatureElement>,
    parts: Seq<Spanned>,
    name_slot: Option<usize>,
    slot: usize,
)
    requires
        parts.len() <= usize::MAX,
    ensures
        ({
            let slots = classified(types, elements, parts, name_slot);
            let eager = slots.eager_indices matches Some(own) && own.contains(slot);
            &&& !(eager && slots.wrap_indices.contains(slot))
            &&& !(eager && slots.ref_name_indices.contains(slot))
            &&& !(slots.wrap_indices.contains(slot) && slots.ref_name_indices.contains(slot))
        }),
{
    slots_come_from_their_kind(types, elements, parts, name_slot, parts.len(), slot);
}

/// A binder that has to land is waited for before any part is evaluated, and before the miss is
/// laid to an unbound name.
pub proof fn landing_comes_before_evaluation(found: RelaxedView)
    ensures
        found.parked.len() > 0 ==> relaxed_decision(found) == DecisionView::Terminal(
            DispatchView::ParkOnProducers(found.parked),
        ),
        found.parked.len() == 0 && found.eager ==> relaxed_decision(found)
            == DecisionView::Terminal(DispatchView::Deferred),
        found.parked.len() == 0 && !found.eager ==> !(relaxed_decision(found) is Terminal),
{
}

} // verus!
