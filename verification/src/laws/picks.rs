//! Laws of overload resolution for slots that evaluate their parts on demand: what is picked takes
//! every slot, nothing that takes them too is as specific, and every slot of the pick is sorted by
//! what is to be done with it.

use crate::ast::{key_of, ExpressionPart, Spanned, WorkingPart};
use crate::decide::resolve::Resolution;
use crate::decide::resolve_dispatch::{parked_flags, signatures_at, PickPass};
use crate::dispatch::bare_name::NameView;
use crate::dispatch::resolve_dispatch::{
    captures_eager, dispatch_of, eager_upto, has_lazy, level_decision, refs_upto, resolved_with,
    signature_admits, slot_admits, strict_pick, survivors_upto, takes_code, walk_levels,
    DecisionView, DispatchView, ResolvedView,
};
use crate::function::{
    is_most_specific, more_specific, wrap_slots, Argument, Functions, SignatureElement,
};
use crate::ktype::{KKind, KType, TypeRegistry};
use crate::laws::overloads::{
    callable, claims_are_entries, entries_are_overloads, is_key_claim, is_overload,
    overloads_are_entries, picks_take_bare_names_by_value, takes_by_value,
};
use crate::laws::staging::is_open;
use crate::region::RegionView;
use crate::scope::{cutoff_in, LexicalFrame, OverloadState, ScopeLevel};
use crate::symbol::Symbol;
use crate::value::{ExprId, FnId};
use vstd::prelude::*;

verus! {

/// The syntax of a slot, where it has one.
pub open spec fn is_group(part: WorkingPart) -> bool {
    part is Expression || part matches WorkingPart::Ast(ExpressionPart::Expression(_))
}

/// Whether some parameter of a signature takes a group of the call as code.
pub open spec fn reads_code(elements: Seq<SignatureElement>, parts: Seq<Spanned>) -> bool {
    exists|i: int|
        0 <= i < elements.len() && i < parts.len() && (
        #[trigger] elements[i] matches SignatureElement::Argument(arg) && arg.ktype
            == KType::KExpression) && is_group(parts[i].value)
}

proof fn code_is_read_alike(elements: Seq<SignatureElement>, parts: Seq<Spanned>)
    ensures
        has_lazy(elements, parts) == reads_code(elements, parts),
{
    if reads_code(elements, parts) {
        let i = choose|i: int|
            0 <= i < elements.len() && i < parts.len() && (
            #[trigger] elements[i] matches SignatureElement::Argument(arg) && arg.ktype
                == KType::KExpression) && is_group(parts[i].value);
        assert(takes_code(elements[i], parts[i].value));
    }
    if has_lazy(elements, parts) {
        let i = choose|i: int|
            0 <= i < elements.len() && i < parts.len() && #[trigger] takes_code(
                elements[i],
                parts[i].value,
            );
        assert(elements[i] is Argument);
    }
}

/// A slot of a keyword admits that keyword alone. A slot of a parameter admits a value exactly when
/// the type of the parameter takes it: one that was spliced in, or the one that a name means. A name
/// that is not bound yet is admitted by its shape; one that cannot be bound is not admitted by a
/// parameter that wants its value.
pub proof fn slots_admit_what_their_parameter_takes(
    types: &TypeRegistry,
    region: RegionView,
    symbol: Symbol,
    arg: Argument,
    part: WorkingPart,
    lazy: bool,
    outcome: Option<NameView>,
)
    ensures
        slot_admits(types, region, SignatureElement::Keyword(symbol), part, lazy, outcome) <==> part
            == WorkingPart::Ast(ExpressionPart::Keyword(symbol)),
        part matches WorkingPart::Spliced { cell, .. } ==> (slot_admits(
            types,
            region,
            SignatureElement::Argument(arg),
            part,
            lazy,
            outcome,
        ) <==> types.accepts(region, arg.ktype, cell)),
        part is StagedSlot ==> !slot_admits(
            types,
            region,
            SignatureElement::Argument(arg),
            part,
            lazy,
            outcome,
        ),
        part matches WorkingPart::Ast(ast) ==> ((ast is Identifier || ast is Type) && arg.ktype
            != KType::Identifier && arg.ktype != KType::OfKind(KKind::ProperType)
            ==> match outcome {
            Some(NameView::Resolved(carried)) => slot_admits(
                types,
                region,
                SignatureElement::Argument(arg),
                part,
                lazy,
                outcome,
            ) == types.accepts(region, arg.ktype, carried),
            Some(NameView::Cycle(_)) | Some(NameView::ProducerErrored(_)) => !slot_admits(
                types,
                region,
                SignatureElement::Argument(arg),
                part,
                lazy,
                outcome,
            ),
            _ => slot_admits(types, region, SignatureElement::Argument(arg), part, lazy, outcome)
                == types.takes_part(arg.ktype, ast),
        }),
        part matches WorkingPart::Ast(ast) ==> (arg.ktype == KType::Identifier || arg.ktype
            == KType::OfKind(KKind::ProperType) ==> (slot_admits(
            types,
            region,
            SignatureElement::Argument(arg),
            part,
            lazy,
            outcome,
        ) <==> ast is SigiledTypeExpr || ast is RecordType || types.takes_part(arg.ktype, ast))),
        part matches WorkingPart::Ast(ast) ==> (ast is SigiledTypeExpr && arg.ktype
            != KType::KExpression && arg.ktype != KType::RecordType ==> slot_admits(
            types,
            region,
            SignatureElement::Argument(arg),
            part,
            lazy,
            outcome,
        )),
        part matches WorkingPart::Ast(ast) ==> (ast is RecordType && arg.ktype != KType::KExpression
            && arg.ktype != KType::SigiledTypeExpr ==> slot_admits(
            types,
            region,
            SignatureElement::Argument(arg),
            part,
            lazy,
            outcome,
        )),
        is_group(part) && lazy && arg.ktype != KType::KExpression && arg.ktype
            != KType::SigiledTypeExpr && arg.ktype != KType::RecordType && arg.ktype
            != KType::Identifier && arg.ktype != KType::OfKind(KKind::ProperType) ==> slot_admits(
            types,
            region,
            SignatureElement::Argument(arg),
            part,
            lazy,
            outcome,
        ),
        part matches WorkingPart::Ast(ast) ==> (ast is Literal && arg.ktype != KType::Identifier
            && arg.ktype != KType::OfKind(KKind::ProperType) && outcome is None ==> slot_admits(
            types,
            region,
            SignatureElement::Argument(arg),
            part,
            lazy,
            outcome,
        ) == types.takes_part(arg.ktype, ast)),
{
}

/// Whether a signature has one element per slot of a call, and each element admits its own slot.
pub open spec fn takes_call(
    types: &TypeRegistry,
    region: RegionView,
    elements: Seq<SignatureElement>,
    parts: Seq<Spanned>,
    outcomes: Seq<Option<NameView>>,
) -> bool {
    &&& elements.len() == parts.len()
    &&& forall|i: int|
        0 <= i < parts.len() ==> slot_admits(
            types,
            region,
            elements[i],
            (#[trigger] parts[i]).value,
            reads_code(elements, parts),
            if i < outcomes.len() {
                outcomes[i]
            } else {
                None
            },
        )
}

/// Whether a parameter takes what stands in its slot as it stands: a group as code, or a name or
/// type expression that its type captures.
pub open spec fn takes_as_it_stands(
    types: &TypeRegistry,
    element: SignatureElement,
    part: WorkingPart,
) -> bool {
    element matches SignatureElement::Argument(arg) && match part {
        WorkingPart::Ast(ast) => arg.ktype == KType::KExpression && ast is Expression
            || types.capturing_member(arg.ktype, ast) is Some,
        WorkingPart::Expression(inner) => arg.ktype == KType::KExpression || types.capturing_member(
            arg.ktype,
            ExpressionPart::Expression(inner),
        ) is Some,
        WorkingPart::RecordType(inner) => types.capturing_member(
            arg.ktype,
            ExpressionPart::RecordType(inner),
        ) is Some,
        _ => false,
    }
}

/// Whether slot `i` of a call is open, and left open by its parameter.
pub open spec fn stays_open(
    types: &TypeRegistry,
    elements: Seq<SignatureElement>,
    parts: Seq<Spanned>,
    i: int,
) -> bool {
    is_open(parts[i].value) && !(i < elements.len() && takes_as_it_stands(
        types,
        elements[i],
        parts[i].value,
    ))
}

/// Whether the slots of a resolved call are sorted: names whose values are given to the callable,
/// names that it takes as they stand but for the one that is declared, and open slots that are to be
/// evaluated. All open slots are, unless the callable takes one of them as it stands.
pub open spec fn sorts_slots(
    functions: &Functions,
    types: &TypeRegistry,
    region: RegionView,
    expr: ExprId,
    resolved: ResolvedView,
) -> bool {
    let parts = region.parts(expr);
    let elements = functions.signature(resolved.function);
    let kept = exists|i: int|
        0 <= i < parts.len() && #[trigger] is_kept_open(types, elements, parts, i);
    &&& takes_by_value(
        types,
        elements,
        parts,
        Seq::<Option<Resolution>>::empty(),
        resolved.slots.wrap_indices,
    )
    &&& forall|i: int|
        0 <= i < parts.len() ==> (#[trigger] resolved.slots.ref_name_indices.contains(i as usize)
            <==> i < elements.len() && region.name_slot(expr) != Some(i as usize)
            && parts[i].value.bare_name() is Some && takes_as_it_stands(
            types,
            elements[i],
            parts[i].value,
        ))
    &&& !kept ==> resolved.slots.eager_indices is None
    &&& kept ==> resolved.slots.eager_indices is Some && forall|i: int|
        0 <= i < parts.len() ==> (#[trigger] resolved.slots.eager_indices->0.contains(i as usize)
            <==> stays_open(types, elements, parts, i))
    &&& resolved.placeholder == match region.meta(expr).plan {
        Some(plan) => region.plan_name(plan),
        None => None,
    }
}

/// Whether slot `i` of a call is open, and its parameter takes it as it stands.
pub open spec fn is_kept_open(
    types: &TypeRegistry,
    elements: Seq<SignatureElement>,
    parts: Seq<Spanned>,
    i: int,
) -> bool {
    i < elements.len() && is_open(parts[i].value) && takes_as_it_stands(
        types,
        elements[i],
        parts[i].value,
    )
}

proof fn opens_are_listed(
    types: &TypeRegistry,
    elements: Seq<SignatureElement>,
    parts: Seq<Spanned>,
    upto: nat,
)
    requires
        upto <= parts.len() <= usize::MAX,
    ensures
        forall|i: int|
            0 <= i < upto ==> (#[trigger] eager_upto(types, elements, parts, upto).contains(
                i as usize,
            ) <==> stays_open(types, elements, parts, i)),
        forall|k: int|
            0 <= k < eager_upto(types, elements, parts, upto).len() ==> (#[trigger] eager_upto(
                types,
                elements,
                parts,
                upto,
            )[k]) < upto,
    decreases upto,
{
    if upto > 0 {
        let at = (upto - 1) as int;
        opens_are_listed(types, elements, parts, at as nat);
        let earlier = eager_upto(types, elements, parts, at as nat);
        let all = eager_upto(types, elements, parts, upto);
        assert(captures_eager(types, elements, parts, at) == is_kept_open(
            types,
            elements,
            parts,
            at,
        ));
        listed_one_more(earlier, all, at, stays_open(types, elements, parts, at));
        assert forall|i: int| 0 <= i < upto implies (#[trigger] all.contains(i as usize)
            <==> stays_open(types, elements, parts, i)) by {
            if i < at {
                assert(earlier.contains(i as usize) <==> stays_open(types, elements, parts, i));
            }
        }
    }
}

proof fn refs_are_listed(
    types: &TypeRegistry,
    elements: Seq<SignatureElement>,
    parts: Seq<Spanned>,
    name_slot: Option<usize>,
    upto: nat,
)
    requires
        upto <= parts.len() <= usize::MAX,
    ensures
        forall|i: int|
            0 <= i < upto ==> (#[trigger] refs_upto(
                types,
                elements,
                parts,
                name_slot,
                upto,
            ).contains(i as usize) <==> i < elements.len() && name_slot != Some(i as usize)
                && parts[i].value.bare_name() is Some && takes_as_it_stands(
                types,
                elements[i],
                parts[i].value,
            )),
        forall|k: int|
            0 <= k < refs_upto(types, elements, parts, name_slot, upto).len() ==> (
            #[trigger] refs_upto(types, elements, parts, name_slot, upto)[k]) < upto,
    decreases upto,
{
    if upto > 0 {
        let at = (upto - 1) as int;
        refs_are_listed(types, elements, parts, name_slot, at as nat);
        let earlier = refs_upto(types, elements, parts, name_slot, at as nat);
        let all = refs_upto(types, elements, parts, name_slot, upto);
        let own = at < elements.len() && name_slot != Some(at as usize)
            && parts[at].value.bare_name() is Some && takes_as_it_stands(
            types,
            elements[at],
            parts[at].value,
        );
        listed_one_more(earlier, all, at, own);
        assert forall|i: int| 0 <= i < upto implies (#[trigger] all.contains(i as usize) <==> i
            < elements.len() && name_slot != Some(i as usize) && parts[i].value.bare_name() is Some
            && takes_as_it_stands(types, elements[i], parts[i].value)) by {
            if i < at {
                assert(earlier.contains(i as usize) <==> i < elements.len() && name_slot != Some(
                    i as usize,
                ) && parts[i].value.bare_name() is Some && takes_as_it_stands(
                    types,
                    elements[i],
                    parts[i].value,
                ));
            }
        }
    }
}

proof fn listed_one_more(earlier: Seq<usize>, all: Seq<usize>, at: int, own: bool)
    requires
        0 <= at < usize::MAX,
        forall|k: int| 0 <= k < earlier.len() ==> (#[trigger] earlier[k]) < at,
        all == if own {
            earlier.push(at as usize)
        } else {
            earlier
        },
    ensures
        all.contains(at as usize) <==> own,
        forall|i: int|
            0 <= i < at ==> (#[trigger] all.contains(i as usize) <==> earlier.contains(i as usize)),
        forall|k: int| 0 <= k < all.len() ==> (#[trigger] all[k]) <= at,
{
    if own {
        assert(all[earlier.len() as int] == at as usize);
    } else if all.contains(at as usize) {
        let k = choose|k: int| 0 <= k < all.len() && all[k] == at as usize;
        assert(earlier[k] < at);
    }
    assert forall|i: int| 0 <= i < at implies (#[trigger] all.contains(i as usize)
        <==> earlier.contains(i as usize)) by {
        if earlier.contains(i as usize) {
            let k = choose|k: int| 0 <= k < earlier.len() && earlier[k] == i as usize;
            assert(all[k] == i as usize);
        }
        if all.contains(i as usize) {
            let k = choose|k: int| 0 <= k < all.len() && all[k] == i as usize;
            assert(k < earlier.len());
            assert(earlier[k] == i as usize);
        }
    }
}

proof fn unparked_slots_agree(
    types: &TypeRegistry,
    elements: Seq<SignatureElement>,
    parts: Seq<Spanned>,
    upto: nat,
)
    requires
        upto <= parts.len(),
    ensures
        wrap_slots(types, elements, parts, Seq::empty(), upto) == wrap_slots(
            types,
            elements,
            parts,
            parked_flags(Seq::empty(), parts.len()),
            upto,
        ),
    decreases upto,
{
    if upto > 0 {
        unparked_slots_agree(types, elements, parts, (upto - 1) as nat);
    }
}

/// The slots of a picked call are sorted by what is to be done with them.
pub proof fn picked_slots_are_sorted(
    functions: &Functions,
    types: &TypeRegistry,
    region: RegionView,
    picked: FnId,
    expr: ExprId,
)
    requires
        region.parts(expr).len() <= usize::MAX,
    ensures
        sorts_slots(
            functions,
            types,
            region,
            expr,
            resolved_with(functions, types, region, picked, expr),
        ),
        resolved_with(functions, types, region, picked, expr).function == picked,
{
    let parts = region.parts(expr);
    let elements = functions.signature(picked);
    unparked_slots_agree(types, elements, parts, parts.len());
    picks_take_bare_names_by_value(types, elements, parts, Seq::empty());
    refs_are_listed(types, elements, parts, region.name_slot(expr), parts.len());
    opens_are_listed(types, elements, parts, parts.len());
    assert forall|i: int|
        0 <= i < parts.len() implies captures_eager(types, elements, parts, i)
        == #[trigger] is_kept_open(types, elements, parts, i) by {}
    if exists|i: int| #[trigger] captures_eager(types, elements, parts, i) {
        let i = choose|i: int| #[trigger] captures_eager(types, elements, parts, i);
        assert(is_kept_open(types, elements, parts, i));
    }
    if exists|i: int| 0 <= i < parts.len() && #[trigger] is_kept_open(types, elements, parts, i) {
        let i = choose|i: int|
            0 <= i < parts.len() && #[trigger] is_kept_open(types, elements, parts, i);
        assert(captures_eager(types, elements, parts, i));
    }
    let resolved = resolved_with(functions, types, region, picked, expr);
    assert(resolved.slots.wrap_indices == wrap_slots(
        types,
        elements,
        parts,
        parked_flags(Seq::empty(), parts.len()),
        parts.len(),
    ));
    assert(takes_by_value(
        types,
        elements,
        parts,
        Seq::<Option<Resolution>>::empty(),
        resolved.slots.wrap_indices,
    ));
    let refs = refs_upto(types, elements, parts, region.name_slot(expr), parts.len());
    assert(resolved.slots.ref_name_indices == refs);
    let kept = exists|i: int|
        0 <= i < parts.len() && #[trigger] is_kept_open(types, elements, parts, i);
    assert(!kept ==> resolved.slots.eager_indices is None);
    assert(kept ==> resolved.slots.eager_indices == Some(
        eager_upto(types, elements, parts, parts.len()),
    ));
    assert forall|i: int| 0 <= i < parts.len() && kept implies (
    #[trigger] resolved.slots.eager_indices->0.contains(i as usize) <==> stays_open(
        types,
        elements,
        parts,
        i,
    )) by {
        assert(eager_upto(types, elements, parts, parts.len()).contains(i as usize) <==> stays_open(
            types,
            elements,
            parts,
            i,
        ));
    }
    assert forall|i: int| 0 <= i < parts.len() implies (
    #[trigger] resolved.slots.ref_name_indices.contains(i as usize) <==> i < elements.len()
        && region.name_slot(expr) != Some(i as usize) && parts[i].value.bare_name() is Some
        && takes_as_it_stands(types, elements[i], parts[i].value)) by {
        assert(refs.contains(i as usize) == refs.contains(i as usize));
    }
}

proof fn survivors_take_the_call(
    functions: &Functions,
    types: &TypeRegistry,
    region: RegionView,
    candidates: Seq<FnId>,
    parts: Seq<Spanned>,
    outcomes: Seq<Option<NameView>>,
    upto: nat,
)
    requires
        upto <= candidates.len() <= usize::MAX,
    ensures
        ({
            let survivors = survivors_upto(
                functions,
                types,
                region,
                candidates,
                parts,
                outcomes,
                upto,
            );
            &&& forall|s: int|
                0 <= s < survivors.len() ==> (#[trigger] survivors[s]) < upto && takes_call(
                    types,
                    region,
                    functions.signature(candidates[survivors[s] as int]),
                    parts,
                    outcomes,
                )
            &&& forall|c: int|
                0 <= c < upto && takes_call(
                    types,
                    region,
                    functions.signature(#[trigger] candidates[c]),
                    parts,
                    outcomes,
                ) ==> exists|s: int|
                    0 <= s < survivors.len() && #[trigger] survivors[s] == c
            &&& forall|a: int, b: int|
                0 <= a < b < survivors.len() ==> #[trigger] survivors[a] < #[trigger] survivors[b]
        }),
    decreases upto,
{
    let survivors = survivors_upto(functions, types, region, candidates, parts, outcomes, upto);
    if upto > 0 {
        let at = (upto - 1) as int;
        survivors_take_the_call(
            functions,
            types,
            region,
            candidates,
            parts,
            outcomes,
            at as nat,
        );
        let earlier = survivors_upto(
            functions,
            types,
            region,
            candidates,
            parts,
            outcomes,
            at as nat,
        );
        let elements = functions.signature(candidates[at]);
        code_is_read_alike(elements, parts);
        assert(takes_call(types, region, elements, parts, outcomes) == signature_admits(
            types,
            region,
            elements,
            parts,
            outcomes,
        ));
        assert forall|c: int|
            0 <= c < upto && takes_call(
                types,
                region,
                functions.signature(#[trigger] candidates[c]),
                parts,
                outcomes,
            ) implies exists|s: int| 0 <= s < survivors.len() && #[trigger] survivors[s] == c by {
            if c < at {
                let s = choose|s: int| 0 <= s < earlier.len() && #[trigger] earlier[s] == c;
                assert(survivors[s] == c);
            } else {
                assert(survivors[earlier.len() as int] == c);
            }
        }
    }
}

/// Whether candidate `at` takes the call and is more specific than every other candidate that takes
/// it too.
pub open spec fn is_best(
    functions: &Functions,
    types: &TypeRegistry,
    region: RegionView,
    candidates: Seq<FnId>,
    parts: Seq<Spanned>,
    outcomes: Seq<Option<NameView>>,
    at: int,
) -> bool {
    &&& 0 <= at < candidates.len()
    &&& takes_call(types, region, functions.signature(candidates[at]), parts, outcomes)
    &&& forall|c: int|
        0 <= c < candidates.len() && c != at && takes_call(
            types,
            region,
            functions.signature(#[trigger] candidates[c]),
            parts,
            outcomes,
        ) ==> more_specific(
            types,
            functions.signature(candidates[at]),
            functions.signature(candidates[c]),
        )
}

/// Among the candidates that take a call, the one that is more specific than all the others is
/// picked. Where several take it and none of them is, that is a tie; where none takes it, none is
/// picked.
pub proof fn the_most_specific_taker_is_picked(
    functions: &Functions,
    types: &TypeRegistry,
    region: RegionView,
    candidates: Seq<FnId>,
    parts: Seq<Spanned>,
    outcomes: Seq<Option<NameView>>,
)
    requires
        candidates.len() <= usize::MAX,
    ensures
        match strict_pick(functions, types, region, candidates, parts, outcomes) {
            PickPass::Picked(at) => is_best(
                functions,
                types,
                region,
                candidates,
                parts,
                outcomes,
                at as int,
            ),
            PickPass::Tie(_) => (exists|c: int|
                0 <= c < candidates.len() && takes_call(
                    types,
                    region,
                    functions.signature(#[trigger] candidates[c]),
                    parts,
                    outcomes,
                )) && forall|at: int|
                !#[trigger] is_best(functions, types, region, candidates, parts, outcomes, at),
            PickPass::Empty => forall|c: int|
                0 <= c < candidates.len() ==> !takes_call(
                    types,
                    region,
                    functions.signature(#[trigger] candidates[c]),
                    parts,
                    outcomes,
                ),
        },
{
    survivors_take_the_call(
        functions,
        types,
        region,
        candidates,
        parts,
        outcomes,
        candidates.len(),
    );
    let survivors = survivors_upto(
        functions,
        types,
        region,
        candidates,
        parts,
        outcomes,
        candidates.len(),
    );
    let sigs = signatures_at(functions, candidates, survivors);
    if exists|best: int| is_most_specific(types, sigs, best) {
        let best = choose|best: int| is_most_specific(types, sigs, best);
        let at = survivors[best] as int;
        assert forall|c: int|
            0 <= c < candidates.len() && c != at && takes_call(
                types,
                region,
                functions.signature(#[trigger] candidates[c]),
                parts,
                outcomes,
            ) implies more_specific(
            types,
            functions.signature(candidates[at]),
            functions.signature(candidates[c]),
        ) by {
            let s = choose|s: int| 0 <= s < survivors.len() && #[trigger] survivors[s] == c;
            assert(sigs[s] == functions.signature(candidates[c]));
        }
    } else {
        assert forall|at: int|
            !#[trigger] is_best(functions, types, region, candidates, parts, outcomes, at) by {
            if is_best(functions, types, region, candidates, parts, outcomes, at) {
                let best = choose|s: int| 0 <= s < survivors.len() && #[trigger] survivors[s] == at;
                assert forall|j: int| 0 <= j < sigs.len() && j != best implies more_specific(
                    types,
                    sigs[best],
                    #[trigger] sigs[j],
                ) by {
                    let c = survivors[j] as int;
                    assert(c != at) by {
                        if j < best {
                            assert(survivors[j] < survivors[best]);
                        } else {
                            assert(survivors[best] < survivors[j]);
                        }
                    }
                    assert(candidates[c] == candidates[survivors[j] as int]);
                }
                assert(is_most_specific(types, sigs, best));
            }
        }
        if survivors.len() > 0 {
            let c = survivors[0] as int;
            assert(takes_call(
                types,
                region,
                functions.signature(candidates[c]),
                parts,
                outcomes,
            ));
        }
    }
}

/// Whether a level leaves a call open: nothing under its key is about to be bound there, and nothing
/// bound there takes it.
pub open spec fn leaves_open(
    functions: &Functions,
    types: &TypeRegistry,
    region: RegionView,
    level: ScopeLevel,
    chain: Option<&LexicalFrame>,
    parts: Seq<Spanned>,
    outcomes: Seq<Option<NameView>>,
) -> bool {
    forall|e: int|
        {
            &&& !#[trigger] is_key_claim(level, key_of(parts), chain, e)
            &&& is_overload(level, key_of(parts), chain, e) ==> !takes_call(
                types,
                region,
                functions.signature(callable(level, e)),
                parts,
                outcomes,
            )
        }
}

/// Whether a level picks `function` for a call: no claim on the key is open there, and it is the most
/// specific of the overloads there that take the call.
pub open spec fn picks_at(
    functions: &Functions,
    types: &TypeRegistry,
    region: RegionView,
    level: ScopeLevel,
    chain: Option<&LexicalFrame>,
    parts: Seq<Spanned>,
    outcomes: Seq<Option<NameView>>,
    function: FnId,
) -> bool {
    &&& forall|e: int| !#[trigger] is_key_claim(level, key_of(parts), chain, e)
    &&& exists|e: int|
        #[trigger] is_overload(level, key_of(parts), chain, e) && callable(level, e) == function
    &&& takes_call(types, region, functions.signature(function), parts, outcomes)
    &&& forall|e: int| #[trigger]
        is_overload(level, key_of(parts), chain, e) && callable(level, e) != function && takes_call(
            types,
            region,
            functions.signature(callable(level, e)),
            parts,
            outcomes,
        ) ==> more_specific(
            types,
            functions.signature(function),
            functions.signature(callable(level, e)),
        )
}

proof fn level_picks(
    functions: &Functions,
    types: &TypeRegistry,
    region: RegionView,
    level: ScopeLevel,
    chain: Option<&LexicalFrame>,
    expr: ExprId,
    outcomes: Seq<Option<NameView>>,
)
    requires
        region.parts(expr).len() <= usize::MAX,
        ScopeLevel::overloads_at(
            level.overloads@,
            key_of(region.parts(expr)),
            cutoff_in(chain, level.id),
        ).len() <= usize::MAX,
    ensures
        match level_decision(functions, types, region, level, chain, expr, outcomes) {
            DecisionView::Terminal(DispatchView::Resolved(resolved)) => picks_at(
                functions,
                types,
                region,
                level,
                chain,
                region.parts(expr),
                outcomes,
                resolved.function,
            ) && sorts_slots(functions, types, region, expr, resolved),
            DecisionView::Terminal(_) => true,
            _ => leaves_open(
                functions,
                types,
                region,
                level,
                chain,
                region.parts(expr),
                outcomes,
            ),
        },
{
    let parts = region.parts(expr);
    let key = key_of(parts);
    let cutoff = cutoff_in(chain, level.id);
    let candidates = ScopeLevel::overloads_at(level.overloads@, key, cutoff);
    claims_are_entries(level, key, chain);
    the_most_specific_taker_is_picked(functions, types, region, candidates, parts, outcomes);
    assert forall|e: int| #[trigger] is_overload(level, key, chain, e) implies exists|c: int|
        0 <= c < candidates.len() && #[trigger] candidates[c] == callable(level, e) by {
        entries_are_overloads(level.overloads@, key, cutoff, e);
    }
    match strict_pick(functions, types, region, candidates, parts, outcomes) {
        PickPass::Picked(at) => {
            overloads_are_entries(level.overloads@, key, cutoff, at as int);
            let e = choose|e: int|
                0 <= e < level.overloads@.len() && (#[trigger] level.overloads@[e]).key@ == key
                    && level.overloads@[e].state == OverloadState::Bound(candidates[at as int]) && (
                cutoff matches Some(own) ==> level.overloads@[e].index < own);
            assert(is_overload(level, key, chain, e));
            let function = candidates[at as int];
            picked_slots_are_sorted(functions, types, region, function, expr);
            assert forall|e: int| #[trigger]
                is_overload(level, key, chain, e) && callable(level, e) != function && takes_call(
                    types,
                    region,
                    functions.signature(callable(level, e)),
                    parts,
                    outcomes,
                ) implies more_specific(
                types,
                functions.signature(function),
                functions.signature(callable(level, e)),
            ) by {
                let c = choose|c: int|
                    0 <= c < candidates.len() && #[trigger] candidates[c] == callable(level, e);
                assert(c != at);
            }
        },
        PickPass::Tie(_) => {},
        PickPass::Empty => {
            if level.claimed_key_at(key, cutoff) is None {
                assert forall|e: int|
                    !#[trigger] is_key_claim(level, key, chain, e) && (is_overload(
                        level,
                        key,
                        chain,
                        e,
                    ) ==> !takes_call(
                        types,
                        region,
                        functions.signature(callable(level, e)),
                        parts,
                        outcomes,
                    )) by {
                    if is_overload(level, key, chain, e) {
                        let c = choose|c: int|
                            0 <= c < candidates.len() && #[trigger] candidates[c] == callable(
                                level,
                                e,
                            );
                    }
                }
            }
        },
    }
}

/// Whether level `k` picks `function`, and every level inside it leaves the call open.
pub open spec fn nearest_pick(
    functions: &Functions,
    types: &TypeRegistry,
    region: RegionView,
    levels: Seq<ScopeLevel>,
    chain: Option<&LexicalFrame>,
    parts: Seq<Spanned>,
    outcomes: Seq<Option<NameView>>,
    function: FnId,
    k: int,
) -> bool {
    &&& 0 <= k < levels.len()
    &&& picks_at(functions, types, region, levels[k], chain, parts, outcomes, function)
    &&& forall|j: int|
        k < j < levels.len() ==> leaves_open(
            functions,
            types,
            region,
            #[trigger] levels[j],
            chain,
            parts,
            outcomes,
        )
}

proof fn walk_picks_the_nearest(
    functions: &Functions,
    types: &TypeRegistry,
    region: RegionView,
    levels: Seq<ScopeLevel>,
    chain: Option<&LexicalFrame>,
    expr: ExprId,
    outcomes: Seq<Option<NameView>>,
    dead: Option<Symbol>,
)
    requires
        region.parts(expr).len() <= usize::MAX,
        forall|k: int|
            0 <= k < levels.len() ==> ScopeLevel::overloads_at(
                (#[trigger] levels[k]).overloads@,
                key_of(region.parts(expr)),
                cutoff_in(chain, levels[k].id),
            ).len() <= usize::MAX,
    ensures
        match walk_levels(functions, types, region, levels, chain, expr, outcomes, dead) {
            DispatchView::Resolved(resolved) => sorts_slots(
                functions,
                types,
                region,
                expr,
                resolved,
            ) && exists|k: int| #[trigger]
                nearest_pick(
                    functions,
                    types,
                    region,
                    levels,
                    chain,
                    region.parts(expr),
                    outcomes,
                    resolved.function,
                    k,
                ),
            DispatchView::Unmatched | DispatchView::UnboundName(_) => forall|j: int|
                0 <= j < levels.len() ==> leaves_open(
                    functions,
                    types,
                    region,
                    #[trigger] levels[j],
                    chain,
                    region.parts(expr),
                    outcomes,
                ),
            _ => true,
        },
    decreases levels.len(),
{
    let parts = region.parts(expr);
    if levels.len() > 0 {
        let last = levels.len() - 1;
        assert(levels[last] == levels.last());
        level_picks(functions, types, region, levels.last(), chain, expr, outcomes);
        decided_is_no_miss(functions, types, region, levels.last(), chain, expr, outcomes);
        let rest = levels.drop_last();
        assert forall|k: int| 0 <= k < rest.len() implies ScopeLevel::overloads_at(
            (#[trigger] rest[k]).overloads@,
            key_of(parts),
            cutoff_in(chain, rest[k].id),
        ).len() <= usize::MAX by {
            assert(rest[k] == levels[k]);
        }
        match level_decision(functions, types, region, levels.last(), chain, expr, outcomes) {
            DecisionView::Terminal(DispatchView::Resolved(resolved)) => {
                let function = resolved.function;
                assert(nearest_pick(
                    functions,
                    types,
                    region,
                    levels,
                    chain,
                    parts,
                    outcomes,
                    function,
                    last,
                ));
            },
            DecisionView::Terminal(_) => {},
            decision => {
                let next = match decision {
                    DecisionView::DeadLean(name) => if dead is None {
                        Some(name)
                    } else {
                        dead
                    },
                    _ => dead,
                };
                walk_picks_the_nearest(
                    functions,
                    types,
                    region,
                    rest,
                    chain,
                    expr,
                    outcomes,
                    next,
                );
                match walk_levels(functions, types, region, rest, chain, expr, outcomes, next) {
                    DispatchView::Resolved(resolved) => {
                        let function = resolved.function;
                        let k = choose|k: int| #[trigger]
                            nearest_pick(
                                functions,
                                types,
                                region,
                                rest,
                                chain,
                                parts,
                                outcomes,
                                function,
                                k,
                            );
                        assert(levels[k] == rest[k]);
                        assert forall|j: int| k < j < levels.len() implies leaves_open(
                            functions,
                            types,
                            region,
                            #[trigger] levels[j],
                            chain,
                            parts,
                            outcomes,
                        ) by {
                            if j < last {
                                assert(levels[j] == rest[j]);
                            }
                        }
                        assert(nearest_pick(
                            functions,
                            types,
                            region,
                            levels,
                            chain,
                            parts,
                            outcomes,
                            function,
                            k,
                        ));
                    },
                    DispatchView::Unmatched | DispatchView::UnboundName(_) => {
                        assert forall|j: int| 0 <= j < levels.len() implies leaves_open(
                            functions,
                            types,
                            region,
                            #[trigger] levels[j],
                            chain,
                            parts,
                            outcomes,
                        ) by {
                            if j < last {
                                assert(levels[j] == rest[j]);
                            }
                        }
                    },
                    _ => {},
                }
            },
        }
    }
}

proof fn decided_is_no_miss(
    functions: &Functions,
    types: &TypeRegistry,
    region: RegionView,
    level: ScopeLevel,
    chain: Option<&LexicalFrame>,
    expr: ExprId,
    outcomes: Seq<Option<NameView>>,
)
    ensures
        level_decision(functions, types, region, level, chain, expr, outcomes)
            matches DecisionView::Terminal(outcome) ==> !(outcome is Unmatched) && !(
        outcome is UnboundName),
{
}

/// A call resolves to a callable that takes all its slots: the most specific of those bound under
/// its key at the nearest level that does not leave it open. The outermost level decides first where
/// a builtin is registered under the key. A call stays unmatched only where every level leaves it
/// open.
pub proof fn slots_resolve_to_the_nearest_taker(
    functions: &Functions,
    types: &TypeRegistry,
    region: RegionView,
    levels: Seq<ScopeLevel>,
    chain: Option<&LexicalFrame>,
    expr: ExprId,
    outcomes: Seq<Option<NameView>>,
)
    requires
        region.parts(expr).len() <= usize::MAX,
        forall|k: int|
            0 <= k < levels.len() ==> ScopeLevel::overloads_at(
                (#[trigger] levels[k]).overloads@,
                key_of(region.parts(expr)),
                cutoff_in(chain, levels[k].id),
            ).len() <= usize::MAX,
    ensures
        ({
            let parts = region.parts(expr);
            match dispatch_of(functions, types, region, levels, chain, expr, outcomes) {
                DispatchView::Resolved(resolved) => sorts_slots(
                    functions,
                    types,
                    region,
                    expr,
                    resolved,
                ) && (levels[0].has_builtin(key_of(parts)) && picks_at(
                    functions,
                    types,
                    region,
                    levels[0],
                    chain,
                    parts,
                    outcomes,
                    resolved.function,
                ) || exists|k: int| #[trigger]
                    nearest_pick(
                        functions,
                        types,
                        region,
                        levels,
                        chain,
                        parts,
                        outcomes,
                        resolved.function,
                        k,
                    )),
                DispatchView::Unmatched | DispatchView::UnboundName(..) => forall|j: int|
                    0 <= j < levels.len() ==> leaves_open(
                        functions,
                        types,
                        region,
                        #[trigger] levels[j],
                        chain,
                        parts,
                        outcomes,
                    ),
                _ => true,
            }
        }),
{
    walk_picks_the_nearest(functions, types, region, levels, chain, expr, outcomes, None);
    if levels.len() > 0 {
        assert(levels[0] == levels[0]);
        level_picks(functions, types, region, levels[0], chain, expr, outcomes);
        decided_is_no_miss(functions, types, region, levels[0], chain, expr, outcomes);
    }
}

} // verus!
