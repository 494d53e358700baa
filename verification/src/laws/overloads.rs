//! Laws of overload resolution: what is picked takes every slot of the call, nothing that takes them
//! too is as specific, and nothing nearer decides otherwise.

use crate::ast::{key_of, ExpressionPart, KeyElement, Spanned, WorkingPart};
use crate::decide::resolve::Resolution;
use crate::decide::resolve_dispatch::{
    dispatch_of, level_decision, parked_flags, signature_admits, signatures_at, slot_admits,
    strict_pick, survivors_upto, walk_levels, DecisionView, DispatchView, PickPass,
};
use crate::function::{
    is_most_specific, more_specific, wrap_slots, Argument, Functions, SignatureElement,
};
use crate::ktype::{KKind, KType, TypeRegistry};
use crate::laws::scopes::found_is_first;
use crate::region::RegionView;
use crate::scope::{cutoff_in, first_match, LexicalFrame, OverloadEntry, OverloadState, ScopeLevel};
use crate::symbol::Symbol;
use crate::value::{ExprId, FnId};
use vstd::prelude::*;

verus! {

/// Whether a part is a name on its own.
pub open spec fn is_bare(part: WorkingPart) -> bool {
    part matches WorkingPart::Ast(ExpressionPart::Identifier(_)) || part matches WorkingPart::Ast(
        ExpressionPart::Type(_),
    )
}

/// Whether a parameter of this type takes a part as it stands, as a token or as code.
pub open spec fn takes_raw(types: &TypeRegistry, kt: KType, part: ExpressionPart) -> bool {
    ||| types.capturing_member(kt, part) is Some
    ||| kt == KType::Identifier
    ||| kt == KType::NameToken
    ||| kt == KType::TypeNameToken
    ||| types.has_member(kt, KType::OfKind(KKind::ProperType)) && (part is Type
        || part is SigiledTypeExpr || part is RecordType)
}

/// A slot of a keyword admits that keyword alone. A slot of a parameter admits a value exactly when
/// the type of the parameter takes it: one that was spliced in, or the one that a name means, unless
/// the parameter takes the name as it stands. A name that nothing is bound to yet is admitted by no
/// parameter that wants its value.
pub proof fn slots_admit_what_their_parameter_takes(
    types: &TypeRegistry,
    region: RegionView,
    symbol: Symbol,
    arg: Argument,
    part: WorkingPart,
    outcome: Option<Resolution>,
)
    ensures
        slot_admits(types, region, SignatureElement::Keyword(symbol), part, outcome) <==> part
            == WorkingPart::Ast(ExpressionPart::Keyword(symbol)),
        part matches WorkingPart::Spliced { cell, .. } ==> (slot_admits(
            types,
            region,
            SignatureElement::Argument(arg),
            part,
            outcome,
        ) <==> types.accepts(region, arg.ktype, cell)),
        part is Expression ==> !slot_admits(
            types,
            region,
            SignatureElement::Argument(arg),
            part,
            outcome,
        ),
        part matches WorkingPart::Ast(ast) ==> (is_bare(part) && !takes_raw(types, arg.ktype, ast)
            ==> match outcome {
            Some(Resolution::Resolved(carried)) => slot_admits(
                types,
                region,
                SignatureElement::Argument(arg),
                part,
                outcome,
            ) == types.accepts(region, arg.ktype, carried),
            Some(_) => !slot_admits(
                types,
                region,
                SignatureElement::Argument(arg),
                part,
                outcome,
            ),
            None => slot_admits(types, region, SignatureElement::Argument(arg), part, outcome)
                == types.takes_part(arg.ktype, ast),
        }),
        part matches WorkingPart::Ast(ast) ==> (types.capturing_member(arg.ktype, ast) is Some
            ==> slot_admits(types, region, SignatureElement::Argument(arg), part, outcome)
            == types.takes_part(arg.ktype, ast)),
        part matches WorkingPart::Ast(ast) ==> (types.capturing_member(arg.ktype, ast) is None
            && types.has_member(arg.ktype, KType::OfKind(KKind::ProperType)) && (ast is Type
            || ast is SigiledTypeExpr || ast is RecordType) ==> slot_admits(
            types,
            region,
            SignatureElement::Argument(arg),
            part,
            outcome,
        )),
        part matches WorkingPart::Ast(ast) ==> (types.capturing_member(arg.ktype, ast) is None
            && !types.has_member(arg.ktype, KType::OfKind(KKind::ProperType)) && (arg.ktype
            == KType::Identifier || arg.ktype == KType::NameToken || arg.ktype
            == KType::TypeNameToken) ==> slot_admits(
            types,
            region,
            SignatureElement::Argument(arg),
            part,
            outcome,
        ) == types.takes_part(arg.ktype, ast)),
        part matches WorkingPart::Ast(ast) ==> (!takes_raw(types, arg.ktype, ast) && outcome is None
            && !(ast is SigiledTypeExpr) && !(ast is RecordType) ==> slot_admits(
            types,
            region,
            SignatureElement::Argument(arg),
            part,
            outcome,
        ) == types.takes_part(arg.ktype, ast)),
        part matches WorkingPart::Ast(ast) ==> (!takes_raw(types, arg.ktype, ast)
            && !types.has_member(arg.ktype, KType::KExpression) && (ast is SigiledTypeExpr
            && !types.has_member(arg.ktype, KType::RecordType) || ast is RecordType
            && !types.has_member(arg.ktype, KType::SigiledTypeExpr)) ==> slot_admits(
            types,
            region,
            SignatureElement::Argument(arg),
            part,
            outcome,
        )),
{
}

/// Whether a signature has one element per slot of a call, and each element admits its own slot.
pub open spec fn takes_call(
    types: &TypeRegistry,
    region: RegionView,
    elements: Seq<SignatureElement>,
    parts: Seq<Spanned>,
    outcomes: Seq<Option<Resolution>>,
) -> bool {
    &&& elements.len() == parts.len()
    &&& forall|i: int|
        0 <= i < parts.len() ==> slot_admits(
            types,
            region,
            elements[i],
            (#[trigger] parts[i]).value,
            if i < outcomes.len() {
                outcomes[i]
            } else {
                None
            },
        )
}

/// Whether entry `e` of a level is an overload under `key` that stands in front of the reader.
pub open spec fn is_overload(
    level: ScopeLevel,
    key: Seq<KeyElement>,
    chain: Option<&LexicalFrame>,
    e: int,
) -> bool {
    &&& 0 <= e < level.overloads@.len()
    &&& level.overloads@[e].key@ == key
    &&& level.overloads@[e].state is Bound
    &&& cutoff_in(chain, level.id) matches Some(own) ==> level.overloads@[e].index < own
}

/// The callable of an overload.
pub open spec fn callable(level: ScopeLevel, e: int) -> FnId {
    level.overloads@[e].state->Bound_0
}

/// Whether entry `e` of a level is a claim on `key` that stands in front of the reader.
pub open spec fn is_key_claim(
    level: ScopeLevel,
    key: Seq<KeyElement>,
    chain: Option<&LexicalFrame>,
    e: int,
) -> bool {
    &&& 0 <= e < level.overloads@.len()
    &&& level.overloads@[e].key@ == key
    &&& level.overloads@[e].state is Claimed
    &&& cutoff_in(chain, level.id) matches Some(own) ==> level.overloads@[e].index < own
}

/// Whether slot `i` of a call holds a bare name whose value the callable is given.
pub open spec fn by_value(
    types: &TypeRegistry,
    elements: Seq<SignatureElement>,
    parts: Seq<Spanned>,
    outcomes: Seq<Option<Resolution>>,
    i: int,
) -> bool {
    &&& 0 <= i < parts.len()
    &&& i < elements.len()
    &&& elements[i] matches SignatureElement::Argument(arg) && parts[i].value matches WorkingPart::Ast(
        ast,
    ) && is_bare(parts[i].value) && types.capturing_member(arg.ktype, ast) is None
    &&& !(i < outcomes.len() && outcomes[i] matches Some(Resolution::Parked(_)))
}

/// Whether `taken` lists exactly the slots of a call that hold bare names taken by value, from left
/// to right.
pub open spec fn takes_by_value(
    types: &TypeRegistry,
    elements: Seq<SignatureElement>,
    parts: Seq<Spanned>,
    outcomes: Seq<Option<Resolution>>,
    taken: Seq<usize>,
) -> bool {
    &&& forall|i: int|
        0 <= i < parts.len() ==> (#[trigger] taken.contains(i as usize) <==> by_value(
            types,
            elements,
            parts,
            outcomes,
            i,
        ))
    &&& forall|a: int, b: int|
        0 <= a < b < taken.len() ==> #[trigger] taken[a] < #[trigger] taken[b]
    &&& forall|a: int| 0 <= a < taken.len() ==> (#[trigger] taken[a]) < parts.len()
}

proof fn wrapped_are_by_value(
    types: &TypeRegistry,
    elements: Seq<SignatureElement>,
    parts: Seq<Spanned>,
    outcomes: Seq<Option<Resolution>>,
    upto: nat,
)
    requires
        upto <= parts.len() <= usize::MAX,
    ensures
        ({
            let taken = wrap_slots(
                types,
                elements,
                parts,
                parked_flags(outcomes, parts.len()),
                upto,
            );
            &&& forall|i: int|
                0 <= i < upto ==> (#[trigger] taken.contains(i as usize) <==> by_value(
                    types,
                    elements,
                    parts,
                    outcomes,
                    i,
                ))
            &&& forall|a: int, b: int|
                0 <= a < b < taken.len() ==> #[trigger] taken[a] < #[trigger] taken[b]
            &&& forall|a: int| 0 <= a < taken.len() ==> (#[trigger] taken[a]) < upto
        }),
    decreases upto,
{
    let flags = parked_flags(outcomes, parts.len());
    let taken = wrap_slots(types, elements, parts, flags, upto);
    if upto > 0 {
        let at = (upto - 1) as int;
        wrapped_are_by_value(types, elements, parts, outcomes, at as nat);
        let earlier = wrap_slots(types, elements, parts, flags, at as nat);
        assert forall|i: int| 0 <= i < upto implies (#[trigger] taken.contains(i as usize)
            <==> by_value(types, elements, parts, outcomes, i)) by {
            if i < at {
                assert(earlier.contains(i as usize) <==> by_value(
                    types,
                    elements,
                    parts,
                    outcomes,
                    i,
                ));
                if earlier.contains(i as usize) {
                    let k = choose|k: int| 0 <= k < earlier.len() && earlier[k] == i as usize;
                    assert(taken[k] == i as usize);
                }
                if taken.contains(i as usize) {
                    let k = choose|k: int| 0 <= k < taken.len() && taken[k] == i as usize;
                    assert(k < earlier.len());
                    assert(earlier[k] == i as usize);
                }
            } else {
                if taken.len() > earlier.len() {
                    assert(taken[earlier.len() as int] == at as usize);
                } else if taken.contains(i as usize) {
                    let k = choose|k: int| 0 <= k < taken.len() && taken[k] == i as usize;
                    assert(earlier[k] < at);
                }
            }
        }
    }
}

/// A pick is given the values of exactly those bare names that its parameters do not take as they
/// stand.
pub proof fn picks_take_bare_names_by_value(
    types: &TypeRegistry,
    elements: Seq<SignatureElement>,
    parts: Seq<Spanned>,
    outcomes: Seq<Option<Resolution>>,
)
    requires
        parts.len() <= usize::MAX,
    ensures
        takes_by_value(
            types,
            elements,
            parts,
            outcomes,
            wrap_slots(types, elements, parts, parked_flags(outcomes, parts.len()), parts.len()),
        ),
{
    wrapped_are_by_value(types, elements, parts, outcomes, parts.len());
}

proof fn survivors_take_the_call(
    functions: &Functions,
    types: &TypeRegistry,
    region: RegionView,
    candidates: Seq<FnId>,
    parts: Seq<Spanned>,
    outcomes: Seq<Option<Resolution>>,
    upto: nat,
)
    requires
        upto <= candidates.len() <= usize::MAX,
    ensures
        ({
            let survivors = survivors_upto(
                functions,
                types,
                region,
                candidates,
                parts,
                outcomes,
                upto,
            );
            &&& forall|s: int|
                0 <= s < survivors.len() ==> (#[trigger] survivors[s]) < upto && takes_call(
                    types,
                    region,
                    functions.signature(candidates[survivors[s] as int]),
                    parts,
                    outcomes,
                )
            &&& forall|c: int|
                0 <= c < upto && takes_call(
                    types,
                    region,
                    functions.signature(#[trigger] candidates[c]),
                    parts,
                    outcomes,
                ) ==> exists|s: int|
                    0 <= s < survivors.len() && #[trigger] survivors[s] == c
            &&& forall|a: int, b: int|
                0 <= a < b < survivors.len() ==> #[trigger] survivors[a] < #[trigger] survivors[b]
        }),
    decreases upto,
{
    let survivors = survivors_upto(functions, types, region, candidates, parts, outcomes, upto);
    if upto > 0 {
        let at = (upto - 1) as int;
        survivors_take_the_call(
            functions,
            types,
            region,
            candidates,
            parts,
            outcomes,
            at as nat,
        );
        let earlier = survivors_upto(
            functions,
            types,
            region,
            candidates,
            parts,
            outcomes,
            at as nat,
        );
        let elements = functions.signature(candidates[at]);
        assert(takes_call(types, region, elements, parts, outcomes) == signature_admits(
            types,
            region,
            elements,
            parts,
            outcomes,
        ));
        assert forall|c: int|
            0 <= c < upto && takes_call(
                types,
                region,
                functions.signature(#[trigger] candidates[c]),
                parts,
                outcomes,
            ) implies exists|s: int| 0 <= s < survivors.len() && #[trigger] survivors[s] == c by {
            if c < at {
                let s = choose|s: int| 0 <= s < earlier.len() && #[trigger] earlier[s] == c;
                assert(survivors[s] == c);
            } else {
                assert(survivors[earlier.len() as int] == c);
            }
        }
    }
}

/// Whether candidate `at` takes the call and is more specific than every other candidate that takes
/// it too.
pub open spec fn is_best(
    functions: &Functions,
    types: &TypeRegistry,
    region: RegionView,
    candidates: Seq<FnId>,
    parts: Seq<Spanned>,
    outcomes: Seq<Option<Resolution>>,
    at: int,
) -> bool {
    &&& 0 <= at < candidates.len()
    &&& takes_call(types, region, functions.signature(candidates[at]), parts, outcomes)
    &&& forall|c: int|
        0 <= c < candidates.len() && c != at && takes_call(
            types,
            region,
            functions.signature(#[trigger] candidates[c]),
            parts,
            outcomes,
        ) ==> more_specific(
            types,
            functions.signature(candidates[at]),
            functions.signature(candidates[c]),
        )
}

/// Among the candidates that take a call, the one that is more specific than all the others is
/// picked. Where several take it and none of them is, that is a tie; where none takes it, none is
/// picked.
pub proof fn the_most_specific_taker_is_picked(
    functions: &Functions,
    types: &TypeRegistry,
    region: RegionView,
    candidates: Seq<FnId>,
    parts: Seq<Spanned>,
    outcomes: Seq<Option<Resolution>>,
)
    requires
        candidates.len() <= usize::MAX,
    ensures
        match strict_pick(functions, types, region, candidates, parts, outcomes) {
            PickPass::Picked(at) => is_best(
                functions,
                types,
                region,
                candidates,
                parts,
                outcomes,
                at as int,
            ),
            PickPass::Tie(_) => (exists|c: int|
                0 <= c < candidates.len() && takes_call(
                    types,
                    region,
                    functions.signature(#[trigger] candidates[c]),
                    parts,
                    outcomes,
                )) && forall|at: int|
                !#[trigger] is_best(functions, types, region, candidates, parts, outcomes, at),
            PickPass::Empty => forall|c: int|
                0 <= c < candidates.len() ==> !takes_call(
                    types,
                    region,
                    functions.signature(#[trigger] candidates[c]),
                    parts,
                    outcomes,
                ),
        },
{
    survivors_take_the_call(
        functions,
        types,
        region,
        candidates,
        parts,
        outcomes,
        candidates.len(),
    );
    let survivors = survivors_upto(
        functions,
        types,
        region,
        candidates,
        parts,
        outcomes,
        candidates.len(),
    );
    let sigs = signatures_at(functions, candidates, survivors);
    if exists|best: int| is_most_specific(types, sigs, best) {
        let best = choose|best: int| is_most_specific(types, sigs, best);
        let at = survivors[best] as int;
        assert forall|c: int|
            0 <= c < candidates.len() && c != at && takes_call(
                types,
                region,
                functions.signature(#[trigger] candidates[c]),
                parts,
                outcomes,
            ) implies more_specific(
            types,
            functions.signature(candidates[at]),
            functions.signature(candidates[c]),
        ) by {
            let s = choose|s: int| 0 <= s < survivors.len() && #[trigger] survivors[s] == c;
            assert(sigs[s] == functions.signature(candidates[c]));
        }
    } else {
        assert forall|at: int|
            !#[trigger] is_best(functions, types, region, candidates, parts, outcomes, at) by {
            if is_best(functions, types, region, candidates, parts, outcomes, at) {
                let best = choose|s: int| 0 <= s < survivors.len() && #[trigger] survivors[s] == at;
                assert forall|j: int| 0 <= j < sigs.len() && j != best implies more_specific(
                    types,
                    sigs[best],
                    #[trigger] sigs[j],
                ) by {
                    let c = survivors[j] as int;
                    assert(c != at) by {
                        if j < best {
                            assert(survivors[j] < survivors[best]);
                        } else {
                            assert(survivors[best] < survivors[j]);
                        }
                    }
                    assert(candidates[c] == candidates[survivors[j] as int]);
                }
                assert(is_most_specific(types, sigs, best));
            }
        }
        if survivors.len() > 0 {
            let c = survivors[0] as int;
            assert(takes_call(
                types,
                region,
                functions.signature(candidates[c]),
                parts,
                outcomes,
            ));
        }
    }
}

/// Every overload that the reader sees under a key is bound by an entry in front of it.
pub proof fn overloads_are_entries(
    entries: Seq<OverloadEntry>,
    key: Seq<KeyElement>,
    cutoff: Option<usize>,
    c: int,
)
    requires
        0 <= c < ScopeLevel::overloads_at(entries, key, cutoff).len(),
    ensures
        exists|e: int|
            0 <= e < entries.len() && (#[trigger] entries[e]).key@ == key && entries[e].state
                == OverloadState::Bound(ScopeLevel::overloads_at(entries, key, cutoff)[c]) && (
            cutoff matches Some(own) ==> entries[e].index < own),
    decreases entries.len(),
{
    let rest = entries.drop_last();
    let earlier = ScopeLevel::overloads_at(rest, key, cutoff);
    if c < earlier.len() {
        overloads_are_entries(rest, key, cutoff, c);
        let e = choose|e: int|
            0 <= e < rest.len() && (#[trigger] rest[e]).key@ == key && rest[e].state
                == OverloadState::Bound(earlier[c]) && (cutoff matches Some(own) ==> rest[e].index
                < own);
        assert(entries[e] == rest[e]);
    } else {
        let e = entries.len() - 1;
        assert(entries[e] == entries.last());
    }
}

/// Every entry in front of the reader that binds a key is seen under it.
pub proof fn entries_are_overloads(
    entries: Seq<OverloadEntry>,
    key: Seq<KeyElement>,
    cutoff: Option<usize>,
    e: int,
)
    requires
        0 <= e < entries.len(),
        entries[e].key@ == key,
        entries[e].state is Bound,
        cutoff matches Some(own) ==> entries[e].index < own,
    ensures
        exists|c: int|
            0 <= c < ScopeLevel::overloads_at(entries, key, cutoff).len()
                && #[trigger] ScopeLevel::overloads_at(entries, key, cutoff)[c]
                == entries[e].state->Bound_0,
    decreases entries.len(),
{
    let rest = entries.drop_last();
    let earlier = ScopeLevel::overloads_at(rest, key, cutoff);
    let all = ScopeLevel::overloads_at(entries, key, cutoff);
    if e < rest.len() {
        entries_are_overloads(rest, key, cutoff, e);
        let c = choose|c: int|
            0 <= c < earlier.len() && #[trigger] earlier[c] == rest[e].state->Bound_0;
        assert(all[c] == earlier[c]);
    } else {
        assert(all[earlier.len() as int] == entries[e].state->Bound_0);
    }
}

/// Whether a level leaves a call open: nothing under its key is about to be bound there, and nothing
/// bound there takes it.
pub open spec fn leaves_open(
    functions: &Functions,
    types: &TypeRegistry,
    region: RegionView,
    level: ScopeLevel,
    chain: Option<&LexicalFrame>,
    parts: Seq<Spanned>,
    outcomes: Seq<Option<Resolution>>,
) -> bool {
    forall|e: int|
        {
            &&& !#[trigger] is_key_claim(level, key_of(parts), chain, e)
            &&& is_overload(level, key_of(parts), chain, e) ==> !takes_call(
                types,
                region,
                functions.signature(callable(level, e)),
                parts,
                outcomes,
            )
        }
}

/// Whether a level picks `function` for a call: no claim on the key is open there, and it is the most
/// specific of the overloads there that take the call.
pub open spec fn picks_at(
    functions: &Functions,
    types: &TypeRegistry,
    region: RegionView,
    level: ScopeLevel,
    chain: Option<&LexicalFrame>,
    parts: Seq<Spanned>,
    outcomes: Seq<Option<Resolution>>,
    function: FnId,
) -> bool {
    &&& forall|e: int| !#[trigger] is_key_claim(level, key_of(parts), chain, e)
    &&& exists|e: int|
        #[trigger] is_overload(level, key_of(parts), chain, e) && callable(level, e) == function
    &&& takes_call(types, region, functions.signature(function), parts, outcomes)
    &&& forall|e: int| #[trigger]
        is_overload(level, key_of(parts), chain, e) && callable(level, e) != function && takes_call(
            types,
            region,
            functions.signature(callable(level, e)),
            parts,
            outcomes,
        ) ==> more_specific(
            types,
            functions.signature(function),
            functions.signature(callable(level, e)),
        )
}

/// What a level has claimed under a key is the claim of one of its entries; nothing is claimed only
/// where no entry claims it.
pub proof fn claims_are_entries(
    level: ScopeLevel,
    key: Seq<KeyElement>,
    chain: Option<&LexicalFrame>,
)
    ensures
        match level.claimed_key_at(key, cutoff_in(chain, level.id)) {
            Some(source) => exists|e: int| #[trigger]
                is_key_claim(level, key, chain, e) && level.overloads@[e].state
                    == OverloadState::Claimed(source),
            None => forall|e: int| !#[trigger] is_key_claim(level, key, chain, e),
        },
{
    let cutoff = cutoff_in(chain, level.id);
    let p = |e: OverloadEntry| ScopeLevel::claims_key(e, key, cutoff);
    found_is_first(level.overloads@, p);
    if let Some(found) = first_match(level.overloads@, p) {
        let e = choose|e: int|
            {
                &&& 0 <= e < level.overloads@.len()
                &&& #[trigger] level.overloads@[e] == found
                &&& p(found)
                &&& forall|j: int| 0 <= j < e ==> !p(#[trigger] level.overloads@[j])
            };
        assert(is_key_claim(level, key, chain, e));
    } else {
        assert forall|e: int| !#[trigger] is_key_claim(level, key, chain, e) by {
            if is_key_claim(level, key, chain, e) {
                assert(!p(level.overloads@[e]));
            }
        }
    }
}

proof fn level_picks(
    functions: &Functions,
    types: &TypeRegistry,
    region: RegionView,
    level: ScopeLevel,
    chain: Option<&LexicalFrame>,
    parts: Seq<Spanned>,
    outcomes: Seq<Option<Resolution>>,
)
    requires
        parts.len() <= usize::MAX,
        ScopeLevel::overloads_at(
            level.overloads@,
            key_of(parts),
            cutoff_in(chain, level.id),
        ).len() <= usize::MAX,
    ensures
        match level_decision(functions, types, region, level, chain, parts, outcomes) {
            DecisionView::Terminal(DispatchView::Resolved { function, wrap_indices }) => picks_at(
                functions,
                types,
                region,
                level,
                chain,
                parts,
                outcomes,
                function,
            ) && takes_by_value(
                types,
                functions.signature(function),
                parts,
                outcomes,
                wrap_indices,
            ),
            DecisionView::Terminal(_) => true,
            _ => leaves_open(functions, types, region, level, chain, parts, outcomes),
        },
{
    let key = key_of(parts);
    let cutoff = cutoff_in(chain, level.id);
    let candidates = ScopeLevel::overloads_at(level.overloads@, key, cutoff);
    claims_are_entries(level, key, chain);
    the_most_specific_taker_is_picked(functions, types, region, candidates, parts, outcomes);
    assert forall|e: int| #[trigger] is_overload(level, key, chain, e) implies exists|c: int|
        0 <= c < candidates.len() && #[trigger] candidates[c] == callable(level, e) by {
        entries_are_overloads(level.overloads@, key, cutoff, e);
    }
    match strict_pick(functions, types, region, candidates, parts, outcomes) {
        PickPass::Picked(at) => {
            overloads_are_entries(level.overloads@, key, cutoff, at as int);
            let e = choose|e: int|
                0 <= e < level.overloads@.len() && (#[trigger] level.overloads@[e]).key@ == key
                    && level.overloads@[e].state == OverloadState::Bound(candidates[at as int]) && (
                cutoff matches Some(own) ==> level.overloads@[e].index < own);
            assert(is_overload(level, key, chain, e));
            let function = candidates[at as int];
            picks_take_bare_names_by_value(types, functions.signature(function), parts, outcomes);
            assert forall|e: int| #[trigger]
                is_overload(level, key, chain, e) && callable(level, e) != function && takes_call(
                    types,
                    region,
                    functions.signature(callable(level, e)),
                    parts,
                    outcomes,
                ) implies more_specific(
                types,
                functions.signature(function),
                functions.signature(callable(level, e)),
            ) by {
                let c = choose|c: int|
                    0 <= c < candidates.len() && #[trigger] candidates[c] == callable(level, e);
                assert(c != at);
            }
        },
        PickPass::Tie(_) => {},
        PickPass::Empty => {
            if level.claimed_key_at(key, cutoff) is None {
                assert forall|e: int|
                    !#[trigger] is_key_claim(level, key, chain, e) && (is_overload(
                        level,
                        key,
                        chain,
                        e,
                    ) ==> !takes_call(
                        types,
                        region,
                        functions.signature(callable(level, e)),
                        parts,
                        outcomes,
                    )) by {
                    if is_overload(level, key, chain, e) {
                        let c = choose|c: int|
                            0 <= c < candidates.len() && #[trigger] candidates[c] == callable(
                                level,
                                e,
                            );
                    }
                }
            }
        },
    }
}

/// Whether level `k` picks `function`, and every level inside it leaves the call open.
pub open spec fn nearest_pick(
    functions: &Functions,
    types: &TypeRegistry,
    region: RegionView,
    levels: Seq<ScopeLevel>,
    chain: Option<&LexicalFrame>,
    parts: Seq<Spanned>,
    outcomes: Seq<Option<Resolution>>,
    function: FnId,
    k: int,
) -> bool {
    &&& 0 <= k < levels.len()
    &&& picks_at(functions, types, region, levels[k], chain, parts, outcomes, function)
    &&& forall|j: int|
        k < j < levels.len() ==> leaves_open(
            functions,
            types,
            region,
            #[trigger] levels[j],
            chain,
            parts,
            outcomes,
        )
}

proof fn walk_picks_the_nearest(
    functions: &Functions,
    types: &TypeRegistry,
    region: RegionView,
    levels: Seq<ScopeLevel>,
    chain: Option<&LexicalFrame>,
    parts: Seq<Spanned>,
    outcomes: Seq<Option<Resolution>>,
    dead: Option<(Symbol, Option<Symbol>)>,
)
    requires
        parts.len() <= usize::MAX,
        forall|k: int|
            0 <= k < levels.len() ==> ScopeLevel::overloads_at(
                (#[trigger] levels[k]).overloads@,
                key_of(parts),
                cutoff_in(chain, levels[k].id),
            ).len() <= usize::MAX,
    ensures
        match walk_levels(functions, types, region, levels, chain, parts, outcomes, dead) {
            Ok(DispatchView::Resolved { function, wrap_indices }) => takes_by_value(
                types,
                functions.signature(function),
                parts,
                outcomes,
                wrap_indices,
            ) && exists|k: int| #[trigger]
                nearest_pick(
                    functions,
                    types,
                    region,
                    levels,
                    chain,
                    parts,
                    outcomes,
                    function,
                    k,
                ),
            Ok(_) => true,
            Err(_) => forall|j: int|
                0 <= j < levels.len() ==> leaves_open(
                    functions,
                    types,
                    region,
                    #[trigger] levels[j],
                    chain,
                    parts,
                    outcomes,
                ),
        },
    decreases levels.len(),
{
    if levels.len() > 0 {
        let last = levels.len() - 1;
        assert(levels[last] == levels.last());
        level_picks(functions, types, region, levels.last(), chain, parts, outcomes);
        let rest = levels.drop_last();
        assert forall|k: int| 0 <= k < rest.len() implies ScopeLevel::overloads_at(
            (#[trigger] rest[k]).overloads@,
            key_of(parts),
            cutoff_in(chain, rest[k].id),
        ).len() <= usize::MAX by {
            assert(rest[k] == levels[k]);
        }
        match level_decision(functions, types, region, levels.last(), chain, parts, outcomes) {
            DecisionView::Terminal(DispatchView::Resolved { function, .. }) => {
                assert(nearest_pick(
                    functions,
                    types,
                    region,
                    levels,
                    chain,
                    parts,
                    outcomes,
                    function,
                    last,
                ));
            },
            DecisionView::Terminal(_) => {},
            decision => {
                let next = match decision {
                    DecisionView::DeadLean(name, role) => if dead is None {
                        Some((name, role))
                    } else {
                        dead
                    },
                    _ => dead,
                };
                walk_picks_the_nearest(
                    functions,
                    types,
                    region,
                    rest,
                    chain,
                    parts,
                    outcomes,
                    next,
                );
                match walk_levels(functions, types, region, rest, chain, parts, outcomes, next) {
                    Ok(DispatchView::Resolved { function, .. }) => {
                        let k = choose|k: int| #[trigger]
                            nearest_pick(
                                functions,
                                types,
                                region,
                                rest,
                                chain,
                                parts,
                                outcomes,
                                function,
                                k,
                            );
                        assert(levels[k] == rest[k]);
                        assert forall|j: int| k < j < levels.len() implies leaves_open(
                            functions,
                            types,
                            region,
                            #[trigger] levels[j],
                            chain,
                            parts,
                            outcomes,
                        ) by {
                            if j < last {
                                assert(levels[j] == rest[j]);
                            }
                        }
                        assert(nearest_pick(
                            functions,
                            types,
                            region,
                            levels,
                            chain,
                            parts,
                            outcomes,
                            function,
                            k,
                        ));
                    },
                    Ok(_) => {},
                    Err(_) => {
                        assert forall|j: int| 0 <= j < levels.len() implies leaves_open(
                            functions,
                            types,
                            region,
                            #[trigger] levels[j],
                            chain,
                            parts,
                            outcomes,
                        ) by {
                            if j < last {
                                assert(levels[j] == rest[j]);
                            }
                        }
                    },
                }
            },
        }
    }
}

/// A call resolves to a callable that takes all its slots: the most specific of those bound under
/// its key at the nearest level that does not leave it open. The outermost level decides first where
/// a builtin is registered under the key. A call stays unmatched only where every level leaves it
/// open.
pub proof fn calls_resolve_to_the_nearest_taker(
    functions: &Functions,
    types: &TypeRegistry,
    region: RegionView,
    levels: Seq<ScopeLevel>,
    chain: Option<&LexicalFrame>,
    expr: ExprId,
    outcomes: Seq<Option<Resolution>>,
)
    requires
        region.parts(expr).len() <= usize::MAX,
        forall|k: int|
            0 <= k < levels.len() ==> ScopeLevel::overloads_at(
                (#[trigger] levels[k]).overloads@,
                key_of(region.parts(expr)),
                cutoff_in(chain, levels[k].id),
            ).len() <= usize::MAX,
    ensures
        ({
            let parts = region.parts(expr);
            match dispatch_of(functions, types, region, levels, chain, expr, outcomes) {
                DispatchView::Resolved { function, wrap_indices } => takes_by_value(
                    types,
                    functions.signature(function),
                    parts,
                    outcomes,
                    wrap_indices,
                ) && (levels[0].has_builtin(key_of(parts)) && picks_at(
                    functions,
                    types,
                    region,
                    levels[0],
                    chain,
                    parts,
                    outcomes,
                    function,
                ) || exists|k: int| #[trigger]
                    nearest_pick(
                        functions,
                        types,
                        region,
                        levels,
                        chain,
                        parts,
                        outcomes,
                        function,
                        k,
                    )),
                DispatchView::Unmatched { .. } | DispatchView::UnboundName(..) => forall|j: int|
                    0 <= j < levels.len() ==> leaves_open(
                        functions,
                        types,
                        region,
                        #[trigger] levels[j],
                        chain,
                        parts,
                        outcomes,
                    ),
                _ => true,
            }
        }),
{
    let parts = region.parts(expr);
    walk_picks_the_nearest(functions, types, region, levels, chain, parts, outcomes, None);
    if levels.len() > 0 {
        assert(levels[0] == levels[0]);
        level_picks(functions, types, region, levels[0], chain, parts, outcomes);
    }
    terminal_is_no_miss(functions, types, region, levels, chain, parts, outcomes, None);
    if levels.len() > 0 {
        decided_is_no_miss(functions, types, region, levels[0], chain, parts, outcomes);
    }
}

proof fn decided_is_no_miss(
    functions: &Functions,
    types: &TypeRegistry,
    region: RegionView,
    level: ScopeLevel,
    chain: Option<&LexicalFrame>,
    parts: Seq<Spanned>,
    outcomes: Seq<Option<Resolution>>,
)
    ensures
        level_decision(functions, types, region, level, chain, parts, outcomes)
            matches DecisionView::Terminal(outcome) ==> !(outcome is Unmatched) && !(
        outcome is UnboundName),
{
}

proof fn terminal_is_no_miss(
    functions: &Functions,
    types: &TypeRegistry,
    region: RegionView,
    levels: Seq<ScopeLevel>,
    chain: Option<&LexicalFrame>,
    parts: Seq<Spanned>,
    outcomes: Seq<Option<Resolution>>,
    dead: Option<(Symbol, Option<Symbol>)>,
)
    ensures
        walk_levels(functions, types, region, levels, chain, parts, outcomes, dead) matches Ok(
            outcome,
        ) ==> !(outcome is Unmatched) && !(outcome is UnboundName),
    decreases levels.len(),
{
    if levels.len() > 0 {
        decided_is_no_miss(functions, types, region, levels.last(), chain, parts, outcomes);
        let next = match level_decision(
            functions,
            types,
            region,
            levels.last(),
            chain,
            parts,
            outcomes,
        ) {
            DecisionView::DeadLean(name, role) => if dead is None {
                Some((name, role))
            } else {
                dead
            },
            _ => dead,
        };
        terminal_is_no_miss(
            functions,
            types,
            region,
            levels.drop_last(),
            chain,
            parts,
            outcomes,
            next,
        );
    }
}

} // verus!
