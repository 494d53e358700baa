//! Laws of waiting for slots that evaluate their parts on demand: where no callable takes a call
//! yet, what is waited for is what could still decide it.

use crate::ast::Spanned;
use crate::decide::staging::is_eager_slot;
use crate::dispatch::bare_name::NameView;
use crate::dispatch::resolve_dispatch::{
    has_lazy, leans_of, leans_upto, relaxed_upto, scope_decision, slot_admits, strict_pick,
    with_leans, DecisionView, DispatchView, Lean, RelaxedView,
};
use crate::function::{Functions, SignatureElement};
use crate::ktype::TypeRegistry;
use crate::laws::waiting::{more_are_gathered, producers_are_added_once};
use crate::region::RegionView;
use crate::symbol::Symbol;
use crate::value::{ExprId, FnId, ProducerId};
use vstd::prelude::*;

verus! {

/// Whether slot `i` of a call is not admitted by its element.
pub open spec fn unadmitted(
    types: &TypeRegistry,
    region: RegionView,
    elements: Seq<SignatureElement>,
    parts: Seq<Spanned>,
    outcomes: Seq<Option<NameView>>,
    i: int,
) -> bool {
    !slot_admits(
        types,
        region,
        elements[i],
        parts[i].value,
        has_lazy(elements, parts),
        if 0 <= i < outcomes.len() {
            outcomes[i]
        } else {
            None
        },
    )
}

/// Whether `lean` is what slot `i` still needs: the value of what stands there, where it is
/// evaluated for a parameter; otherwise the name that stands there.
pub open spec fn needs(
    elements: Seq<SignatureElement>,
    parts: Seq<Spanned>,
    outcomes: Seq<Option<NameView>>,
    i: int,
    lean: Lean,
) -> bool {
    if elements[i] is Argument && is_eager_slot(parts[i].value) {
        lean == Lean::Eager
    } else {
        match lean {
            Lean::Parked(source) => 0 <= i < outcomes.len() && outcomes[i] == Some(
                NameView::Parked(source),
            ),
            Lean::Dead(name) => 0 <= i < outcomes.len() && outcomes[i] == Some(
                NameView::Unbound(name),
            ),
            Lean::Eager => false,
        }
    }
}

/// A signature could still take a call exactly when each slot that it does not admit still needs
/// something, and it leans on exactly what those slots need.
pub proof fn signatures_lean_on_what_they_need(
    types: &TypeRegistry,
    region: RegionView,
    elements: Seq<SignatureElement>,
    parts: Seq<Spanned>,
    outcomes: Seq<Option<NameView>>,
    upto: nat,
)
    ensures
        leans_upto(types, region, elements, parts, outcomes, upto) is Some <==> forall|i: int|
            0 <= i < upto && #[trigger] unadmitted(types, region, elements, parts, outcomes, i)
                ==> exists|lean: Lean| #[trigger] needs(elements, parts, outcomes, i, lean),
        leans_upto(types, region, elements, parts, outcomes, upto) matches Some(leans) ==> forall|
            lean: Lean,
        | #[trigger]
            leans.contains(lean) <==> exists|i: int|
                0 <= i < upto && #[trigger] unadmitted(types, region, elements, parts, outcomes, i)
                    && needs(elements, parts, outcomes, i, lean),
    decreases upto,
{
    if upto > 0 {
        let at = (upto - 1) as int;
        signatures_lean_on_what_they_need(types, region, elements, parts, outcomes, at as nat);
        let earlier = leans_upto(types, region, elements, parts, outcomes, at as nat);
        let all = leans_upto(types, region, elements, parts, outcomes, upto);
        let own = unadmitted(types, region, elements, parts, outcomes, at);
        if earlier is Some && own && all is Some {
            let before = earlier->0;
            let leans = all->0;
            assert(leans == before.push(leans.last()));
            assert(needs(elements, parts, outcomes, at, leans.last()));
            assert forall|lean: Lean| #[trigger] leans.contains(lean) <==> before.contains(lean)
                || lean == leans.last() by {
                if before.contains(lean) {
                    let k = choose|k: int| 0 <= k < before.len() && before[k] == lean;
                    assert(leans[k] == lean);
                }
                if leans.contains(lean) && lean != leans.last() {
                    let k = choose|k: int| 0 <= k < leans.len() && leans[k] == lean;
                    assert(before[k] == lean);
                }
                assert(leans[before.len() as int] == leans.last());
            }
            assert forall|lean: Lean| needs(elements, parts, outcomes, at, lean) implies lean
                == leans.last() by {}
        }
        if earlier is Some && own && all is None {
            assert forall|lean: Lean| !needs(elements, parts, outcomes, at, lean) by {}
        }
        if earlier is None {
            let i = choose|i: int|
                0 <= i < at && #[trigger] unadmitted(types, region, elements, parts, outcomes, i)
                    && !(exists|lean: Lean| #[trigger] needs(elements, parts, outcomes, i, lean));
            assert(unadmitted(types, region, elements, parts, outcomes, i));
        }
        if all is Some {
            let leans = all->0;
            let before = earlier->0;
            assert forall|lean: Lean| #[trigger] leans.contains(lean) <==> exists|i: int|
                0 <= i < upto && #[trigger] unadmitted(types, region, elements, parts, outcomes, i)
                    && needs(elements, parts, outcomes, i, lean) by {
                if before.contains(lean) {
                    let i = choose|i: int|
                        0 <= i < at && #[trigger] unadmitted(
                            types,
                            region,
                            elements,
                            parts,
                            outcomes,
                            i,
                        ) && needs(elements, parts, outcomes, i, lean);
                    assert(unadmitted(types, region, elements, parts, outcomes, i));
                }
                if own && needs(elements, parts, outcomes, at, lean) {
                    assert(leans.contains(lean));
                }
            }
        }
    }
}

/// Whether a candidate could still take a call, and leans on `lean`.
pub open spec fn could_take_with(
    functions: &Functions,
    types: &TypeRegistry,
    region: RegionView,
    candidate: FnId,
    parts: Seq<Spanned>,
    outcomes: Seq<Option<NameView>>,
    lean: Lean,
) -> bool {
    leans_of(types, region, functions.signature(candidate), parts, outcomes) matches Some(leans)
        && leans.contains(lean)
}

/// Whether one of the first `upto` candidates could still take a call, and leans on `lean`.
pub open spec fn leant_on(
    functions: &Functions,
    types: &TypeRegistry,
    region: RegionView,
    candidates: Seq<FnId>,
    parts: Seq<Spanned>,
    outcomes: Seq<Option<NameView>>,
    upto: int,
    lean: Lean,
) -> bool {
    exists|c: int|
        0 <= c < upto && #[trigger] could_take_with(
            functions,
            types,
            region,
            candidates[c],
            parts,
            outcomes,
            lean,
        )
}

proof fn leans_are_gathered(known: RelaxedView, leans: Seq<Lean>)
    requires
        known.parked.no_duplicates(),
    ensures
        ({
            let found = with_leans(known, leans);
            &&& found.parked.no_duplicates()
            &&& forall|source: ProducerId| #[trigger]
                found.parked.contains(source) <==> known.parked.contains(source) || leans.contains(
                    Lean::Parked(source),
                )
            &&& found.eager <==> known.eager || leans.contains(Lean::Eager)
            &&& found.dead matches Some(name) ==> known.dead == Some(name) || leans.contains(
                Lean::Dead(name),
            )
            &&& found.dead is None ==> known.dead is None && forall|name: Symbol|
                !#[trigger] leans.contains(Lean::Dead(name))
        }),
    decreases leans.len(),
{
    if leans.len() > 0 {
        let rest = leans.drop_last();
        let last = leans.len() - 1;
        leans_are_gathered(known, rest);
        if let Lean::Parked(own) = leans.last() {
            producers_are_added_once(with_leans(known, rest).parked, own);
        }
        assert forall|lean: Lean| #[trigger] leans.contains(lean) <==> rest.contains(lean)
            || leans.last() == lean by {
            if rest.contains(lean) {
                let k = choose|k: int| 0 <= k < rest.len() && rest[k] == lean;
                assert(leans[k] == lean);
            }
            if leans.contains(lean) {
                let k = choose|k: int| 0 <= k < leans.len() && leans[k] == lean;
                if k < last {
                    assert(rest[k] == lean);
                }
            }
            assert(leans[last] == leans.last());
        }
    }
}

/// What a set of candidates could still need is exactly what those of them need that could still
/// take the call: each producer once, whether something is to be evaluated, and an unbound name
/// where there is one.
pub proof fn candidates_need_what_could_decide(
    functions: &Functions,
    types: &TypeRegistry,
    region: RegionView,
    candidates: Seq<FnId>,
    parts: Seq<Spanned>,
    outcomes: Seq<Option<NameView>>,
    upto: nat,
)
    ensures
        ({
            let found = relaxed_upto(functions, types, region, candidates, parts, outcomes, upto);
            &&& found.parked.no_duplicates()
            &&& forall|source: ProducerId| #[trigger]
                found.parked.contains(source) <==> leant_on(
                functions,
                types,
                region,
                candidates,
                parts,
                outcomes,
                upto as int,
                Lean::Parked(source),
            )
            &&& found.eager <==> leant_on(
                functions,
                types,
                region,
                candidates,
                parts,
                outcomes,
                upto as int,
                Lean::Eager,
            )
            &&& found.dead matches Some(name) ==> leant_on(
                functions,
                types,
                region,
                candidates,
                parts,
                outcomes,
                upto as int,
                Lean::Dead(name),
            )
            &&& found.dead is None ==> forall|name: Symbol| !#[trigger] leant_on(
                functions,
                types,
                region,
                candidates,
                parts,
                outcomes,
                upto as int,
                Lean::Dead(name),
            )
        }),
    decreases upto,
{
    if upto > 0 {
        let at = (upto - 1) as int;
        candidates_need_what_could_decide(
            functions,
            types,
            region,
            candidates,
            parts,
            outcomes,
            at as nat,
        );
        let earlier = relaxed_upto(
            functions,
            types,
            region,
            candidates,
            parts,
            outcomes,
            at as nat,
        );
        let own = leans_of(types, region, functions.signature(candidates[at]), parts, outcomes);
        if let Some(leans) = own {
            leans_are_gathered(earlier, leans);
        }
        assert forall|lean: Lean| #[trigger]
            leant_on(functions, types, region, candidates, parts, outcomes, upto as int, lean)
                <==> leant_on(functions, types, region, candidates, parts, outcomes, at, lean) || (
            own is Some && own->0.contains(lean)) by {
            if leant_on(functions, types, region, candidates, parts, outcomes, at, lean) {
                let c = choose|c: int|
                    0 <= c < at && #[trigger] could_take_with(
                        functions,
                        types,
                        region,
                        candidates[c],
                        parts,
                        outcomes,
                        lean,
                    );
                assert(could_take_with(
                    functions,
                    types,
                    region,
                    candidates[c],
                    parts,
                    outcomes,
                    lean,
                ));
            }
            if own is Some && own->0.contains(lean) {
                assert(could_take_with(
                    functions,
                    types,
                    region,
                    candidates[at],
                    parts,
                    outcomes,
                    lean,
                ));
            }
            if leant_on(functions, types, region, candidates, parts, outcomes, upto as int, lean) {
                let c = choose|c: int|
                    0 <= c < upto && #[trigger] could_take_with(
                        functions,
                        types,
                        region,
                        candidates[c],
                        parts,
                        outcomes,
                        lean,
                    );
                if c < at {
                    assert(leant_on(
                        functions,
                        types,
                        region,
                        candidates,
                        parts,
                        outcomes,
                        at,
                        lean,
                    ));
                }
            }
        }
        if let Some(leans) = own {
            let found = with_leans(earlier, leans);
            if found.dead is None {
                assert forall|name: Symbol|
                    !#[trigger] leant_on(
                        functions,
                        types,
                        region,
                        candidates,
                        parts,
                        outcomes,
                        upto as int,
                        Lean::Dead(name),
                    ) by {
                    assert(!leans.contains(Lean::Dead(name)));
                }
            }
        }
    }
}

/// A level at which an overload is about to be registered is waited for, together with every
/// producer that could still decide among those it has. At a level without one that has no taker,
/// the call waits for the producers that could still decide; where there is none, it is put off
/// until its parts are evaluated, if a candidate leans on that; only where neither could decide does
/// the search go on.
pub proof fn levels_wait_for_what_could_decide(
    functions: &Functions,
    types: &TypeRegistry,
    region: RegionView,
    candidates: Seq<FnId>,
    pending: Option<ProducerId>,
    expr: ExprId,
    outcomes: Seq<Option<NameView>>,
)
    ensures
        ({
            let parts = region.parts(expr);
            let count = candidates.len() as int;
            let decision = scope_decision(
                functions,
                types,
                region,
                candidates,
                pending,
                expr,
                outcomes,
            );
            &&& pending matches Some(own) ==> (decision matches DecisionView::Terminal(
                DispatchView::ParkOnProducers(sources),
            ) && sources.no_duplicates() && forall|source: ProducerId| #[trigger]
                sources.contains(source) <==> source == own || leant_on(
                functions,
                types,
                region,
                candidates,
                parts,
                outcomes,
                count,
                Lean::Parked(source),
            ))
            &&& pending is None && strict_pick(
                functions,
                types,
                region,
                candidates,
                parts,
                outcomes,
            ) is Empty ==> match decision {
                DecisionView::Terminal(DispatchView::ParkOnProducers(sources)) => sources.len() > 0
                    && sources.no_duplicates() && forall|source: ProducerId| #[trigger]
                    sources.contains(source) <==> leant_on(
                functions,
                types,
                region,
                candidates,
                parts,
                outcomes,
                count,
                Lean::Parked(source),
            ),
                other => {
                    &&& forall|source: ProducerId| !#[trigger] leant_on(
                functions,
                types,
                region,
                candidates,
                parts,
                outcomes,
                count,
                Lean::Parked(source),
            )
                    &&& other == DecisionView::Terminal(DispatchView::Deferred) <==> leant_on(
                functions,
                types,
                region,
                candidates,
                parts,
                outcomes,
                count,
                Lean::Eager,
            )
                    &&& other is Terminal ==> other == DecisionView::Terminal(
                        DispatchView::Deferred,
                    )
                    &&& other matches DecisionView::DeadLean(name) ==> leant_on(
                functions,
                types,
                region,
                candidates,
                parts,
                outcomes,
                count,
                Lean::Dead(name),
            )
                    &&& other is Continue ==> forall|name: Symbol| !#[trigger] leant_on(
                functions,
                types,
                region,
                candidates,
                parts,
                outcomes,
                count,
                Lean::Dead(name),
            )
                },
            }
        }),
{
    let parts = region.parts(expr);
    candidates_need_what_could_decide(
        functions,
        types,
        region,
        candidates,
        parts,
        outcomes,
        candidates.len(),
    );
    let found = relaxed_upto(
        functions,
        types,
        region,
        candidates,
        parts,
        outcomes,
        candidates.len(),
    );
    if let Some(own) = pending {
        let first = seq![own];
        assert(first.no_duplicates());
        more_are_gathered(first, found.parked);
        assert forall|source: ProducerId| #[trigger] first.contains(source) <==> source == own by {
            assert(first[0] == own);
        }
    } else if found.parked.len() == 0 {
        assert forall|source: ProducerId|
            !#[trigger] leant_on(
                functions,
                types,
                region,
                candidates,
                parts,
                outcomes,
                candidates.len() as int,
                Lean::Parked(source),
            ) by {
            assert(!found.parked.contains(source));
        }
    }
}

} // verus!
