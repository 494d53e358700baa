//! Laws of waiting: a call that cannot be resolved yet waits for exactly the producers that could
//! still decide it, each once.

use crate::ast::{keywords_of, ExpressionPart, KeyElement, Spanned, WorkingPart};
use crate::decide::operator_chain::{
    chain_decided, distinct, operator_claims, with_claims, with_symbol,
};
use crate::decide::resolve::Resolution;
use crate::decide::resolve_dispatch::{
    dispatch_of, leans_of, leans_upto, parked_leans, parked_upto, relaxed_upto, scope_decision,
    slot_admits, strict_pick, with_all_new, DecisionView, DispatchView, Lean,
};
use crate::decide::DecideCtx;
use crate::function::{Functions, SignatureElement};
use crate::ktype::TypeRegistry;
use crate::outcome::{producer_deps, ContinuationView, Dep, OutcomeView, ParkDepsView, Resume};
use crate::region::RegionView;
use crate::scope::{cutoff_in, group_in, LexicalFrame, ScopeLevel};
use crate::symbol::Symbol;
use crate::value::{with_new, ExprId, FnId, ProducerId};
use vstd::prelude::*;

verus! {

/// Keeping producers apart adds one exactly where it is new.
pub proof fn producers_are_added_once(before: Seq<ProducerId>, source: ProducerId)
    requires
        before.no_duplicates(),
    ensures
        with_new(before, source).no_duplicates(),
        forall|other: ProducerId| #[trigger]
            with_new(before, source).contains(other) <==> before.contains(other) || other == source,
        with_new(before, source).len() > 0,
{
    let after = with_new(before, source);
    if !before.contains(source) {
        assert(after == before.push(source));
        assert(after[before.len() as int] == source);
        assert forall|other: ProducerId| before.contains(other) implies after.contains(other) by {
            let k = choose|k: int| 0 <= k < before.len() && before[k] == other;
            assert(after[k] == other);
        }
        assert forall|other: ProducerId| after.contains(other) && other
            != source implies before.contains(other) by {
            let k = choose|k: int| 0 <= k < after.len() && after[k] == other;
            assert(before[k] == other);
        }
    }
}

/// Whether slot `i` of a call holds a name that `source` has yet to bind and that the call has to
/// know: not the name that it declares, nor, in a declaration, the name of a type.
pub open spec fn awaits_name(
    region: RegionView,
    expr: ExprId,
    outcomes: Seq<Option<Resolution>>,
    i: int,
    source: ProducerId,
) -> bool {
    &&& 0 <= i < outcomes.len()
    &&& outcomes[i] == Some(Resolution::Parked(source))
    &&& region.meta(expr).plan is Some ==> region.name_slot(expr) != Some(i as usize) && !(
    region.parts(expr)[i].value matches WorkingPart::Ast(ExpressionPart::Type(_)))
}

proof fn unlanded_are_gathered(
    region: RegionView,
    expr: ExprId,
    outcomes: Seq<Option<Resolution>>,
    upto: nat,
)
    ensures
        ({
            let parked = parked_upto(region, expr, outcomes, upto);
            &&& parked.no_duplicates()
            &&& forall|source: ProducerId| #[trigger]
                parked.contains(source) <==> exists|i: int|
                    0 <= i < upto && #[trigger] awaits_name(region, expr, outcomes, i, source)
        }),
    decreases upto,
{
    if upto > 0 {
        let at = (upto - 1) as int;
        unlanded_are_gathered(region, expr, outcomes, at as nat);
        let earlier = parked_upto(region, expr, outcomes, at as nat);
        let parked = parked_upto(region, expr, outcomes, upto);
        if at < outcomes.len() {
            if let Some(Resolution::Parked(own)) = outcomes[at] {
                producers_are_added_once(earlier, own);
            }
        }
        assert forall|source: ProducerId| #[trigger] parked.contains(source) <==> exists|i: int|
            0 <= i < upto && #[trigger] awaits_name(region, expr, outcomes, i, source) by {
            if earlier.contains(source) {
                let i = choose|i: int|
                    0 <= i < at && #[trigger] awaits_name(region, expr, outcomes, i, source);
                assert(awaits_name(region, expr, outcomes, i, source));
            }
            if parked.contains(source) && !earlier.contains(source) {
                assert(awaits_name(region, expr, outcomes, at, source));
            }
            if exists|i: int|
                0 <= i < upto && #[trigger] awaits_name(region, expr, outcomes, i, source) {
                let i = choose|i: int|
                    0 <= i < upto && #[trigger] awaits_name(region, expr, outcomes, i, source);
                if i < at {
                    assert(awaits_name(region, expr, outcomes, i, source));
                    assert(earlier.contains(source));
                }
            }
        }
    }
}

/// A call with names that are yet to be bound waits for exactly their producers, each once, before
/// any callable is looked at.
pub proof fn calls_wait_for_their_names_first(
    functions: &Functions,
    types: &TypeRegistry,
    region: RegionView,
    levels: Seq<ScopeLevel>,
    chain: Option<&LexicalFrame>,
    expr: ExprId,
    outcomes: Seq<Option<Resolution>>,
)
    ensures
        (exists|i: int, source: ProducerId|
            0 <= i < region.parts(expr).len() && #[trigger] awaits_name(
                region,
                expr,
                outcomes,
                i,
                source,
            )) ==> (dispatch_of(
            functions,
            types,
            region,
            levels,
            chain,
            expr,
            outcomes,
        ) matches DispatchView::ParkOnProducers(sources) && sources.no_duplicates() && forall|
            source: ProducerId,
        | #[trigger]
            sources.contains(source) <==> exists|i: int|
                0 <= i < region.parts(expr).len() && #[trigger] awaits_name(
                    region,
                    expr,
                    outcomes,
                    i,
                    source,
                )),
{
    let count = region.parts(expr).len();
    unlanded_are_gathered(region, expr, outcomes, count);
    if exists|i: int, source: ProducerId|
        0 <= i < count && #[trigger] awaits_name(region, expr, outcomes, i, source) {
        let (i, source) = choose|i: int, source: ProducerId|
            0 <= i < count && #[trigger] awaits_name(region, expr, outcomes, i, source);
        assert(parked_upto(region, expr, outcomes, count).contains(source));
    }
}

/// Whether slot `i` of a call is not admitted by its element.
pub open spec fn unadmitted(
    types: &TypeRegistry,
    region: RegionView,
    elements: Seq<SignatureElement>,
    parts: Seq<Spanned>,
    outcomes: Seq<Option<Resolution>>,
    i: int,
) -> bool {
    !slot_admits(
        types,
        region,
        elements[i],
        parts[i].value,
        if i < outcomes.len() {
            outcomes[i]
        } else {
            None
        },
    )
}

/// Whether slot `i` of a call could still be admitted: its name is yet to be bound, or unbound.
pub open spec fn leans_on_name(outcomes: Seq<Option<Resolution>>, i: int) -> bool {
    i < outcomes.len() && (outcomes[i] matches Some(Resolution::Parked(_))
        || outcomes[i] matches Some(Resolution::Unbound(_)))
}

/// A signature could still take a call exactly when each slot that it does not admit holds a name
/// that is yet to be bound, or unbound. It then leans on exactly those names.
pub proof fn signatures_lean_on_what_they_miss(
    types: &TypeRegistry,
    region: RegionView,
    elements: Seq<SignatureElement>,
    parts: Seq<Spanned>,
    outcomes: Seq<Option<Resolution>>,
    upto: nat,
)
    ensures
        leans_upto(types, region, elements, parts, outcomes, upto) is Some <==> forall|i: int|
            0 <= i < upto && #[trigger] unadmitted(types, region, elements, parts, outcomes, i)
                ==> leans_on_name(outcomes, i),
        leans_upto(types, region, elements, parts, outcomes, upto) matches Some(leans) ==> {
            &&& forall|source: ProducerId| #[trigger]
                leans.contains(Lean::Parked(source)) <==> exists|i: int|
                    0 <= i < upto && #[trigger] unadmitted(
                        types,
                        region,
                        elements,
                        parts,
                        outcomes,
                        i,
                    ) && i < outcomes.len() && outcomes[i] == Some(Resolution::Parked(source))
            &&& forall|name: Symbol, role: Option<Symbol>| #[trigger]
                leans.contains(Lean::Dead(name, role)) <==> exists|i: int|
                    0 <= i < upto && #[trigger] unadmitted(
                        types,
                        region,
                        elements,
                        parts,
                        outcomes,
                        i,
                    ) && i < outcomes.len() && outcomes[i] == Some(Resolution::Unbound(name))
                        && role == if elements[i] is Argument {
                        elements[i]->Argument_0.role
                    } else {
                        None
                    }
        },
    decreases upto,
{
    if upto > 0 {
        let at = (upto - 1) as int;
        signatures_lean_on_what_they_miss(types, region, elements, parts, outcomes, at as nat);
        let earlier = leans_upto(types, region, elements, parts, outcomes, at as nat);
        let all = leans_upto(types, region, elements, parts, outcomes, upto);
        let own = unadmitted(types, region, elements, parts, outcomes, at);
        if earlier is Some && all is Some {
            let before = earlier->0;
            let leans = all->0;
            assert forall|lean: Lean| #[trigger] leans.contains(lean) <==> before.contains(lean) || (
            own && leans.len() > before.len() && lean == leans.last()) by {
                if before.contains(lean) {
                    let k = choose|k: int| 0 <= k < before.len() && before[k] == lean;
                    assert(leans[k] == lean);
                }
                if leans.contains(lean) && !before.contains(lean) {
                    let k = choose|k: int| 0 <= k < leans.len() && leans[k] == lean;
                    if k < before.len() {
                        assert(before[k] == lean);
                    }
                }
                if own && leans.len() > before.len() {
                    assert(leans[before.len() as int] == leans.last());
                }
            }
            assert forall|source: ProducerId| #[trigger]
                leans.contains(Lean::Parked(source)) <==> exists|i: int|
                    0 <= i < upto && #[trigger] unadmitted(
                        types,
                        region,
                        elements,
                        parts,
                        outcomes,
                        i,
                    ) && i < outcomes.len() && outcomes[i] == Some(
                        Resolution::Parked(source),
                    ) by {
                if before.contains(Lean::Parked(source)) {
                    let i = choose|i: int|
                        0 <= i < at && #[trigger] unadmitted(
                            types,
                            region,
                            elements,
                            parts,
                            outcomes,
                            i,
                        ) && i < outcomes.len() && outcomes[i] == Some(Resolution::Parked(source));
                    assert(unadmitted(types, region, elements, parts, outcomes, i));
                }
            }
            assert forall|name: Symbol, role: Option<Symbol>| #[trigger]
                leans.contains(Lean::Dead(name, role)) <==> exists|i: int|
                    0 <= i < upto && #[trigger] unadmitted(
                        types,
                        region,
                        elements,
                        parts,
                        outcomes,
                        i,
                    ) && i < outcomes.len() && outcomes[i] == Some(Resolution::Unbound(name))
                        && role == if elements[i] is Argument {
                        elements[i]->Argument_0.role
                    } else {
                        None
                    } by {
                if before.contains(Lean::Dead(name, role)) {
                    let i = choose|i: int|
                        0 <= i < at && #[trigger] unadmitted(
                            types,
                            region,
                            elements,
                            parts,
                            outcomes,
                            i,
                        ) && i < outcomes.len() && outcomes[i] == Some(Resolution::Unbound(name))
                            && role == if elements[i] is Argument {
                            elements[i]->Argument_0.role
                        } else {
                            None
                        };
                    assert(unadmitted(types, region, elements, parts, outcomes, i));
                }
            }
        }
        if earlier is Some {
            assert(all is Some <==> (own ==> leans_on_name(outcomes, at)));
        } else {
            assert(all is None);
        }
    }
}

proof fn leans_are_gathered(sources: Seq<ProducerId>, leans: Seq<Lean>)
    requires
        sources.no_duplicates(),
    ensures
        parked_leans(sources, leans).no_duplicates(),
        forall|source: ProducerId| #[trigger]
            parked_leans(sources, leans).contains(source) <==> sources.contains(source)
                || leans.contains(Lean::Parked(source)),
    decreases leans.len(),
{
    if leans.len() > 0 {
        let rest = leans.drop_last();
        let last = leans.len() - 1;
        leans_are_gathered(sources, rest);
        let earlier = parked_leans(sources, rest);
        if let Lean::Parked(own) = leans.last() {
            producers_are_added_once(earlier, own);
        }
        assert forall|source: ProducerId| #[trigger]
            leans.contains(Lean::Parked(source)) <==> rest.contains(Lean::Parked(source))
                || leans.last() == Lean::Parked(source) by {
            if rest.contains(Lean::Parked(source)) {
                let k = choose|k: int| 0 <= k < rest.len() && rest[k] == Lean::Parked(source);
                assert(leans[k] == Lean::Parked(source));
            }
            if leans.contains(Lean::Parked(source)) {
                let k = choose|k: int| 0 <= k < leans.len() && leans[k] == Lean::Parked(source);
                if k < last {
                    assert(rest[k] == Lean::Parked(source));
                }
            }
            if leans.last() == Lean::Parked(source) {
                assert(leans[last] == Lean::Parked(source));
            }
        }
    }
}

/// Whether a candidate could still take a call once `source` has bound a name of it.
pub open spec fn could_take_after(
    functions: &Functions,
    types: &TypeRegistry,
    region: RegionView,
    candidate: FnId,
    parts: Seq<Spanned>,
    outcomes: Seq<Option<Resolution>>,
    source: ProducerId,
) -> bool {
    leans_of(types, region, functions.signature(candidate), parts, outcomes) matches Some(leans)
        && leans.contains(Lean::Parked(source))
}

/// Whether some candidate could still take a call once `source` has bound a name of it.
pub open spec fn decides(
    functions: &Functions,
    types: &TypeRegistry,
    region: RegionView,
    candidates: Seq<FnId>,
    parts: Seq<Spanned>,
    outcomes: Seq<Option<Resolution>>,
    source: ProducerId,
) -> bool {
    exists|c: int|
        0 <= c < candidates.len() && #[trigger] could_take_after(
            functions,
            types,
            region,
            candidates[c],
            parts,
            outcomes,
            source,
        )
}

/// The producers that a set of candidates waits for are exactly those after which some candidate
/// could still take the call, each once.
pub proof fn candidates_wait_for_what_could_decide(
    functions: &Functions,
    types: &TypeRegistry,
    region: RegionView,
    candidates: Seq<FnId>,
    parts: Seq<Spanned>,
    outcomes: Seq<Option<Resolution>>,
    upto: nat,
)
    ensures
        ({
            let found = relaxed_upto(functions, types, region, candidates, parts, outcomes, upto);
            &&& found.parked.no_duplicates()
            &&& forall|source: ProducerId| #[trigger]
                found.parked.contains(source) <==> exists|c: int|
                    0 <= c < upto && #[trigger] could_take_after(
                        functions,
                        types,
                        region,
                        candidates[c],
                        parts,
                        outcomes,
                        source,
                    )
        }),
    decreases upto,
{
    if upto > 0 {
        let at = (upto - 1) as int;
        candidates_wait_for_what_could_decide(
            functions,
            types,
            region,
            candidates,
            parts,
            outcomes,
            at as nat,
        );
        let earlier = relaxed_upto(
            functions,
            types,
            region,
            candidates,
            parts,
            outcomes,
            at as nat,
        );
        let found = relaxed_upto(functions, types, region, candidates, parts, outcomes, upto);
        if let Some(leans) = leans_of(
            types,
            region,
            functions.signature(candidates[at]),
            parts,
            outcomes,
        ) {
            leans_are_gathered(earlier.parked, leans);
        }
        assert forall|source: ProducerId| #[trigger]
            found.parked.contains(source) <==> exists|c: int|
                0 <= c < upto && #[trigger] could_take_after(
                    functions,
                    types,
                    region,
                    candidates[c],
                    parts,
                    outcomes,
                    source,
                ) by {
            if earlier.parked.contains(source) {
                let c = choose|c: int|
                    0 <= c < at && #[trigger] could_take_after(
                        functions,
                        types,
                        region,
                        candidates[c],
                        parts,
                        outcomes,
                        source,
                    );
                assert(could_take_after(
                    functions,
                    types,
                    region,
                    candidates[c],
                    parts,
                    outcomes,
                    source,
                ));
            }
            if found.parked.contains(source) && !earlier.parked.contains(source) {
                assert(could_take_after(
                    functions,
                    types,
                    region,
                    candidates[at],
                    parts,
                    outcomes,
                    source,
                ));
            }
            if exists|c: int|
                0 <= c < upto && #[trigger] could_take_after(
                    functions,
                    types,
                    region,
                    candidates[c],
                    parts,
                    outcomes,
                    source,
                ) {
                let c = choose|c: int|
                    0 <= c < upto && #[trigger] could_take_after(
                        functions,
                        types,
                        region,
                        candidates[c],
                        parts,
                        outcomes,
                        source,
                    );
                if c < at {
                    assert(earlier.parked.contains(source));
                }
            }
        }
    }
}

/// Adding several producers adds exactly those that are new, each once.
pub proof fn more_are_gathered(sources: Seq<ProducerId>, more: Seq<ProducerId>)
    requires
        sources.no_duplicates(),
    ensures
        with_all_new(sources, more).no_duplicates(),
        forall|source: ProducerId| #[trigger]
            with_all_new(sources, more).contains(source) <==> sources.contains(source)
                || more.contains(source),
    decreases more.len(),
{
    if more.len() > 0 {
        let rest = more.drop_last();
        let last = more.len() - 1;
        more_are_gathered(sources, rest);
        producers_are_added_once(with_all_new(sources, rest), more.last());
        assert forall|source: ProducerId| #[trigger] more.contains(source) <==> rest.contains(source)
            || more.last() == source by {
            if rest.contains(source) {
                let k = choose|k: int| 0 <= k < rest.len() && rest[k] == source;
                assert(more[k] == source);
            }
            if more.contains(source) {
                let k = choose|k: int| 0 <= k < more.len() && more[k] == source;
                if k < last {
                    assert(rest[k] == source);
                }
            }
            if more.last() == source {
                assert(more[last] == source);
            }
        }
    }
}

/// A level at which an overload is about to be registered is waited for, together with whatever
/// could still decide among those it has. A level without one that has no taker waits for what could
/// still decide, where there is anything.
pub proof fn levels_wait_for_what_could_decide(
    functions: &Functions,
    types: &TypeRegistry,
    region: RegionView,
    candidates: Seq<FnId>,
    pending: Option<ProducerId>,
    parts: Seq<Spanned>,
    outcomes: Seq<Option<Resolution>>,
)
    ensures
        ({
            let decision = scope_decision(
                functions,
                types,
                region,
                candidates,
                pending,
                parts,
                outcomes,
            );
            &&& pending matches Some(own) ==> (decision matches DecisionView::Terminal(
                DispatchView::ParkOnProducers(sources),
            ) && sources.no_duplicates() && forall|source: ProducerId| #[trigger]
                sources.contains(source) <==> source == own || decides(
                functions,
                types,
                region,
                candidates,
                parts,
                outcomes,
                source,
            ))
            &&& pending is None && strict_pick(
                functions,
                types,
                region,
                candidates,
                parts,
                outcomes,
            ) is Empty ==> match decision {
                DecisionView::Terminal(outcome) => outcome matches DispatchView::ParkOnProducers(
                    sources,
                ) && sources.len() > 0 && sources.no_duplicates() && forall|source: ProducerId|
                    #[trigger]
                    sources.contains(source) <==> decides(
                functions,
                types,
                region,
                candidates,
                parts,
                outcomes,
                source,
            ),
                _ => forall|source: ProducerId| !#[trigger] decides(
                functions,
                types,
                region,
                candidates,
                parts,
                outcomes,
                source,
            ),
            }
        }),
{
    candidates_wait_for_what_could_decide(
        functions,
        types,
        region,
        candidates,
        parts,
        outcomes,
        candidates.len(),
    );
    let found = relaxed_upto(
        functions,
        types,
        region,
        candidates,
        parts,
        outcomes,
        candidates.len(),
    );
    if let Some(own) = pending {
        let first = seq![own];
        assert(first.no_duplicates());
        more_are_gathered(first, found.parked);
        assert forall|source: ProducerId| #[trigger] first.contains(source) <==> source == own by {
            assert(first[0] == own);
        }
    } else if found.parked.len() == 0 {
        assert forall|source: ProducerId| !#[trigger] decides(
            functions,
            types,
            region,
            candidates,
            parts,
            outcomes,
            source,
        ) by {
            assert(!found.parked.contains(source));
        }
    }
}

proof fn symbols_are_kept_apart(symbols: Seq<Symbol>, symbol: Symbol)
    requires
        forall|i: int, j: int|
            0 <= i < j < symbols.len() ==> (#[trigger] symbols[i]).id < (#[trigger] symbols[j]).id,
    ensures
        ({
            let after = with_symbol(symbols, symbol);
            &&& forall|i: int, j: int|
                0 <= i < j < after.len() ==> (#[trigger] after[i]).id < (#[trigger] after[j]).id
            &&& forall|other: Symbol| #[trigger]
                after.contains(other) <==> symbols.contains(other) || other == symbol
            &&& after.len() > 0
        }),
    decreases symbols.len(),
{
    let after = with_symbol(symbols, symbol);
    if symbols.len() == 0 {
        assert(after[0] == symbol);
    } else {
        let last = symbols.len() - 1;
        assert(symbols[last] == symbols.last());
        if symbols.last().id == symbol.id {
            assert(symbols[last] == symbol);
        } else if symbols.last().id < symbol.id {
            assert(after[symbols.len() as int] == symbol);
            assert forall|other: Symbol| #[trigger]
                after.contains(other) <==> symbols.contains(other) || other == symbol by {
                if symbols.contains(other) {
                    let k = choose|k: int| 0 <= k < symbols.len() && symbols[k] == other;
                    assert(after[k] == other);
                }
                if after.contains(other) && other != symbol {
                    let k = choose|k: int| 0 <= k < after.len() && after[k] == other;
                    assert(symbols[k] == other);
                }
            }
        } else {
            let rest = symbols.drop_last();
            assert forall|i: int, j: int| 0 <= i < j < rest.len() implies (
            #[trigger] rest[i]).id < (#[trigger] rest[j]).id by {
                assert(symbols[i].id < symbols[j].id);
            }
            symbols_are_kept_apart(rest, symbol);
            let inner = with_symbol(rest, symbol);
            assert(after == inner.push(symbols.last()));
            assert forall|i: int, j: int| 0 <= i < j < after.len() implies (
            #[trigger] after[i]).id < (#[trigger] after[j]).id by {
                assert(after[i] == inner[i]);
                if j < inner.len() {
                    assert(after[j] == inner[j]);
                } else {
                    assert(inner.contains(inner[i]));
                    if rest.contains(inner[i]) {
                        let k = choose|k: int| 0 <= k < rest.len() && rest[k] == inner[i];
                        assert(symbols[k].id < symbols[last].id);
                    }
                }
            }
            assert forall|other: Symbol| #[trigger]
                after.contains(other) <==> symbols.contains(other) || other == symbol by {
                if symbols.contains(other) {
                    let k = choose|k: int| 0 <= k < symbols.len() && symbols[k] == other;
                    if k < last {
                        assert(rest[k] == other);
                        assert(inner.contains(other));
                        let m = choose|m: int| 0 <= m < inner.len() && inner[m] == other;
                        assert(after[m] == other);
                    } else {
                        assert(after[inner.len() as int] == other);
                    }
                }
                if other == symbol {
                    assert(inner.contains(other));
                    let m = choose|m: int| 0 <= m < inner.len() && inner[m] == other;
                    assert(after[m] == other);
                }
                if after.contains(other) && other != symbol {
                    let k = choose|k: int| 0 <= k < after.len() && after[k] == other;
                    if k < inner.len() {
                        assert(inner[k] == other);
                        assert(inner.contains(other));
                        let m = choose|m: int| 0 <= m < rest.len() && rest[m] == other;
                        assert(symbols[m] == other);
                    } else {
                        assert(symbols[last] == other);
                    }
                }
            }
        }
    }
}

/// The distinct operators of a chain are exactly its operators, each once and in the order of their
/// symbols.
pub proof fn operators_are_listed_once(symbols: Seq<Symbol>)
    ensures
        forall|i: int, j: int|
            0 <= i < j < distinct(symbols).len() ==> (#[trigger] distinct(symbols)[i]).id < (
            #[trigger] distinct(symbols)[j]).id,
        forall|symbol: Symbol| #[trigger]
            distinct(symbols).contains(symbol) <==> symbols.contains(symbol),
    decreases symbols.len(),
{
    if symbols.len() > 0 {
        let rest = symbols.drop_last();
        let last = symbols.len() - 1;
        operators_are_listed_once(rest);
        symbols_are_kept_apart(distinct(rest), symbols.last());
        assert forall|symbol: Symbol| #[trigger]
            distinct(symbols).contains(symbol) <==> symbols.contains(symbol) by {
            if symbols.contains(symbol) {
                let k = choose|k: int| 0 <= k < symbols.len() && symbols[k] == symbol;
                if k < last {
                    assert(rest[k] == symbol);
                    assert(rest.contains(symbol));
                }
            }
            if rest.contains(symbol) {
                let k = choose|k: int| 0 <= k < rest.len() && rest[k] == symbol;
                assert(symbols[k] == symbol);
            }
            if symbol == symbols.last() {
                assert(symbols[last] == symbol);
            }
        }
    }
}

/// Whether some level has a key claimed by `source`.
pub open spec fn claims_key_somewhere(
    levels: Seq<ScopeLevel>,
    key: Seq<KeyElement>,
    chain: Option<&LexicalFrame>,
    source: ProducerId,
) -> bool {
    exists|l: int|
        0 <= l < levels.len() && (#[trigger] levels[l]).claimed_key_at(
            key,
            cutoff_in(chain, levels[l].id),
        ) == Some(source)
}

proof fn claims_are_gathered(
    levels: Seq<ScopeLevel>,
    key: Seq<KeyElement>,
    chain: Option<&LexicalFrame>,
    sources: Seq<ProducerId>,
)
    requires
        sources.no_duplicates(),
    ensures
        with_claims(levels, key, chain, sources).no_duplicates(),
        forall|source: ProducerId| #[trigger]
            with_claims(levels, key, chain, sources).contains(source) <==> sources.contains(source)
                || claims_key_somewhere(levels, key, chain, source),
    decreases levels.len(),
{
    if levels.len() > 0 {
        let rest = levels.drop_last();
        let last = levels.len() - 1;
        assert(levels[last] == levels.last());
        let own = levels.last().claimed_key_at(key, cutoff_in(chain, levels.last().id));
        let next = match own {
            Some(source) => with_new(sources, source),
            None => sources,
        };
        if let Some(source) = own {
            producers_are_added_once(sources, source);
        }
        claims_are_gathered(rest, key, chain, next);
        assert forall|source: ProducerId|
            claims_key_somewhere(levels, key, chain, source) <==> own == Some(source)
                || #[trigger] claims_key_somewhere(rest, key, chain, source) by {
            if claims_key_somewhere(rest, key, chain, source) {
                let l = choose|l: int|
                    0 <= l < rest.len() && (#[trigger] rest[l]).claimed_key_at(
                        key,
                        cutoff_in(chain, rest[l].id),
                    ) == Some(source);
                assert(levels[l] == rest[l]);
            }
            if claims_key_somewhere(levels, key, chain, source) {
                let l = choose|l: int|
                    0 <= l < levels.len() && (#[trigger] levels[l]).claimed_key_at(
                        key,
                        cutoff_in(chain, levels[l].id),
                    ) == Some(source);
                if l < last {
                    assert(rest[l] == levels[l]);
                }
            }
            if own == Some(source) {
                assert(levels[last].claimed_key_at(key, cutoff_in(chain, levels[last].id)) == Some(
                    source,
                ));
            }
        }
    }
}

/// Whether `source` is about to register an operator, between two operands or in front of one.
pub open spec fn registers_operator(
    levels: Seq<ScopeLevel>,
    chain: Option<&LexicalFrame>,
    operator: Symbol,
    source: ProducerId,
) -> bool {
    ||| claims_key_somewhere(
        levels,
        seq![KeyElement::Slot, KeyElement::Keyword(operator), KeyElement::Slot],
        chain,
        source,
    )
    ||| claims_key_somewhere(
        levels,
        seq![KeyElement::Keyword(operator), KeyElement::Slot],
        chain,
        source,
    )
}

/// Whether `source` is about to register one of the operators.
pub open spec fn registers_one(
    levels: Seq<ScopeLevel>,
    chain: Option<&LexicalFrame>,
    operators: Seq<Symbol>,
    source: ProducerId,
) -> bool {
    exists|o: int|
        0 <= o < operators.len() && registers_operator(
            levels,
            chain,
            #[trigger] operators[o],
            source,
        )
}

proof fn operators_are_gathered(
    levels: Seq<ScopeLevel>,
    chain: Option<&LexicalFrame>,
    operators: Seq<Symbol>,
)
    ensures
        operator_claims(levels, chain, operators).no_duplicates(),
        forall|source: ProducerId| #[trigger]
            operator_claims(levels, chain, operators).contains(source) <==> exists|o: int|
                0 <= o < operators.len() && registers_operator(
                    levels,
                    chain,
                    #[trigger] operators[o],
                    source,
                ),
    decreases operators.len(),
{
    if operators.len() > 0 {
        let rest = operators.drop_last();
        let last = operators.len() - 1;
        let operator = operators.last();
        assert(operators[last] == operator);
        operators_are_gathered(levels, chain, rest);
        let earlier = operator_claims(levels, chain, rest);
        let binary = crate::decide::operator_chain::binary_key(operator);
        let unary = crate::decide::operator_chain::unary_key(operator);
        claims_are_gathered(levels, binary, chain, earlier);
        claims_are_gathered(levels, unary, chain, with_claims(levels, binary, chain, earlier));
        let all = operator_claims(levels, chain, operators);
        assert forall|source: ProducerId| #[trigger] all.contains(source) <==> exists|o: int|
            0 <= o < operators.len() && registers_operator(
                levels,
                chain,
                #[trigger] operators[o],
                source,
            ) by {
            assert(with_claims(levels, binary, chain, earlier).contains(source)
                <==> earlier.contains(source) || claims_key_somewhere(
                levels,
                binary,
                chain,
                source,
            ));
            if earlier.contains(source) {
                let o = choose|o: int|
                    0 <= o < rest.len() && registers_operator(
                        levels,
                        chain,
                        #[trigger] rest[o],
                        source,
                    );
                assert(operators[o] == rest[o]);
            }
            if all.contains(source) && !earlier.contains(source) {
                assert(registers_operator(levels, chain, operators[last], source));
            }
            if exists|o: int|
                0 <= o < operators.len() && registers_operator(
                    levels,
                    chain,
                    #[trigger] operators[o],
                    source,
                ) {
                let o = choose|o: int|
                    0 <= o < operators.len() && registers_operator(
                        levels,
                        chain,
                        #[trigger] operators[o],
                        source,
                    );
                if o < last {
                    assert(rest[o] == operators[o]);
                    assert(earlier.contains(source));
                }
            }
        }
    }
}

/// Whether what is awaited are exactly the producers that are about to register one of the
/// operators, each once.
pub open spec fn awaits_operators(
    levels: Seq<ScopeLevel>,
    chain: Option<&LexicalFrame>,
    operators: Seq<Symbol>,
    deps: Seq<Dep>,
) -> bool {
    &&& deps.no_duplicates()
    &&& forall|k: int| 0 <= k < deps.len() ==> #[trigger] deps[k] is Producer
    &&& forall|source: ProducerId| #[trigger]
        deps.contains(Dep::Producer(source)) <==> registers_one(levels, chain, operators, source)
}

/// A chain that no group answers waits for exactly the producers that are about to register one of
/// its operators, each once, and is then decided again. Where nobody is, it fails.
pub proof fn chains_wait_for_pending_operators(ctx: &DecideCtx, region: RegionView, expr: ExprId)
    requires
        group_in(ctx.scope.levels@, keywords_of(region.parts(expr)), ctx.chain) is None,
    ensures
        chain_decided(ctx, region, expr).1 == region,
        (forall|source: ProducerId|
            !#[trigger] registers_one(
                ctx.scope.levels@,
                ctx.chain,
                keywords_of(region.parts(expr)),
                source,
            )) ==> (chain_decided(ctx, region, expr).0 matches OutcomeView::Done(Err(error))
            && error.kind is DispatchFailed),
        (exists|source: ProducerId| #[trigger]
            registers_one(
                ctx.scope.levels@,
                ctx.chain,
                keywords_of(region.parts(expr)),
                source,
            )) ==> (chain_decided(ctx, region, expr).0 matches OutcomeView::Park {
            deps: ParkDepsView::List(deps),
            continuation,
            error_frame: Some(frame),
        } && continuation == ContinuationView::Resume(Resume::OperatorChain(expr)) && frame.label
            is OperatorChain && awaits_operators(
            ctx.scope.levels@,
            ctx.chain,
            keywords_of(region.parts(expr)),
            deps,
        )),
{
    let operators = keywords_of(region.parts(expr));
    let own = distinct(operators);
    operators_are_listed_once(operators);
    operators_are_gathered(ctx.scope.levels@, ctx.chain, own);
    let sources = operator_claims(ctx.scope.levels@, ctx.chain, own);
    assert forall|source: ProducerId| #[trigger] sources.contains(source) <==> registers_one(
        ctx.scope.levels@,
        ctx.chain,
        operators,
        source,
    ) by {
        if sources.contains(source) {
            let o = choose|o: int|
                0 <= o < own.len() && registers_operator(
                    ctx.scope.levels@,
                    ctx.chain,
                    #[trigger] own[o],
                    source,
                );
            assert(own.contains(own[o]));
            let p = choose|p: int| 0 <= p < operators.len() && operators[p] == own[o];
            assert(registers_operator(ctx.scope.levels@, ctx.chain, operators[p], source));
        }
        if exists|o: int|
            0 <= o < operators.len() && registers_operator(
                ctx.scope.levels@,
                ctx.chain,
                #[trigger] operators[o],
                source,
            ) {
            let o = choose|o: int|
                0 <= o < operators.len() && registers_operator(
                    ctx.scope.levels@,
                    ctx.chain,
                    #[trigger] operators[o],
                    source,
                );
            assert(operators.contains(operators[o]));
            assert(own.contains(operators[o]));
            let p = choose|p: int| 0 <= p < own.len() && own[p] == operators[o];
            assert(registers_operator(ctx.scope.levels@, ctx.chain, own[p], source));
        }
    }
    if sources.len() > 0 {
        assert(sources.contains(sources[0]));
    }
    let deps = producer_deps(sources);
    assert forall|source: ProducerId| #[trigger]
        deps.contains(Dep::Producer(source)) <==> sources.contains(source) by {
        if sources.contains(source) {
            let k = choose|k: int| 0 <= k < sources.len() && sources[k] == source;
            assert(deps[k] == Dep::Producer(source));
        }
        if deps.contains(Dep::Producer(source)) {
            let k = choose|k: int| 0 <= k < deps.len() && deps[k] == Dep::Producer(source);
            assert(sources[k] == source);
        }
    }
    assert forall|i: int, j: int| 0 <= i < deps.len() && 0 <= j < deps.len() && i != j implies deps[i]
        != deps[j] by {
        assert(sources[i] != sources[j]);
    }
    if exists|source: ProducerId| #[trigger]
        registers_one(ctx.scope.levels@, ctx.chain, operators, source) {
        let source = choose|source: ProducerId| #[trigger]
            registers_one(ctx.scope.levels@, ctx.chain, operators, source);
        assert(sources.contains(source));
    }
}

} // verus!
