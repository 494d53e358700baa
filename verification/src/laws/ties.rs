//! Laws of calls that are not resolved: how many callables are tied, and when quoting an argument
//! would help.

use crate::ast::{key_of, Spanned};
use crate::decide::resolve as names;
use crate::decide::resolve_dispatch as decided;
use crate::dispatch::bare_name::NameView;
use crate::dispatch::resolve_dispatch as dispatched;
use crate::function::{Functions, SignatureElement};
use crate::ktype::{KType, TypeRegistry};
use crate::region::RegionView;
use crate::scope::{cutoff_in, LexicalFrame, ScopeLevel};
use crate::value::{ExprId, FnId};
use vstd::prelude::*;

verus! {

/// How many of the first `upto` places are marked.
pub open spec fn marked(marks: Seq<bool>, upto: nat) -> nat
    decreases upto,
{
    if upto == 0 {
        0
    } else {
        marked(marks, (upto - 1) as nat) + if marks[upto - 1] {
            1nat
        } else {
            0
        }
    }
}

/// Which candidates take a call.
pub open spec fn takers(
    functions: &Functions,
    types: &TypeRegistry,
    region: RegionView,
    candidates: Seq<FnId>,
    parts: Seq<Spanned>,
    outcomes: Seq<Option<names::Resolution>>,
) -> Seq<bool> {
    candidates.map_values(
        |candidate: FnId|
            decided::signature_admits(
                types,
                region,
                functions.signature(candidate),
                parts,
                outcomes,
            ),
    )
}

proof fn survivors_are_counted(
    functions: &Functions,
    types: &TypeRegistry,
    region: RegionView,
    candidates: Seq<FnId>,
    parts: Seq<Spanned>,
    outcomes: Seq<Option<names::Resolution>>,
    upto: nat,
)
    requires
        upto <= candidates.len(),
    ensures
        decided::survivors_upto(
            functions,
            types,
            region,
            candidates,
            parts,
            outcomes,
            upto,
        ).len() == marked(takers(functions, types, region, candidates, parts, outcomes), upto),
        marked(takers(functions, types, region, candidates, parts, outcomes), upto) <= upto,
    decreases upto,
{
    if upto > 0 {
        survivors_are_counted(
            functions,
            types,
            region,
            candidates,
            parts,
            outcomes,
            (upto - 1) as nat,
        );
    }
}

/// A level whose overloads are tied makes the call ambiguous among as many callables as take it,
/// and at least two do.
pub proof fn ties_count_every_taker(
    functions: &Functions,
    types: &TypeRegistry,
    region: RegionView,
    candidates: Seq<FnId>,
    parts: Seq<Spanned>,
    outcomes: Seq<Option<names::Resolution>>,
)
    requires
        candidates.len() <= usize::MAX,
    ensures
        decided::scope_decision(
            functions,
            types,
            region,
            candidates,
            None,
            parts,
            outcomes,
        ) matches decided::DecisionView::Terminal(decided::DispatchView::Ambiguous(n)) ==> n
            == marked(
            takers(functions, types, region, candidates, parts, outcomes),
            candidates.len(),
        ) && n >= 2,
{
    survivors_are_counted(
        functions,
        types,
        region,
        candidates,
        parts,
        outcomes,
        candidates.len(),
    );
    let survivors = decided::survivors_upto(
        functions,
        types,
        region,
        candidates,
        parts,
        outcomes,
        candidates.len(),
    );
    let sigs = decided::signatures_at(functions, candidates, survivors);
    if survivors.len() == 1 {
        assert(crate::function::is_most_specific(types, sigs, 0));
    }
}

/// Which candidates take a call of a slot that evaluates its parts on demand.
pub open spec fn slot_takers(
    functions: &Functions,
    types: &TypeRegistry,
    region: RegionView,
    candidates: Seq<FnId>,
    parts: Seq<Spanned>,
    outcomes: Seq<Option<NameView>>,
) -> Seq<bool> {
    candidates.map_values(
        |candidate: FnId|
            dispatched::signature_admits(
                types,
                region,
                functions.signature(candidate),
                parts,
                outcomes,
            ),
    )
}

proof fn slot_survivors_are_counted(
    functions: &Functions,
    types: &TypeRegistry,
    region: RegionView,
    candidates: Seq<FnId>,
    parts: Seq<Spanned>,
    outcomes: Seq<Option<NameView>>,
    upto: nat,
)
    requires
        upto <= candidates.len(),
    ensures
        dispatched::survivors_upto(
            functions,
            types,
            region,
            candidates,
            parts,
            outcomes,
            upto,
        ).len() == marked(slot_takers(functions, types, region, candidates, parts, outcomes), upto),
        marked(slot_takers(functions, types, region, candidates, parts, outcomes), upto) <= upto,
    decreases upto,
{
    if upto > 0 {
        slot_survivors_are_counted(
            functions,
            types,
            region,
            candidates,
            parts,
            outcomes,
            (upto - 1) as nat,
        );
    }
}

/// A level whose overloads are tied makes a slot's call ambiguous among as many callables as take
/// it, and at least two do. A call with parts that are yet to be evaluated is never ambiguous.
pub proof fn slot_ties_count_every_taker(
    functions: &Functions,
    types: &TypeRegistry,
    region: RegionView,
    candidates: Seq<FnId>,
    expr: ExprId,
    outcomes: Seq<Option<NameView>>,
)
    requires
        candidates.len() <= usize::MAX,
    ensures
        dispatched::scope_decision(
            functions,
            types,
            region,
            candidates,
            None,
            expr,
            outcomes,
        ) matches dispatched::DecisionView::Terminal(dispatched::DispatchView::Ambiguous(n)) ==> n
            == marked(
            slot_takers(functions, types, region, candidates, region.parts(expr), outcomes),
            candidates.len(),
        ) && n >= 2 && forall|i: int|
            0 <= i < region.parts(expr).len() ==> !crate::decide::staging::is_eager_slot(
                (#[trigger] region.parts(expr)[i]).value,
            ),
{
    let parts = region.parts(expr);
    slot_survivors_are_counted(
        functions,
        types,
        region,
        candidates,
        parts,
        outcomes,
        candidates.len(),
    );
    let survivors = dispatched::survivors_upto(
        functions,
        types,
        region,
        candidates,
        parts,
        outcomes,
        candidates.len(),
    );
    let sigs = decided::signatures_at(functions, candidates, survivors);
    if survivors.len() == 1 {
        assert(crate::function::is_most_specific(types, sigs, 0));
    }
}

/// Whether parameter `i` of a signature takes code, and the call has something else there.
pub open spec fn wants_code(
    types: &TypeRegistry,
    region: RegionView,
    elements: Seq<SignatureElement>,
    parts: Seq<Spanned>,
    outcomes: Seq<Option<names::Resolution>>,
    i: int,
) -> bool {
    &&& 0 <= i < elements.len()
    &&& i < parts.len()
    &&& elements[i] matches SignatureElement::Argument(own) && own.ktype == KType::KExpression
    &&& decided::holds_non_code(
        types,
        region,
        parts[i].value,
        if i < outcomes.len() {
            outcomes[i]
        } else {
            None
        },
    )
}

/// Whether a callable that is visible at a level under the key of the call wants code at some place
/// where the call has something else.
pub open spec fn level_wants_code(
    functions: &Functions,
    types: &TypeRegistry,
    region: RegionView,
    level: ScopeLevel,
    chain: Option<&LexicalFrame>,
    parts: Seq<Spanned>,
    outcomes: Seq<Option<names::Resolution>>,
) -> bool {
    let candidates = ScopeLevel::overloads_at(
        level.overloads@,
        key_of(parts),
        cutoff_in(chain, level.id),
    );
    exists|f: int, i: int|
        0 <= f < candidates.len() && #[trigger] wants_code(
            types,
            region,
            functions.signature(candidates[f]),
            parts,
            outcomes,
            i,
        )
}

/// Quoting an argument would help exactly when at some level a callable wants code where the call
/// has something else.
pub proof fn quoting_helps_where_code_is_wanted(
    functions: &Functions,
    types: &TypeRegistry,
    region: RegionView,
    levels: Seq<ScopeLevel>,
    chain: Option<&LexicalFrame>,
    parts: Seq<Spanned>,
    outcomes: Seq<Option<names::Resolution>>,
)
    ensures
        decided::quote_helps(functions, types, region, levels, chain, parts, outcomes) <==> exists|
            l: int,
        |
            0 <= l < levels.len() && level_wants_code(
                functions,
                types,
                region,
                #[trigger] levels[l],
                chain,
                parts,
                outcomes,
            ),
    decreases levels.len(),
{
    if levels.len() > 0 {
        let rest = levels.drop_last();
        let last = levels.len() - 1;
        let own = levels.last();
        assert(levels[last] == own);
        quoting_helps_where_code_is_wanted(
            functions,
            types,
            region,
            rest,
            chain,
            parts,
            outcomes,
        );
        let candidates = ScopeLevel::overloads_at(
            own.overloads@,
            key_of(parts),
            cutoff_in(chain, own.id),
        );
        assert forall|f: int, i: int|
            #![trigger wants_code(
                types,
                region,
                functions.signature(candidates[f]),
                parts,
                outcomes,
                i,
            )]
            #![trigger decided::quote_helps_at(
                types,
                region,
                functions.signature(candidates[f]),
                parts,
                outcomes,
                i,
            )]
            wants_code(
                types,
                region,
                functions.signature(candidates[f]),
                parts,
                outcomes,
                i,
            ) == decided::quote_helps_at(
                types,
                region,
                functions.signature(candidates[f]),
                parts,
                outcomes,
                i,
            ) by {}
        if exists|l: int|
            0 <= l < rest.len() && level_wants_code(
                functions,
                types,
                region,
                #[trigger] rest[l],
                chain,
                parts,
                outcomes,
            ) {
            let l = choose|l: int|
                0 <= l < rest.len() && level_wants_code(
                    functions,
                    types,
                    region,
                    #[trigger] rest[l],
                    chain,
                    parts,
                    outcomes,
                );
            assert(levels[l] == rest[l]);
        }
        if exists|l: int|
            0 <= l < levels.len() && level_wants_code(
                functions,
                types,
                region,
                #[trigger] levels[l],
                chain,
                parts,
                outcomes,
            ) {
            let l = choose|l: int|
                0 <= l < levels.len() && level_wants_code(
                    functions,
                    types,
                    region,
                    #[trigger] levels[l],
                    chain,
                    parts,
                    outcomes,
                );
            if l < last {
                assert(rest[l] == levels[l]);
            }
        }
    }
}

} // verus!
