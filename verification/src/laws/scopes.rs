//! Laws of lookup: a reader finds what is declared in front of it, innermost level first, and a
//! claim only where nothing is bound.

use crate::ktype::ScopeId;
use crate::scope::{
    cutoff_in, first_match, group_in, same_operators, value_in, visible, window_in, LexicalFrame,
    NameLookup, OperatorEntry, Position, ScopeLevel, ValueEntry, ValueState,
};
use crate::symbol::Symbol;
use crate::value::{Carried, ProducerId};
use vstd::prelude::*;

verus! {

/// What is found first is an item that was looked for, with none before it; nothing is found only
/// where no item is one.
pub proof fn found_is_first<T>(items: Seq<T>, p: spec_fn(T) -> bool)
    ensures
        match first_match(items, p) {
            Some(found) => exists|k: int|
                {
                    &&& 0 <= k < items.len()
                    &&& #[trigger] items[k] == found
                    &&& p(found)
                    &&& forall|j: int| 0 <= j < k ==> !p(#[trigger] items[j])
                },
            None => forall|j: int| 0 <= j < items.len() ==> !p(#[trigger] items[j]),
        },
    decreases items.len(),
{
    if items.len() > 0 {
        if p(items[0]) {
            assert(items[0] == first_match(items, p)->0);
        } else {
            let rest = items.drop_first();
            found_is_first(rest, p);
            match first_match(rest, p) {
                Some(found) => {
                    let k = choose|k: int|
                        {
                            &&& 0 <= k < rest.len()
                            &&& #[trigger] rest[k] == found
                            &&& p(found)
                            &&& forall|j: int| 0 <= j < k ==> !p(#[trigger] rest[j])
                        };
                    assert(items[k + 1] == found);
                    assert forall|j: int| 0 <= j < k + 1 implies !p(#[trigger] items[j]) by {
                        if j > 0 {
                            assert(items[j] == rest[j - 1]);
                        }
                    }
                },
                None => {
                    assert forall|j: int| 0 <= j < items.len() implies !p(#[trigger] items[j]) by {
                        if j > 0 {
                            assert(items[j] == rest[j - 1]);
                        }
                    }
                },
            }
        }
    }
}

/// A reader sees exactly what stands in front of its own position in a scope, and everything of a
/// scope that it has no position in.
pub proof fn readers_see_what_stands_in_front_of_them(
    frame: &LexicalFrame,
    scope: ScopeId,
    index: usize,
)
    ensures
        visible(index, cutoff_in(None, scope)),
        (forall|k: int| 0 <= k < frame.positions@.len() ==> (#[trigger] frame.positions@[k]).scope
            != scope) ==> visible(index, cutoff_in(Some(frame), scope)),
        forall|k: int|
            0 <= k < frame.positions@.len() && (#[trigger] frame.positions@[k]).scope == scope && (
            forall|j: int| 0 <= j < k ==> (#[trigger] frame.positions@[j]).scope != scope) ==> (
            visible(index, cutoff_in(Some(frame), scope)) <==> index < frame.positions@[k].index),
{
    let p = |position: Position| position.scope == scope;
    found_is_first(frame.positions@, p);
    if let Some(found) = first_match(frame.positions@, p) {
        let f = choose|f: int|
            {
                &&& 0 <= f < frame.positions@.len()
                &&& #[trigger] frame.positions@[f] == found
                &&& p(found)
                &&& forall|j: int| 0 <= j < f ==> !p(#[trigger] frame.positions@[j])
            };
        assert(p(frame.positions@[f]));
        assert forall|k: int|
            0 <= k < frame.positions@.len() && (#[trigger] frame.positions@[k]).scope == scope && (
            forall|j: int| 0 <= j < k ==> (#[trigger] frame.positions@[j]).scope
                != scope) implies k == f by {
            if k < f {
                assert(!p(frame.positions@[k]));
            } else if f < k {
                assert(frame.positions@[f].scope != scope);
            }
        }
    } else {
        assert forall|j: int| 0 <= j < frame.positions@.len() implies (
        #[trigger] frame.positions@[j]).scope != scope by {
            assert(!p(frame.positions@[j]));
        }
    }
}

/// Whether a level holds an entry of a value name that the reader sees.
pub open spec fn knows_value(level: ScopeLevel, name: Symbol, chain: Option<&LexicalFrame>) -> bool {
    exists|k: int|
        0 <= k < level.values@.len() && (#[trigger] level.values@[k]).name == name && visible(
            level.values@[k].index,
            cutoff_in(chain, level.id),
        )
}

/// Whether a level binds a value name to `carried` for the reader, ahead of every other binding of
/// the name there.
pub open spec fn binds_value_first(
    level: ScopeLevel,
    name: Symbol,
    chain: Option<&LexicalFrame>,
    carried: Carried,
) -> bool {
    exists|k: int|
        {
            &&& 0 <= k < level.values@.len()
            &&& (#[trigger] level.values@[k]).name == name
            &&& level.values@[k].state == ValueState::Bound(carried)
            &&& visible(level.values@[k].index, cutoff_in(chain, level.id))
            &&& forall|j: int|
                0 <= j < k && (#[trigger] level.values@[j]).name == name && visible(
                    level.values@[j].index,
                    cutoff_in(chain, level.id),
                ) ==> level.values@[j].state is Claimed
        }
}

/// Whether a level has a value name claimed by `source` for the reader, ahead of every other claim
/// on it there, and bound by nothing.
pub open spec fn claims_value_first(
    level: ScopeLevel,
    name: Symbol,
    chain: Option<&LexicalFrame>,
    source: ProducerId,
) -> bool {
    exists|k: int|
        {
            &&& 0 <= k < level.values@.len()
            &&& (#[trigger] level.values@[k]).name == name
            &&& level.values@[k].state == ValueState::Claimed(source)
            &&& visible(level.values@[k].index, cutoff_in(chain, level.id))
            &&& forall|j: int|
                0 <= j < level.values@.len() && (#[trigger] level.values@[j]).name == name
                    && visible(level.values@[j].index, cutoff_in(chain, level.id)) ==> j >= k
                    && level.values@[j].state is Claimed
        }
}

proof fn level_lookup(level: ScopeLevel, name: Symbol, chain: Option<&LexicalFrame>)
    ensures
        match level.value_at(name, cutoff_in(chain, level.id)) {
            Some(NameLookup::Bound(carried)) => binds_value_first(level, name, chain, carried),
            Some(NameLookup::Parked(source)) => claims_value_first(level, name, chain, source),
            None => !knows_value(level, name, chain),
        },
        level.value_at(name, cutoff_in(chain, level.id)) is Some ==> knows_value(
            level,
            name,
            chain,
        ),
{
    let cutoff = cutoff_in(chain, level.id);
    let b = |e: ValueEntry| ScopeLevel::binds(e, name, cutoff);
    let c = |e: ValueEntry| ScopeLevel::claims(e, name, cutoff);
    found_is_first(level.values@, b);
    found_is_first(level.values@, c);
    match first_match(level.values@, b) {
        Some(entry) => {
            let k = choose|k: int|
                {
                    &&& 0 <= k < level.values@.len()
                    &&& #[trigger] level.values@[k] == entry
                    &&& b(entry)
                    &&& forall|j: int| 0 <= j < k ==> !b(#[trigger] level.values@[j])
                };
            assert(level.values@[k].name == name);
            assert forall|j: int|
                0 <= j < k && (#[trigger] level.values@[j]).name == name && visible(
                    level.values@[j].index,
                    cutoff,
                ) implies level.values@[j].state is Claimed by {
                assert(!b(level.values@[j]));
            }
        },
        None => match first_match(level.values@, c) {
            Some(entry) => {
                let k = choose|k: int|
                    {
                        &&& 0 <= k < level.values@.len()
                        &&& #[trigger] level.values@[k] == entry
                        &&& c(entry)
                        &&& forall|j: int| 0 <= j < k ==> !c(#[trigger] level.values@[j])
                    };
                assert(level.values@[k].name == name);
                assert forall|j: int|
                    0 <= j < level.values@.len() && (#[trigger] level.values@[j]).name == name
                        && visible(level.values@[j].index, cutoff) implies j >= k
                    && level.values@[j].state is Claimed by {
                    assert(!b(level.values@[j]));
                    if j < k {
                        assert(!c(level.values@[j]));
                    }
                }
            },
            None => {
                assert forall|j: int|
                    0 <= j < level.values@.len() && (#[trigger] level.values@[j]).name == name implies !visible(
                    level.values@[j].index,
                    cutoff,
                ) by {
                    assert(!b(level.values@[j]) && !c(level.values@[j]));
                }
            },
        },
    }
}

/// A value name means what the innermost level that knows it for the reader says: the first binding
/// there, or the first claim where the level binds it to nothing yet. A name that no level knows
/// means nothing.
pub proof fn names_mean_what_the_innermost_level_says(
    levels: Seq<ScopeLevel>,
    name: Symbol,
    chain: Option<&LexicalFrame>,
)
    ensures
        match value_in(levels, name, chain) {
            Some(found) => exists|l: int|
                {
                    &&& 0 <= l < levels.len()
                    &&& match found {
                        NameLookup::Bound(carried) => binds_value_first(
                            #[trigger] levels[l],
                            name,
                            chain,
                            carried,
                        ),
                        NameLookup::Parked(source) => claims_value_first(
                            levels[l],
                            name,
                            chain,
                            source,
                        ),
                    }
                    &&& forall|inner: int|
                        l < inner < levels.len() ==> !knows_value(
                            #[trigger] levels[inner],
                            name,
                            chain,
                        )
                },
            None => forall|l: int|
                0 <= l < levels.len() ==> !knows_value(#[trigger] levels[l], name, chain),
        },
    decreases levels.len(),
{
    if levels.len() > 0 {
        let last = levels.len() - 1;
        level_lookup(levels[last], name, chain);
        if levels.last().value_at(name, cutoff_in(chain, levels.last().id)) is None {
            let rest = levels.drop_last();
            names_mean_what_the_innermost_level_says(rest, name, chain);
            match value_in(rest, name, chain) {
                Some(found) => {
                    let l = choose|l: int|
                        {
                            &&& 0 <= l < rest.len()
                            &&& match found {
                                NameLookup::Bound(carried) => binds_value_first(
                                    #[trigger] rest[l],
                                    name,
                                    chain,
                                    carried,
                                ),
                                NameLookup::Parked(source) => claims_value_first(
                                    rest[l],
                                    name,
                                    chain,
                                    source,
                                ),
                            }
                            &&& forall|inner: int|
                                l < inner < rest.len() ==> !knows_value(
                                    #[trigger] rest[inner],
                                    name,
                                    chain,
                                )
                        };
                    assert(levels[l] == rest[l]);
                    assert forall|inner: int| l < inner < levels.len() implies !knows_value(
                        #[trigger] levels[inner],
                        name,
                        chain,
                    ) by {
                        if inner < last {
                            assert(levels[inner] == rest[inner]);
                        }
                    }
                },
                None => {
                    assert forall|l: int| 0 <= l < levels.len() implies !knows_value(
                        #[trigger] levels[l],
                        name,
                        chain,
                    ) by {
                        if l < last {
                            assert(levels[l] == rest[l]);
                        }
                    }
                },
            }
        } else {
            assert(levels[last] == levels.last());
        }
    }
}

/// Whether entry `k` of a level is a group found by exactly these operators, in front of the reader.
pub open spec fn answers_probe(
    level: ScopeLevel,
    operators: Seq<Symbol>,
    chain: Option<&LexicalFrame>,
    k: int,
) -> bool {
    &&& 0 <= k < level.operators@.len()
    &&& forall|operator: Symbol| #[trigger]
        level.operators@[k].probe@.contains(operator) <==> operators.contains(operator)
    &&& cutoff_in(chain, level.id) matches Some(own) ==> level.operators@[k].index < own
}

proof fn probes_agree(a: Seq<Symbol>, b: Seq<Symbol>)
    ensures
        same_operators(a, b) <==> forall|operator: Symbol| #[trigger]
            a.contains(operator) <==> b.contains(operator),
{
    broadcast use vstd::seq_lib::group_seq_properties;

    if same_operators(a, b) {
        assert forall|operator: Symbol| #[trigger] a.contains(operator) <==> b.contains(
            operator,
        ) by {
            assert(a.to_set().contains(operator) <==> b.to_set().contains(operator));
        }
    }
    if forall|operator: Symbol| #[trigger] a.contains(operator) <==> b.contains(operator) {
        assert(a.to_set() =~= b.to_set());
    }
}

proof fn level_group(level: ScopeLevel, operators: Seq<Symbol>, chain: Option<&LexicalFrame>)
    ensures
        match level.group_at(operators, cutoff_in(chain, level.id)) {
            Some(group) => exists|k: int|
                {
                    &&& #[trigger] answers_probe(level, operators, chain, k)
                    &&& level.operators@[k].group == group
                    &&& forall|j: int| j < k ==> !#[trigger] answers_probe(
                        level,
                        operators,
                        chain,
                        j,
                    )
                },
            None => forall|k: int| !#[trigger] answers_probe(level, operators, chain, k),
        },
{
    let cutoff = cutoff_in(chain, level.id);
    let p = |e: OperatorEntry| ScopeLevel::answers(e, operators, cutoff);
    found_is_first(level.operators@, p);
    assert forall|k: int| 0 <= k < level.operators@.len() implies #[trigger] answers_probe(
        level,
        operators,
        chain,
        k,
    ) == p(level.operators@[k]) by {
        probes_agree(level.operators@[k].probe@, operators);
    }
    match first_match(level.operators@, p) {
        Some(entry) => {
            let k = choose|k: int|
                {
                    &&& 0 <= k < level.operators@.len()
                    &&& #[trigger] level.operators@[k] == entry
                    &&& p(entry)
                    &&& forall|j: int| 0 <= j < k ==> !p(#[trigger] level.operators@[j])
                };
            assert(answers_probe(level, operators, chain, k));
            assert forall|j: int| j < k implies !#[trigger] answers_probe(
                level,
                operators,
                chain,
                j,
            ) by {
                if 0 <= j {
                    assert(!p(level.operators@[j]));
                }
            }
        },
        None => {
            assert forall|k: int| !#[trigger] answers_probe(level, operators, chain, k) by {
                if 0 <= k < level.operators@.len() {
                    assert(!p(level.operators@[k]));
                }
            }
        },
    }
}

/// A chain is answered by the first group that is found by exactly its operators, in any order, at
/// the innermost level that has one for the reader. It stays unanswered only where no level has one.
pub proof fn chains_are_answered_by_the_innermost_group(
    levels: Seq<ScopeLevel>,
    operators: Seq<Symbol>,
    chain: Option<&LexicalFrame>,
)
    ensures
        match group_in(levels, operators, chain) {
            Some(group) => exists|l: int, k: int|
                {
                    &&& 0 <= l < levels.len()
                    &&& #[trigger] answers_probe(levels[l], operators, chain, k)
                    &&& levels[l].operators@[k].group == group
                    &&& forall|j: int| j < k ==> !#[trigger] answers_probe(
                        levels[l],
                        operators,
                        chain,
                        j,
                    )
                    &&& forall|inner: int, j: int|
                        l < inner < levels.len() ==> !#[trigger] answers_probe(
                            levels[inner],
                            operators,
                            chain,
                            j,
                        )
                },
            None => forall|l: int, k: int|
                0 <= l < levels.len() ==> !#[trigger] answers_probe(
                    levels[l],
                    operators,
                    chain,
                    k,
                ),
        },
    decreases levels.len(),
{
    if levels.len() > 0 {
        let last = levels.len() - 1;
        assert(levels[last] == levels.last());
        level_group(levels[last], operators, chain);
        if levels.last().group_at(operators, cutoff_in(chain, levels.last().id)) is None {
            let rest = levels.drop_last();
            chains_are_answered_by_the_innermost_group(rest, operators, chain);
            match group_in(rest, operators, chain) {
                Some(group) => {
                    let (l, k) = choose|l: int, k: int|
                        {
                            &&& 0 <= l < rest.len()
                            &&& #[trigger] answers_probe(rest[l], operators, chain, k)
                            &&& rest[l].operators@[k].group == group
                            &&& forall|j: int| j < k ==> !#[trigger] answers_probe(
                                rest[l],
                                operators,
                                chain,
                                j,
                            )
                            &&& forall|inner: int, j: int|
                                l < inner < rest.len() ==> !#[trigger] answers_probe(
                                    rest[inner],
                                    operators,
                                    chain,
                                    j,
                                )
                        };
                    assert(levels[l] == rest[l]);
                    assert(answers_probe(levels[l], operators, chain, k));
                    assert forall|inner: int, j: int| l < inner < levels.len() implies
                        !#[trigger] answers_probe(levels[inner], operators, chain, j) by {
                        if inner < last {
                            assert(!answers_probe(rest[inner], operators, chain, j));
                            assert(levels[inner] == rest[inner]);
                        }
                    }
                },
                None => {
                    assert forall|l: int, k: int| 0 <= l < levels.len() implies
                        !#[trigger] answers_probe(levels[l], operators, chain, k) by {
                        if l < last {
                            assert(!answers_probe(rest[l], operators, chain, k));
                            assert(levels[l] == rest[l]);
                        }
                    }
                },
            }
        } else {
            let k = choose|k: int|
                {
                    &&& #[trigger] answers_probe(levels[last], operators, chain, k)
                    &&& Some(levels[last].operators@[k].group) == levels[last].group_at(
                        operators,
                        cutoff_in(chain, levels[last].id),
                    )
                    &&& forall|j: int| j < k ==> !#[trigger] answers_probe(
                        levels[last],
                        operators,
                        chain,
                        j,
                    )
                };
            assert(answers_probe(levels[last], operators, chain, k));
        }
    }
}

/// Windows nest: the open group is that of the innermost level that has one.
pub proof fn the_innermost_group_is_open(levels: Seq<ScopeLevel>)
    ensures
        match window_in(levels) {
            Some(window) => exists|l: int|
                {
                    &&& 0 <= l < levels.len()
                    &&& (#[trigger] levels[l]).window == Some(window)
                    &&& forall|j: int|
                        l < j < levels.len() ==> (#[trigger] levels[j]).window is None
                },
            None => forall|l: int| 0 <= l < levels.len() ==> (#[trigger] levels[l]).window is None,
        },
    decreases levels.len(),
{
    if levels.len() > 0 {
        let last = levels.len() - 1;
        assert(levels[last] == levels.last());
        if levels[last].window is None {
            let rest = levels.drop_last();
            the_innermost_group_is_open(rest);
            match window_in(rest) {
                Some(window) => {
                    let l = choose|l: int|
                        {
                            &&& 0 <= l < rest.len()
                            &&& (#[trigger] rest[l]).window == Some(window)
                            &&& forall|j: int|
                                l < j < rest.len() ==> (#[trigger] rest[j]).window is None
                        };
                    assert(levels[l] == rest[l]);
                    assert forall|j: int| l < j < levels.len() implies (
                    #[trigger] levels[j]).window is None by {
                        if j < last {
                            assert(levels[j] == rest[j]);
                        }
                    }
                },
                None => {
                    assert forall|l: int| 0 <= l < levels.len() implies (
                    #[trigger] levels[l]).window is None by {
                        if l < last {
                            assert(levels[l] == rest[l]);
                        }
                    }
                },
            }
        }
    }
}

} // verus!
