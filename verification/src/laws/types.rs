//! Laws of type names: what a type name means, what it waits for, and which binders a type still
//! stands on.

use crate::ast::{ExpressionPart, Spanned, WorkingPart};
use crate::decide::resolve::{
    bare_outcomes_of, resolution_of, Resolution, TypeLeafChannels,
};
use crate::decide::resolve_type_identifier::{
    elaborated, gated, pending_of, source_of, TypeResolutionView,
    UserTypeRef,
};
use crate::dispatch::resolve_type_expr::{
    own_cutoff, resolved, unfinished, unfinished_all, walked_children, MemoEntry, NamedRef,
};
use crate::ktype::{children, field_types, precedes, rank, KType, ScopeId, TypeNode, TypeRegistry};
use crate::laws::scopes::found_is_first;
use crate::scope::{
    cutoff_in, first_match, index_in, placeholder_in, value_in, window_in, LexicalFrame,
    NameLookup, ScopeLevel, TypeEntry, TypeState,
};
use crate::symbol::Symbol;
use crate::type_query::popped_children;
use crate::value::{Carried, ProducerId};
use vstd::prelude::*;

verus! {

/// Whether entry `k` of a level binds or claims a type name in front of the reader.
pub open spec fn sees_type(
    level: ScopeLevel,
    name: Symbol,
    cutoff: Option<usize>,
    k: int,
) -> bool {
    &&& 0 <= k < level.types@.len()
    &&& level.types@[k].name == name
    &&& cutoff matches Some(own) ==> level.types@[k].index < own
}

/// Whether a level binds a type name to `kt`, ahead of every other binding of the name there.
pub open spec fn binds_type_first(
    level: ScopeLevel,
    name: Symbol,
    cutoff: Option<usize>,
    kt: KType,
) -> bool {
    exists|k: int|
        {
            &&& #[trigger] sees_type(level, name, cutoff, k)
            &&& level.types@[k].state == TypeState::Bound(kt)
            &&& forall|j: int|
                j < k && #[trigger] sees_type(level, name, cutoff, j)
                    ==> level.types@[j].state is Claimed
        }
}

/// Whether a level has a type name claimed by `source`, ahead of every other claim on it there.
pub open spec fn claims_type_first(
    level: ScopeLevel,
    name: Symbol,
    cutoff: Option<usize>,
    source: ProducerId,
) -> bool {
    exists|k: int|
        {
            &&& #[trigger] sees_type(level, name, cutoff, k)
            &&& level.types@[k].state == TypeState::Claimed(source)
            &&& forall|j: int|
                j < k && #[trigger] sees_type(level, name, cutoff, j)
                    ==> level.types@[j].state is Bound
        }
}

/// Whether a level binds a type name to nothing.
pub open spec fn leaves_type_unbound(level: ScopeLevel, name: Symbol, cutoff: Option<usize>) -> bool {
    forall|k: int| #[trigger]
        sees_type(level, name, cutoff, k) ==> level.types@[k].state is Claimed
}

/// Whether nothing claims a type name at a level.
pub open spec fn leaves_type_unclaimed(
    level: ScopeLevel,
    name: Symbol,
    cutoff: Option<usize>,
) -> bool {
    forall|k: int| #[trigger]
        sees_type(level, name, cutoff, k) ==> level.types@[k].state is Bound
}

/// Whether the open group of a level announces a name as its member number `index`.
pub open spec fn announces(level: ScopeLevel, name: Symbol, index: usize) -> bool {
    level.window matches Some(window) && index < window.members@.len()
        && window.members@[index as int] == name && forall|j: int|
        0 <= j < index ==> #[trigger] window.members@[j] != name
}

/// Whether the open group of a level, if it has one, does not announce a name.
pub open spec fn announces_not(level: ScopeLevel, name: Symbol) -> bool {
    level.window matches Some(window) ==> !window.members@.contains(name)
}

/// A level gives the first binding of a type name, and separately the first claim on it.
pub proof fn levels_give_their_first_type_entry(
    level: ScopeLevel,
    name: Symbol,
    cutoff: Option<usize>,
)
    ensures
        match level.bound_type_at(name, cutoff) {
            Some(kt) => binds_type_first(level, name, cutoff, kt),
            None => leaves_type_unbound(level, name, cutoff),
        },
        match level.claimed_type_at(name, cutoff) {
            Some(source) => claims_type_first(level, name, cutoff, source),
            None => leaves_type_unclaimed(level, name, cutoff),
        },
{
    let b = |e: TypeEntry| ScopeLevel::binds_type(e, name, cutoff);
    let c = |e: TypeEntry| ScopeLevel::claims_type(e, name, cutoff);
    found_is_first(level.types@, b);
    found_is_first(level.types@, c);
    match first_match(level.types@, b) {
        Some(entry) => {
            let k = choose|k: int|
                {
                    &&& 0 <= k < level.types@.len()
                    &&& #[trigger] level.types@[k] == entry
                    &&& b(entry)
                    &&& forall|j: int| 0 <= j < k ==> !b(#[trigger] level.types@[j])
                };
            assert(sees_type(level, name, cutoff, k));
            assert forall|j: int| j < k && #[trigger] sees_type(level, name, cutoff, j) implies
                level.types@[j].state is Claimed by {
                assert(!b(level.types@[j]));
            }
        },
        None => {
            assert forall|k: int| #[trigger] sees_type(level, name, cutoff, k) implies
                level.types@[k].state is Claimed by {
                assert(!b(level.types@[k]));
            }
        },
    }
    match first_match(level.types@, c) {
        Some(entry) => {
            let k = choose|k: int|
                {
                    &&& 0 <= k < level.types@.len()
                    &&& #[trigger] level.types@[k] == entry
                    &&& c(entry)
                    &&& forall|j: int| 0 <= j < k ==> !c(#[trigger] level.types@[j])
                };
            assert(sees_type(level, name, cutoff, k));
            assert forall|j: int| j < k && #[trigger] sees_type(level, name, cutoff, j) implies
                level.types@[j].state is Bound by {
                assert(!c(level.types@[j]));
            }
        },
        None => {
            assert forall|k: int| #[trigger] sees_type(level, name, cutoff, k) implies
                level.types@[k].state is Bound by {
                assert(!c(level.types@[k]));
            }
        },
    }
}

proof fn announced_member(members: Seq<Symbol>, name: Symbol)
    requires
        members.len() <= usize::MAX,
    ensures
        match index_in(members, name) {
            Some(at) => at < members.len() && members[at as int] == name && forall|j: int|
                0 <= j < at ==> #[trigger] members[j] != name,
            None => !members.contains(name),
        },
    decreases members.len(),
{
    if members.len() > 0 {
        let rest = members.drop_last();
        announced_member(rest, name);
        match index_in(rest, name) {
            Some(at) => {
                assert(members[at as int] == rest[at as int]);
                assert forall|j: int| 0 <= j < at implies #[trigger] members[j] != name by {
                    assert(rest[j] == members[j]);
                }
            },
            None => {
                assert forall|j: int| 0 <= j < rest.len() implies #[trigger] members[j] != name by {
                    assert(rest[j] == members[j]);
                    assert(rest.contains(rest[j]));
                }
            },
        }
    }
}

/// Whether a level says nothing about a type name.
pub open spec fn silent_on_type(
    level: ScopeLevel,
    name: Symbol,
    chain: Option<&LexicalFrame>,
) -> bool {
    &&& forall|k: int| !#[trigger] sees_type(level, name, cutoff_in(chain, level.id), k)
    &&& announces_not(level, name)
}

/// A type name means what the innermost level that says anything about it says: what it binds the
/// name to, else the member that its open group announces under the name, else that the name waits
/// for its binder. A name that no level says anything about is unbound.
pub proof fn type_names_mean_what_the_innermost_level_says(
    levels: Seq<ScopeLevel>,
    name: Symbol,
    chain: Option<&LexicalFrame>,
)
    ensures
        match elaborated(levels, name, chain) {
            TypeResolutionView::Unbound(missing) => missing == name && forall|l: int|
                0 <= l < levels.len() ==> silent_on_type(#[trigger] levels[l], name, chain),
            found => exists|l: int|
                {
                    let level = #[trigger] levels[l];
                    let cutoff = cutoff_in(chain, level.id);
                    &&& 0 <= l < levels.len()
                    &&& forall|inner: int|
                        l < inner < levels.len() ==> silent_on_type(
                            #[trigger] levels[inner],
                            name,
                            chain,
                        )
                    &&& {
                        ||| found matches TypeResolutionView::Done(kt) && binds_type_first(
                            level,
                            name,
                            cutoff,
                            kt,
                        )
                        ||| leaves_type_unbound(level, name, cutoff) && (
                        found matches TypeResolutionView::Done(KType::Sibling(index)) && announces(
                            level,
                            name,
                            index,
                        ))
                        ||| leaves_type_unbound(level, name, cutoff) && announces_not(level, name)
                            && (found matches TypeResolutionView::Park(sources) && sources.len()
                            == 1 && claims_type_first(level, name, cutoff, sources[0]))
                    }
                },
        },
    decreases levels.len(),
{
    if levels.len() > 0 {
        let last = levels.len() - 1;
        let level = levels[last];
        let cutoff = cutoff_in(chain, level.id);
        assert(level == levels.last());
        levels_give_their_first_type_entry(level, name, cutoff);
        if let Some(window) = level.window {
            assert(window.members.len() == window.members@.len());
            announced_member(window.members@, name);
        }
        if level.bound_type_at(name, cutoff) is None && level.announced(name) is None
            && level.claimed_type_at(name, cutoff) is None {
            assert(silent_on_type(level, name, chain)) by {
                assert forall|k: int| !#[trigger] sees_type(level, name, cutoff, k) by {
                    if sees_type(level, name, cutoff, k) {
                        assert(level.types@[k].state is Bound);
                        assert(level.types@[k].state is Claimed);
                    }
                }
            }
            let rest = levels.drop_last();
            type_names_mean_what_the_innermost_level_says(rest, name, chain);
            match elaborated(rest, name, chain) {
                TypeResolutionView::Unbound(_) => {
                    assert forall|l: int| 0 <= l < levels.len() implies silent_on_type(
                        #[trigger] levels[l],
                        name,
                        chain,
                    ) by {
                        if l < last {
                            assert(levels[l] == rest[l]);
                        }
                    }
                },
                found => {
                    let l = choose|l: int|
                        {
                            let level = #[trigger] rest[l];
                            let cutoff = cutoff_in(chain, level.id);
                            &&& 0 <= l < rest.len()
                            &&& forall|inner: int|
                                l < inner < rest.len() ==> silent_on_type(
                                    #[trigger] rest[inner],
                                    name,
                                    chain,
                                )
                            &&& {
                                ||| found matches TypeResolutionView::Done(kt) && binds_type_first(
                                    level,
                                    name,
                                    cutoff,
                                    kt,
                                )
                                ||| leaves_type_unbound(level, name, cutoff) && (
                                found matches TypeResolutionView::Done(KType::Sibling(index))
                                    && announces(level, name, index))
                                ||| leaves_type_unbound(level, name, cutoff) && announces_not(
                                    level,
                                    name,
                                ) && (found matches TypeResolutionView::Park(sources)
                                    && sources.len() == 1 && claims_type_first(
                                    level,
                                    name,
                                    cutoff,
                                    sources[0],
                                ))
                            }
                        };
                    assert(levels[l] == rest[l]);
                    assert forall|inner: int| l < inner < levels.len() implies silent_on_type(
                        #[trigger] levels[inner],
                        name,
                        chain,
                    ) by {
                        if inner < last {
                            assert(levels[inner] == rest[inner]);
                        }
                    }
                },
            }
        } else {
            assert(levels[last] == level);
        }
    }
}

/// A type name that is bound resolves exactly when no binder that its type refers to is still
/// pending; otherwise it waits for exactly those binders, each once. A name that its own binder has
/// yet to bind waits for that one.
pub proof fn types_resolve_once_nothing_is_pending(
    types: &TypeRegistry,
    levels: Seq<ScopeLevel>,
    name: Symbol,
    chain: Option<&LexicalFrame>,
)
    ensures
        elaborated(levels, name, chain) matches TypeResolutionView::Done(kt) ==> {
            let refs = types.user_refs(kt);
            let pending = |source: ProducerId|
                exists|i: int|
                    0 <= i < refs.len() && source_of(levels, #[trigger] refs[i]) == Some(source);
            match gated(types, levels, name, chain) {
                TypeResolutionView::Done(own) => own == kt && forall|i: int|
                    0 <= i < refs.len() ==> source_of(levels, #[trigger] refs[i]) is None,
                TypeResolutionView::Park(sources) => sources.len() > 0 && sources.no_duplicates()
                    && forall|source: ProducerId| #[trigger]
                    sources.contains(source) <==> pending(source),
                TypeResolutionView::Unbound(_) => false,
            }
        },
        !(elaborated(levels, name, chain) is Done) ==> gated(types, levels, name, chain)
            == elaborated(levels, name, chain),
{
    if let TypeResolutionView::Done(kt) = elaborated(levels, name, chain) {
        let refs = types.user_refs(kt);
        pending_is_each_source_once(levels, refs);
        let sources = pending_of(levels, refs);
        if sources.len() == 0 {
            assert forall|i: int| 0 <= i < refs.len() implies source_of(
                levels,
                #[trigger] refs[i],
            ) is None by {
                if let Some(source) = source_of(levels, refs[i]) {
                    assert(sources.contains(source));
                }
            }
        }
    }
}

proof fn pending_is_each_source_once(levels: Seq<ScopeLevel>, refs: Seq<UserTypeRef>)
    ensures
        pending_of(levels, refs).no_duplicates(),
        forall|source: ProducerId| #[trigger]
            pending_of(levels, refs).contains(source) <==> exists|i: int|
                0 <= i < refs.len() && source_of(levels, #[trigger] refs[i]) == Some(source),
    decreases refs.len(),
{
    if refs.len() > 0 {
        let rest = refs.drop_last();
        let last = refs.len() - 1;
        pending_is_each_source_once(levels, rest);
        let earlier = pending_of(levels, rest);
        let all = pending_of(levels, refs);
        assert forall|source: ProducerId| #[trigger] all.contains(source) <==> exists|i: int|
            0 <= i < refs.len() && source_of(levels, #[trigger] refs[i]) == Some(source) by {
            if all.contains(source) {
                if earlier.contains(source) {
                    let i = choose|i: int|
                        0 <= i < rest.len() && source_of(levels, #[trigger] rest[i]) == Some(
                            source,
                        );
                    assert(refs[i] == rest[i]);
                } else {
                    let k = choose|k: int| 0 <= k < all.len() && all[k] == source;
                    assert(k == earlier.len()) by {
                        if k < earlier.len() {
                            assert(earlier[k] == source);
                        }
                    }
                    assert(source_of(levels, refs[last]) == Some(source));
                }
            }
            if exists|i: int|
                0 <= i < refs.len() && source_of(levels, #[trigger] refs[i]) == Some(source) {
                let i = choose|i: int|
                    0 <= i < refs.len() && source_of(levels, #[trigger] refs[i]) == Some(source);
                if i < last {
                    assert(rest[i] == refs[i]);
                    assert(earlier.contains(source));
                    let k = choose|k: int| 0 <= k < earlier.len() && earlier[k] == source;
                    assert(all[k] == source);
                } else if !earlier.contains(source) {
                    assert(all[earlier.len() as int] == source);
                }
            }
        }
    }
}

/// What a type refers to is what it is made of refers to: a member of an open group and an abstract
/// type refer to themselves, a compound type to all that its parts refer to, and a scalar to nothing.
pub proof fn types_refer_to_what_their_parts_refer_to(
    types: &TypeRegistry,
    kt: KType,
    user_ref: UserTypeRef,
)
    requires
        types.wf(),
    ensures
        kt matches KType::Sibling(index) ==> (types.user_refs(kt).contains(user_ref) <==> user_ref
            == UserTypeRef::Sibling { index }),
        types.node_of(kt) matches Some(TypeNode::AbstractType { source, name, .. }) ==> (
        types.user_refs(kt).contains(user_ref) <==> user_ref == UserTypeRef::Declared {
            scope_id: source,
            name,
        }),
        types.node_of(kt) matches Some(node) ==> (!(node is AbstractType) ==> (types.user_refs(
            kt,
        ).contains(user_ref) <==> exists|c: int|
            0 <= c < children(node).len() && types.user_refs(#[trigger] children(node)[c]).contains(
                user_ref,
            ))),
        !(kt is Sibling) && !(kt is Node) ==> types.user_refs(kt).len() == 0,
{
    match kt {
        KType::Sibling(index) => {
            assert(types.user_refs(kt)[0] == UserTypeRef::Sibling { index });
        },
        KType::Node(at) => {
            if at < types.nodes@.len() {
                let node = types.nodes@[at as int];
                match node {
                    TypeNode::AbstractType { source, name, .. } => {
                        assert(types.user_refs(kt)[0] == UserTypeRef::Declared {
                            scope_id: source,
                            name,
                        });
                    },
                    _ => {
                        let parts = children(node);
                        assert forall|c: int| 0 <= c < parts.len() implies rank(
                            #[trigger] parts[c],
                        ) < rank(kt) by {
                            assert(precedes(children(types.nodes@[at as int])[c], at as int));
                        }
                        gathered_refs(types, parts, rank(kt), user_ref);
                    },
                }
            }
        },
        _ => {},
    }
}

proof fn gathered_refs(
    types: &TypeRegistry,
    parts: Seq<KType>,
    below: nat,
    user_ref: UserTypeRef,
)
    requires
        forall|c: int| 0 <= c < parts.len() ==> rank(#[trigger] parts[c]) < below,
    ensures
        types.user_refs_all(parts, below).contains(user_ref) <==> exists|c: int|
            0 <= c < parts.len() && types.user_refs(#[trigger] parts[c]).contains(user_ref),
    decreases parts.len(),
{
    let all = types.user_refs_all(parts, below);
    if parts.len() > 0 {
        let rest = parts.drop_last();
        assert forall|c: int| 0 <= c < rest.len() implies rank(#[trigger] rest[c]) < below by {
            assert(rest[c] == parts[c]);
        }
        gathered_refs(types, rest, below, user_ref);
        let last = parts.len() - 1;
        assert(rank(parts[last]) < below);
        let earlier = types.user_refs_all(rest, below);
        let own = types.user_refs(parts[last]);
        assert(all == earlier + own);
        if all.contains(user_ref) {
            let k = choose|k: int| 0 <= k < all.len() && all[k] == user_ref;
            if k < earlier.len() {
                assert(earlier[k] == user_ref);
                let c = choose|c: int|
                    0 <= c < rest.len() && types.user_refs(#[trigger] rest[c]).contains(user_ref);
                assert(parts[c] == rest[c]);
            } else {
                assert(own[k - earlier.len()] == user_ref);
                assert(types.user_refs(parts[last]).contains(user_ref));
            }
        }
        if exists|c: int|
            0 <= c < parts.len() && types.user_refs(#[trigger] parts[c]).contains(user_ref) {
            let c = choose|c: int|
                0 <= c < parts.len() && types.user_refs(#[trigger] parts[c]).contains(user_ref);
            if c < last {
                assert(rest[c] == parts[c]);
                let k = choose|k: int| 0 <= k < earlier.len() && earlier[k] == user_ref;
                assert(all[k] == user_ref);
            } else {
                let k = choose|k: int| 0 <= k < own.len() && own[k] == user_ref;
                assert(all[earlier.len() + k] == user_ref);
            }
        }
    }
}

/// A declared type waits for the claim on its own name in its own scope, wherever the reader stands,
/// and for nothing else.
pub proof fn declared_types_wait_for_their_own_binder(
    levels: Seq<ScopeLevel>,
    scope: ScopeId,
    name: Symbol,
)
    ensures
        match source_of(levels, UserTypeRef::Declared { scope_id: scope, name }) {
            Some(source) => exists|l: int|
                {
                    &&& 0 <= l < levels.len()
                    &&& (#[trigger] levels[l]).id == scope
                    &&& claims_type_first(levels[l], name, None, source)
                    &&& forall|j: int| l < j < levels.len() ==> (#[trigger] levels[j]).id != scope
                },
            None => (forall|l: int| 0 <= l < levels.len() ==> (#[trigger] levels[l]).id != scope)
                || exists|l: int|
                {
                    &&& 0 <= l < levels.len()
                    &&& (#[trigger] levels[l]).id == scope
                    &&& leaves_type_unclaimed(levels[l], name, None)
                    &&& forall|j: int| l < j < levels.len() ==> (#[trigger] levels[j]).id != scope
                },
        },
    decreases levels.len(),
{
    if levels.len() > 0 {
        let last = levels.len() - 1;
        assert(levels[last] == levels.last());
        if levels[last].id == scope {
            levels_give_their_first_type_entry(levels[last], name, None);
        } else {
            let rest = levels.drop_last();
            declared_types_wait_for_their_own_binder(rest, scope, name);
            assert(source_of(levels, UserTypeRef::Declared { scope_id: scope, name })
                == placeholder_in(rest, scope, name));
            if forall|l: int| 0 <= l < rest.len() ==> (#[trigger] rest[l]).id != scope {
                assert forall|l: int| 0 <= l < levels.len() implies (#[trigger] levels[l]).id
                    != scope by {
                    if l < last {
                        assert(rest[l] == levels[l]);
                    }
                }
            } else {
                let l = choose|l: int|
                    {
                        &&& 0 <= l < rest.len()
                        &&& (#[trigger] rest[l]).id == scope
                        &&& match placeholder_in(rest, scope, name) {
                            Some(source) => claims_type_first(rest[l], name, None, source),
                            None => leaves_type_unclaimed(rest[l], name, None),
                        }
                        &&& forall|j: int| l < j < rest.len() ==> (#[trigger] rest[j]).id != scope
                    };
                assert(levels[l] == rest[l]);
                assert forall|j: int| l < j < levels.len() implies (#[trigger] levels[j]).id
                    != scope by {
                    if j < last {
                        assert(levels[j] == rest[j]);
                    }
                }
            }
        }
    }
}

/// A bare name resolves to the value it is bound to, waits for the binder that claims it, or is
/// unbound. A bare type name resolves to its sealed type; while a value of that name is about to be
/// bound it waits for that first, where the reader asks for values first.
pub proof fn bare_names_resolve_to_what_they_mean(
    types: &TypeRegistry,
    levels: Seq<ScopeLevel>,
    name: Symbol,
    chain: Option<&LexicalFrame>,
    parts: Seq<Spanned>,
    i: int,
)
    requires
        0 <= i < parts.len(),
    ensures
        bare_outcomes_of(types, levels, parts, chain).len() == parts.len(),
        parts[i].value == WorkingPart::Ast(ExpressionPart::Identifier(name)) ==> match value_in(
            levels,
            name,
            chain,
        ) {
            Some(NameLookup::Bound(carried)) => bare_outcomes_of(types, levels, parts, chain)[i]
                == Some(Resolution::Resolved(carried)),
            Some(NameLookup::Parked(source)) => bare_outcomes_of(types, levels, parts, chain)[i]
                == Some(Resolution::Parked(source)),
            None => bare_outcomes_of(types, levels, parts, chain)[i] == Some(
                Resolution::Unbound(name),
            ),
        },
        parts[i].value == WorkingPart::Ast(ExpressionPart::Type(name)) ==> match value_in(
            levels,
            name,
            chain,
        ) {
            Some(NameLookup::Parked(source)) => bare_outcomes_of(types, levels, parts, chain)[i]
                == Some(Resolution::Parked(source)) && resolution_of(
                types,
                levels,
                ExpressionPart::Type(name),
                chain,
                TypeLeafChannels::TypeChannel,
            ) == sealed(types, levels, name, chain),
            _ => bare_outcomes_of(types, levels, parts, chain)[i] == Some(
                sealed(types, levels, name, chain),
            ),
        },
        !(parts[i].value matches WorkingPart::Ast(ExpressionPart::Identifier(_))) && !(
        parts[i].value matches WorkingPart::Ast(ExpressionPart::Type(_))) ==> bare_outcomes_of(
            types,
            levels,
            parts,
            chain,
        )[i] is None,
{
}

/// What a type name comes to in the channel of types: its sealed type, or the first binder that it
/// waits for.
pub open spec fn sealed(
    types: &TypeRegistry,
    levels: Seq<ScopeLevel>,
    name: Symbol,
    chain: Option<&LexicalFrame>,
) -> Resolution {
    match gated(types, levels, name, chain) {
        TypeResolutionView::Done(kt) => Resolution::Resolved(Carried::Type(kt)),
        TypeResolutionView::Park(sources) => if sources.len() == 0 {
            Resolution::Unbound(name)
        } else {
            Resolution::Parked(sources.first())
        },
        TypeResolutionView::Unbound(missing) => Resolution::Unbound(missing),
    }
}

/// A member of an open group that is filled waits for nobody. One that is not waits for a claim on
/// its name at a level that the group is open at; without an open group there is nothing to wait
/// for.
pub proof fn unfilled_members_wait_for_their_binder(levels: Seq<ScopeLevel>, index: usize)
    ensures
        window_in(levels) is None ==> source_of(levels, UserTypeRef::Sibling { index }) is None,
        window_in(levels) matches Some(window) ==> (index < window.filled@.len()
            && window.filled@[index as int] ==> source_of(levels, UserTypeRef::Sibling { index })
            is None),
        window_in(levels) matches Some(window) ==> (source_of(
            levels,
            UserTypeRef::Sibling { index },
        ) matches Some(source) ==> index < window.members@.len() && exists|l: int|
            {
                &&& 0 <= l < levels.len()
                &&& claims_type_first(
                    #[trigger] levels[l],
                    window.members@[index as int],
                    None,
                    source,
                )
                &&& window_in(levels.take(l + 1)) matches Some(own) && own.id == window.id
            }),
{
    if let Some(window) = window_in(levels) {
        if index < window.members@.len() && !(index < window.filled@.len()
            && window.filled@[index as int]) {
            claimed_in_window(levels, window.id, window.members@[index as int]);
        }
    }
}

proof fn claimed_in_window(levels: Seq<ScopeLevel>, window: usize, name: Symbol)
    ensures
        crate::decide::resolve_type_identifier::sibling_source(levels, window, name) matches Some(
            source,
        ) ==> exists|l: int|
            {
                &&& 0 <= l < levels.len()
                &&& claims_type_first(#[trigger] levels[l], name, None, source)
                &&& window_in(levels.take(l + 1)) matches Some(own) && own.id == window
            },
    decreases levels.len(),
{
    if levels.len() > 0 {
        let last = levels.len() - 1;
        let rest = levels.drop_last();
        levels_give_their_first_type_entry(levels[last], name, None);
        claimed_in_window(rest, window, name);
        assert(levels.take(last + 1) =~= levels);
        if let Some(source) = crate::decide::resolve_type_identifier::sibling_source(
            levels,
            window,
            name,
        ) {
            if !claims_type_first(levels[last], name, None, source) || !(window_in(
                levels,
            ) matches Some(own) && own.id == window) {
                let l = choose|l: int|
                    {
                        &&& 0 <= l < rest.len()
                        &&& claims_type_first(#[trigger] rest[l], name, None, source)
                        &&& window_in(rest.take(l + 1)) matches Some(own) && own.id == window
                    };
                assert(levels[l] == rest[l]);
                assert(levels.take(l + 1) =~= rest.take(l + 1));
            }
        }
    }
}

/// The declaration that a type is, where it is a declared one: a member of a group by its own name,
/// a variant by the name of its member, and a signature, a module and an abstract type by theirs.
pub open spec fn declared_as(types: &TypeRegistry, node: TypeNode) -> Option<NamedRef> {
    match node {
        TypeNode::SetMember { scope, name, .. } => Some(NamedRef { scope_id: scope, name }),
        TypeNode::Variant { member, .. } => if types.node_of(member) is Some && types.node_of(
            member,
        )->0 is SetMember {
            Some(
                NamedRef {
                    scope_id: types.node_of(member)->0->scope,
                    name: types.node_of(member)->0->SetMember_name,
                },
            )
        } else {
            None
        },
        TypeNode::Signature { source, path } | TypeNode::Module { source, path } => Some(
            NamedRef { scope_id: source, name: path },
        ),
        TypeNode::AbstractType { source, name, .. } => Some(NamedRef { scope_id: source, name }),
        _ => None,
    }
}

proof fn gathered_names(
    types: &TypeRegistry,
    parts: Seq<KType>,
    below: nat,
    named: NamedRef,
)
    requires
        forall|c: int| 0 <= c < parts.len() ==> rank(#[trigger] parts[c]) < below,
    ensures
        types.named_refs_all(parts, below).contains(named) <==> exists|c: int|
            0 <= c < parts.len() && types.named_refs(#[trigger] parts[c]).contains(named),
    decreases parts.len(),
{
    let all = types.named_refs_all(parts, below);
    if parts.len() > 0 {
        let rest = parts.drop_last();
        assert forall|c: int| 0 <= c < rest.len() implies rank(#[trigger] rest[c]) < below by {
            assert(rest[c] == parts[c]);
        }
        gathered_names(types, rest, below, named);
        let last = parts.len() - 1;
        assert(rank(parts[last]) < below);
        let earlier = types.named_refs_all(rest, below);
        let own = types.named_refs(parts[last]);
        assert(all == earlier + own);
        if all.contains(named) {
            let k = choose|k: int| 0 <= k < all.len() && all[k] == named;
            if k < earlier.len() {
                assert(earlier[k] == named);
                let c = choose|c: int|
                    0 <= c < rest.len() && types.named_refs(#[trigger] rest[c]).contains(named);
                assert(parts[c] == rest[c]);
            } else {
                assert(own[k - earlier.len()] == named);
                assert(types.named_refs(parts[last]).contains(named));
            }
        }
        if exists|c: int|
            0 <= c < parts.len() && types.named_refs(#[trigger] parts[c]).contains(named) {
            let c = choose|c: int|
                0 <= c < parts.len() && types.named_refs(#[trigger] parts[c]).contains(named);
            if c < last {
                assert(rest[c] == parts[c]);
                let k = choose|k: int| 0 <= k < earlier.len() && earlier[k] == named;
                assert(all[k] == named);
            } else {
                let k = choose|k: int| 0 <= k < own.len() && own[k] == named;
                assert(all[earlier.len() + k] == named);
            }
        }
    }
}

/// A declared type names its own declaration alone. A group of declarations names nothing. Any other
/// type names what its parts name, and what is no such type names nothing.
pub proof fn types_name_what_their_parts_name(
    types: &TypeRegistry,
    kt: KType,
    named: NamedRef,
)
    requires
        types.wf(),
    ensures
        types.node_of(kt) is None ==> types.named_refs(kt).len() == 0,
        types.node_of(kt) matches Some(node) ==> match declared_as(types, node) {
            Some(own) => types.named_refs(kt).contains(named) <==> named == own,
            None => if node is Group {
                types.named_refs(kt).len() == 0
            } else {
                types.named_refs(kt).contains(named) <==> exists|c: int|
                    0 <= c < children(node).len() && types.named_refs(
                        #[trigger] children(node)[c],
                    ).contains(named)
            },
        },
{
    if let Some(node) = types.node_of(kt) {
        assert(types.own_ref(node) == declared_as(types, node));
        match declared_as(types, node) {
            Some(own) => {
                assert(types.named_refs(kt)[0] == own);
            },
            None => {
                let at = kt->Node_0 as int;
                let parts = walked_children(node);
                if !(node is Group) {
                    popped_are_children(node);
                    assert forall|c: int| 0 <= c < parts.len() implies rank(#[trigger] parts[c])
                        < rank(kt) by {
                        assert(parts.contains(parts[c]));
                        let k = choose|k: int|
                            0 <= k < children(node).len() && children(node)[k] == parts[c];
                        assert(precedes(children(types.nodes@[at])[k], at));
                    }
                    gathered_names(types, parts, rank(kt), named);
                    if types.named_refs(kt).contains(named) {
                        let c = choose|c: int|
                            0 <= c < parts.len() && types.named_refs(#[trigger] parts[c]).contains(
                                named,
                            );
                        assert(parts.contains(parts[c]));
                        let k = choose|k: int|
                            0 <= k < children(node).len() && children(node)[k] == parts[c];
                        assert(types.named_refs(children(node)[k]).contains(named));
                    }
                    if exists|c: int|
                        0 <= c < children(node).len() && types.named_refs(
                            #[trigger] children(node)[c],
                        ).contains(named) {
                        let c = choose|c: int|
                            0 <= c < children(node).len() && types.named_refs(
                                #[trigger] children(node)[c],
                            ).contains(named);
                        let part = children(node)[c];
                        assert(children(node).contains(part));
                        assert(popped_children(node).contains(part));
                        let k = choose|k: int| 0 <= k < parts.len() && parts[k] == part;
                        assert(types.named_refs(parts[k]).contains(named));
                    }
                } else {
                    assert(parts.len() == 0);
                    assert(types.named_refs_all(parts, rank(kt)).len() == 0);
                }
            },
        }
    }
}

proof fn popped_are_children(node: TypeNode)
    ensures
        forall|part: KType| #[trigger]
            popped_children(node).contains(part) <==> children(node).contains(part),
{
    let popped = popped_children(node);
    let parts = children(node);
    match node {
        TypeNode::Record { fields } => {
            turned_around(field_types(fields@));
        },
        TypeNode::KFunction { params, ret } | TypeNode::KFunctor { params, ret } => {
            let own = field_types(params@);
            turned_around(own);
            pushed_behind(own, ret);
            pushed_behind(own.reverse(), ret);
            assert(popped == own.reverse().push(ret));
            assert(parts == own.push(ret));
        },
        _ => {},
    }
}

proof fn turned_around(parts: Seq<KType>)
    ensures
        forall|part: KType| #[trigger] parts.reverse().contains(part) <==> parts.contains(part),
{
    assert forall|part: KType| #[trigger] parts.reverse().contains(part) <==> parts.contains(
        part,
    ) by {
        if parts.contains(part) {
            let k = choose|k: int| 0 <= k < parts.len() && parts[k] == part;
            assert(parts.reverse()[parts.len() - 1 - k] == part);
        }
        if parts.reverse().contains(part) {
            let k = choose|k: int| 0 <= k < parts.len() && parts.reverse()[k] == part;
            assert(parts[parts.len() - 1 - k] == part);
        }
    }
}

proof fn pushed_behind(parts: Seq<KType>, more: KType)
    ensures
        forall|part: KType| #[trigger]
            parts.push(more).contains(part) <==> parts.contains(part) || part == more,
{
    assert forall|part: KType| #[trigger] parts.push(more).contains(part) <==> parts.contains(part)
        || part == more by {
        if parts.contains(part) {
            let k = choose|k: int| 0 <= k < parts.len() && parts[k] == part;
            assert(parts.push(more)[k] == part);
        }
        if part == more {
            assert(parts.push(more)[parts.len() as int] == part);
        }
        if parts.push(more).contains(part) {
            let k = choose|k: int| 0 <= k < parts.len() + 1 && parts.push(more)[k] == part;
            if k < parts.len() {
                assert(parts[k] == part);
            }
        }
    }
}

/// A declaration is unfinished exactly while its own scope has its name claimed, and then waits for
/// that claim.
pub proof fn declarations_wait_for_their_own_claim(levels: Seq<ScopeLevel>, own: NamedRef)
    ensures
        match unfinished(levels, own) {
            Some(source) => exists|l: int|
                {
                    &&& 0 <= l < levels.len()
                    &&& (#[trigger] levels[l]).id == own.scope_id
                    &&& claims_type_first(levels[l], own.name, None, source)
                    &&& forall|j: int|
                        l < j < levels.len() ==> (#[trigger] levels[j]).id != own.scope_id
                },
            None => (forall|l: int|
                0 <= l < levels.len() ==> (#[trigger] levels[l]).id != own.scope_id) || exists|
                l: int,
            |
                {
                    &&& 0 <= l < levels.len()
                    &&& (#[trigger] levels[l]).id == own.scope_id
                    &&& leaves_type_unclaimed(levels[l], own.name, None)
                    &&& forall|j: int|
                        l < j < levels.len() ==> (#[trigger] levels[j]).id != own.scope_id
                },
        },
{
    levels_agree(levels, own);
    declared_types_wait_for_their_own_binder(levels, own.scope_id, own.name);
}

proof fn levels_agree(levels: Seq<ScopeLevel>, own: NamedRef)
    ensures
        unfinished(levels, own) == placeholder_in(levels, own.scope_id, own.name),
    decreases levels.len(),
{
    if levels.len() > 0 {
        levels_agree(levels.drop_last(), own);
    }
}

proof fn unfinished_is_each_source_once(levels: Seq<ScopeLevel>, refs: Seq<NamedRef>)
    ensures
        unfinished_all(levels, refs).no_duplicates(),
        forall|source: ProducerId| #[trigger]
            unfinished_all(levels, refs).contains(source) <==> exists|i: int|
                0 <= i < refs.len() && unfinished(levels, #[trigger] refs[i]) == Some(source),
    decreases refs.len(),
{
    if refs.len() > 0 {
        let rest = refs.drop_last();
        let last = refs.len() - 1;
        unfinished_is_each_source_once(levels, rest);
        let earlier = unfinished_all(levels, rest);
        let all = unfinished_all(levels, refs);
        assert forall|source: ProducerId| #[trigger] all.contains(source) <==> exists|i: int|
            0 <= i < refs.len() && unfinished(levels, #[trigger] refs[i]) == Some(source) by {
            if all.contains(source) {
                if earlier.contains(source) {
                    let i = choose|i: int|
                        0 <= i < rest.len() && unfinished(levels, #[trigger] rest[i]) == Some(
                            source,
                        );
                    assert(refs[i] == rest[i]);
                } else {
                    let k = choose|k: int| 0 <= k < all.len() && all[k] == source;
                    assert(k == earlier.len()) by {
                        if k < earlier.len() {
                            assert(earlier[k] == source);
                        }
                    }
                    assert(unfinished(levels, refs[last]) == Some(source));
                }
            }
            if exists|i: int|
                0 <= i < refs.len() && unfinished(levels, #[trigger] refs[i]) == Some(source) {
                let i = choose|i: int|
                    0 <= i < refs.len() && unfinished(levels, #[trigger] refs[i]) == Some(source);
                if i < last {
                    assert(rest[i] == refs[i]);
                    assert(earlier.contains(source));
                    let k = choose|k: int| 0 <= k < earlier.len() && earlier[k] == source;
                    assert(all[k] == source);
                } else if !earlier.contains(source) {
                    assert(all[earlier.len() as int] == source);
                }
            }
        }
    }
}

/// Whether an entry remembers what a name means to a reader of the innermost level.
pub open spec fn remembers(
    entries: Seq<MemoEntry>,
    levels: Seq<ScopeLevel>,
    chain: Option<&LexicalFrame>,
    name: Symbol,
    k: int,
) -> bool {
    &&& 0 <= k < entries.len()
    &&& entries[k].name == name
    &&& entries[k].cutoff == if levels.len() == 0 {
        None
    } else {
        cutoff_in(chain, levels.last().id)
    }
}

/// A type name that was resolved for the same reader before is what it was then, by the first such
/// entry. Otherwise it resolves to what it means, once no declaration that its type names is
/// unfinished, and is remembered then; until that it waits for exactly those declarations, each once,
/// and is not.
pub proof fn resolved_names_are_remembered(
    types: &TypeRegistry,
    levels: Seq<ScopeLevel>,
    name: Symbol,
    chain: Option<&LexicalFrame>,
    entries: Seq<MemoEntry>,
)
    ensures
        ({
            let (outcome, after) = resolved(types, levels, name, chain, entries);
            let known = exists|k: int| #[trigger] remembers(entries, levels, chain, name, k);
            &&& known ==> after == entries && exists|k: int|
                {
                    &&& #[trigger] remembers(entries, levels, chain, name, k)
                    &&& forall|j: int| j < k ==> !#[trigger] remembers(
                        entries,
                        levels,
                        chain,
                        name,
                        j,
                    )
                    &&& outcome == TypeResolutionView::Done(entries[k].ktype)
                }
            &&& !known ==> match elaborated(levels, name, chain) {
                TypeResolutionView::Done(kt) => {
                    let refs = types.named_refs(kt);
                    let pending = |source: ProducerId|
                        exists|i: int|
                            0 <= i < refs.len() && unfinished(levels, #[trigger] refs[i]) == Some(
                                source,
                            );
                    match outcome {
                        TypeResolutionView::Done(own) => {
                            &&& own == kt
                            &&& forall|i: int|
                                0 <= i < refs.len() ==> unfinished(levels, #[trigger] refs[i])
                                    is None
                            &&& after.len() == entries.len() + 1
                            &&& after.drop_last() == entries
                            &&& remembers(after, levels, chain, name, entries.len() as int)
                            &&& after.last().ktype == kt
                        },
                        TypeResolutionView::Park(sources) => {
                            &&& after == entries
                            &&& sources.len() > 0
                            &&& sources.no_duplicates()
                            &&& forall|source: ProducerId| #[trigger]
                                sources.contains(source) <==> pending(source)
                        },
                        TypeResolutionView::Unbound(_) => false,
                    }
                },
                other => outcome == other && after == entries,
            }
        }),
{
    let cutoff = own_cutoff(levels, chain);
    let p = |e: MemoEntry| e.name == name && e.cutoff == cutoff;
    found_is_first(entries, p);
    let (outcome, after) = resolved(types, levels, name, chain, entries);
    match first_match(entries, p) {
        Some(entry) => {
            let k = choose|k: int|
                {
                    &&& 0 <= k < entries.len()
                    &&& #[trigger] entries[k] == entry
                    &&& p(entry)
                    &&& forall|j: int| 0 <= j < k ==> !p(#[trigger] entries[j])
                };
            assert(remembers(entries, levels, chain, name, k));
            assert forall|j: int| j < k implies !#[trigger] remembers(
                entries,
                levels,
                chain,
                name,
                j,
            ) by {
                if 0 <= j {
                    assert(!p(entries[j]));
                }
            }
        },
        None => {
            assert forall|k: int| !#[trigger] remembers(entries, levels, chain, name, k) by {
                if 0 <= k < entries.len() {
                    assert(!p(entries[k]));
                }
            }
            if let TypeResolutionView::Done(kt) = elaborated(levels, name, chain) {
                let refs = types.named_refs(kt);
                unfinished_is_each_source_once(levels, refs);
                let sources = unfinished_all(levels, refs);
                if sources.len() == 0 {
                    assert forall|i: int| 0 <= i < refs.len() implies unfinished(
                        levels,
                        #[trigger] refs[i],
                    ) is None by {
                        if let Some(source) = unfinished(levels, refs[i]) {
                            assert(sources.contains(source));
                        }
                    }
                    assert(after.drop_last() =~= entries);
                }
            }
        },
    }
}

} // verus!
