//! Resolving a bare name: bound to a value, parked on the binder that claims it, or unbound.

use super::resolve_type_identifier::{gated, TypeResolution, TypeResolutionView};
use super::DecideCtx;
use crate::ast::{ExpressionPart, Spanned, WorkingPart};
use crate::ktype::{KType, TypeRegistry};
use crate::scope::{value_in, LexicalFrame, NameLookup, Scope, ScopeLevel};
use crate::symbol::Symbol;
use crate::value::{Carried, ProducerId};
use vstd::pervasive::unreached;
use vstd::prelude::*;

verus! {

/// What a type name resolves to, with at most one binder to wait for.
#[derive(Clone, Copy, PartialEq, Eq, Structural, Debug)]
pub enum TypeChannel {
    Done(KType),
    Parked(ProducerId),
    Unbound(Symbol),
}

/// What a bare name resolves to.
#[derive(Clone, Copy, PartialEq, Eq, Structural, Debug)]
pub enum Resolution {
    Resolved(Carried),
    Parked(ProducerId),
    Unbound(Symbol),
}

/// Which channel a type name consults first. A value name reads the value channel alone.
#[derive(Clone, Copy, PartialEq, Eq, Structural, Debug)]
pub enum TypeLeafChannels {
    TypeChannel,
    /// A claim under the type's name in the value channel is waited for first.
    ValueChannelFirst,
}

/// What a type name resolves to, with the binders to wait for narrowed to the first.
pub open spec fn channel_of(
    types: &TypeRegistry,
    levels: Seq<ScopeLevel>,
    name: Symbol,
    chain: Option<&LexicalFrame>,
) -> TypeChannel {
    match gated(types, levels, name, chain) {
        TypeResolutionView::Done(kt) => TypeChannel::Done(kt),
        TypeResolutionView::Unbound(missing) => TypeChannel::Unbound(missing),
        TypeResolutionView::Park(sources) => if sources.len() > 0 {
            TypeChannel::Parked(sources[0])
        } else {
            TypeChannel::Unbound(name)
        },
    }
}

/// What a bare-name part resolves to.
pub open spec fn resolution_of(
    types: &TypeRegistry,
    levels: Seq<ScopeLevel>,
    part: ExpressionPart,
    chain: Option<&LexicalFrame>,
    type_leaf: TypeLeafChannels,
) -> Resolution {
    match part {
        ExpressionPart::Identifier(name) => match value_in(levels, name, chain) {
            Some(NameLookup::Bound(carried)) => Resolution::Resolved(carried),
            Some(NameLookup::Parked(source)) => Resolution::Parked(source),
            None => Resolution::Unbound(name),
        },
        ExpressionPart::Type(name) => match (type_leaf, value_in(levels, name, chain)) {
            (
                TypeLeafChannels::ValueChannelFirst,
                Some(NameLookup::Parked(source)),
            ) => Resolution::Parked(source),
            _ => match channel_of(types, levels, name, chain) {
                TypeChannel::Done(kt) => Resolution::Resolved(Carried::Type(kt)),
                TypeChannel::Parked(source) => Resolution::Parked(source),
                TypeChannel::Unbound(missing) => Resolution::Unbound(missing),
            },
        },
        _ => arbitrary(),
    }
}

/// Resolves a type name, narrowing the binders to wait for to the first.
pub fn type_channel(
    scope: &Scope,
    name: Symbol,
    chain: Option<&LexicalFrame>,
    types: &TypeRegistry,
) -> (r: TypeChannel)
    ensures
        r == channel_of(types, scope.levels@, name, chain),
{
    match scope.resolve_type_identifier(name, chain, types) {
        TypeResolution::Done(kt) => TypeChannel::Done(kt),
        TypeResolution::Unbound(missing) => TypeChannel::Unbound(missing),
        TypeResolution::Park(sources) => if sources.len() > 0 {
            TypeChannel::Parked(sources[0])
        } else {
            TypeChannel::Unbound(name)
        },
    }
}

/// Resolves a bare-name part.
pub fn resolve_name(
    scope: &Scope,
    part: ExpressionPart,
    chain: Option<&LexicalFrame>,
    types: &TypeRegistry,
    type_leaf: TypeLeafChannels,
) -> (r: Resolution)
    requires
        part is Identifier || part is Type,
    ensures
        r == resolution_of(types, scope.levels@, part, chain, type_leaf),
{
    match part {
        ExpressionPart::Identifier(name) => match scope.resolve_value(name, chain) {
            Some(NameLookup::Bound(carried)) => Resolution::Resolved(carried),
            Some(NameLookup::Parked(source)) => Resolution::Parked(source),
            None => Resolution::Unbound(name),
        },
        ExpressionPart::Type(name) => {
            if matches!(type_leaf, TypeLeafChannels::ValueChannelFirst) {
                if let Some(NameLookup::Parked(source)) = scope.resolve_value(name, chain) {
                    return Resolution::Parked(source);
                }
            }
            match type_channel(scope, name, chain, types) {
                TypeChannel::Done(kt) => Resolution::Resolved(Carried::Type(kt)),
                TypeChannel::Parked(source) => Resolution::Parked(source),
                TypeChannel::Unbound(missing) => Resolution::Unbound(missing),
            }
        },
        _ => unreached(),
    }
}

/// What the bare name in a slot resolves to; a slot without one has no outcome.
pub open spec fn bare_outcome(
    types: &TypeRegistry,
    levels: Seq<ScopeLevel>,
    part: WorkingPart,
    chain: Option<&LexicalFrame>,
) -> Option<Resolution> {
    match part {
        WorkingPart::Ast(ast) => if part.bare_name() is Some {
            Some(resolution_of(types, levels, ast, chain, TypeLeafChannels::ValueChannelFirst))
        } else {
            None
        },
        _ => None,
    }
}

/// The outcomes of all slots.
pub open spec fn bare_outcomes_of(
    types: &TypeRegistry,
    levels: Seq<ScopeLevel>,
    parts: Seq<Spanned>,
    chain: Option<&LexicalFrame>,
) -> Seq<Option<Resolution>> {
    parts.map_values(|part: Spanned| bare_outcome(types, levels, part.value, chain))
}

/// Resolves the bare names of all slots, one entry per slot.
pub fn build_bare_outcomes(ctx: &DecideCtx, types: &TypeRegistry, parts: &Vec<Spanned>) -> (r: Vec<
    Option<Resolution>,
>)
    ensures
        r@ == bare_outcomes_of(types, ctx.scope.levels@, parts@, ctx.chain),
{
    let mut r: Vec<Option<Resolution>> = Vec::new();
    let mut i: usize = 0;
    let ghost all = bare_outcomes_of(types, ctx.scope.levels@, parts@, ctx.chain);
    while i < parts.len()
        invariant
            i <= parts.len(),
            all == bare_outcomes_of(types, ctx.scope.levels@, parts@, ctx.chain),
            r@ == all.take(i as int),
        decreases parts.len() - i,
    {
        let outcome = match parts[i].value {
            WorkingPart::Ast(ast) => match ast {
                ExpressionPart::Identifier(_) | ExpressionPart::Type(_) => Some(
                    resolve_name(
                        ctx.scope,
                        ast,
                        ctx.chain,
                        types,
                        TypeLeafChannels::ValueChannelFirst,
                    ),
                ),
                _ => None,
            },
            _ => None,
        };
        r.push(outcome);
        assert(all.take(i as int + 1) =~= all.take(i as int).push(outcome));
        i = i + 1;
    }
    assert(all.take(i as int) =~= all);
    r
}

/// A name never waits for the statement that introduces it: what the reader's own statement
/// claims is invisible to it, so a lone claim at the reader's position leaves the name unbound.
pub proof fn a_statement_never_waits_for_itself(
    types: &TypeRegistry,
    level: ScopeLevel,
    frame: LexicalFrame,
    name: Symbol,
)
    requires
        frame.position_in(level.id) is Some,
        forall|i: int|
            0 <= i < level.values@.len() ==> (#[trigger] level.values@[i]).name != name
                || level.values@[i].index >= frame.position_in(level.id)->0,
    ensures
        resolution_of(
            types,
            seq![level],
            ExpressionPart::Identifier(name),
            Some(&frame),
            TypeLeafChannels::TypeChannel,
        ) == Resolution::Unbound(name),
{
    let cutoff = frame.position_in(level.id);
    no_visible_entry(level.values@, name, cutoff);
    assert(seq![level].drop_last() =~= Seq::<ScopeLevel>::empty());
    assert(seq![level].last() == level);
    assert(value_in(Seq::<ScopeLevel>::empty(), name, Some(&frame)) is None);
    assert(level.value_at(name, cutoff) is None);
    assert(value_in(seq![level], name, Some(&frame)) is None);
}

proof fn no_visible_entry(
    entries: Seq<crate::scope::ValueEntry>,
    name: Symbol,
    cutoff: Option<usize>,
)
    requires
        cutoff is Some,
        forall|i: int|
            0 <= i < entries.len() ==> (#[trigger] entries[i]).name != name || entries[i].index
                >= cutoff->0,
    ensures
        crate::scope::first_match(
            entries,
            |e: crate::scope::ValueEntry| ScopeLevel::binds(e, name, cutoff),
        ) is None,
        crate::scope::first_match(
            entries,
            |e: crate::scope::ValueEntry| ScopeLevel::claims(e, name, cutoff),
        ) is None,
    decreases entries.len(),
{
    if entries.len() > 0 {
        assert forall|i: int| 0 <= i < entries.drop_first().len() implies (
        #[trigger] entries.drop_first()[i]).name != name || entries.drop_first()[i].index
            >= cutoff->0 by {
            assert(entries.drop_first()[i] == entries[i + 1]);
        }
        no_visible_entry(entries.drop_first(), name, cutoff);
    }
}

} // verus!
