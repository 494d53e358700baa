//! The shapes that one turn settles, where the standing of a claimed name's binder is known. None
//! of them has a slot of its own to look for cycles from.

use super::bare_name::{DispositionView, ProducerDisposition, Standings};
use super::outcome::{
    continued, fail, failed, go_on, park_resume, parked, Outcome, OutcomeView, Resume, Work,
};
use crate::decide::resolve::{channel_of, type_channel, TypeChannel};
use crate::error::{raised, ErrorKindView, KError, KErrorKind};
use crate::ktype::{KType, TypeRegistry};
use crate::outcome::{FramePlacement, Obligation};
use crate::scope::{type_in, LexicalFrame, Scope, ScopeLevel, TypeLookup};
use crate::symbol::{Labels, Symbol};
use crate::value::{Carried, ExprId, ProducerId};
use vstd::prelude::*;

verus! {

/// A name that nothing binds.
pub open spec fn unbound(labels: &Labels, name: Symbol) -> OutcomeView {
    failed(raised(ErrorKindView::UnboundName(labels.text_of(name))))
}

/// Fails over a name that nothing binds.
fn fail_unbound(labels: &Labels, name: Symbol) -> (r: Outcome)
    ensures
        r@ == unbound(labels, name),
{
    fail(KError::new(KErrorKind::UnboundName(labels.render(name))))
}

/// A run of one source.
fn lone_source(source: ProducerId) -> (r: Vec<ProducerId>)
    ensures
        r@ == seq![source],
{
    let mut sources: Vec<ProducerId> = Vec::new();
    sources.push(source);
    assert(sources@ =~= seq![source]);
    sources
}

/// What a lone type name comes to: its type, the error of its binder, another look when the binder
/// has just landed, or a wait.
pub open spec fn type_leaf_outcome(
    types: &TypeRegistry,
    levels: Seq<ScopeLevel>,
    lexical: Option<&LexicalFrame>,
    standings: &Standings,
    labels: &Labels,
    obligation: Option<Obligation>,
    name: Symbol,
) -> OutcomeView {
    match channel_of(types, levels, name, lexical) {
        TypeChannel::Done(kt) => OutcomeView::Done(Ok(Carried::Type(kt))),
        TypeChannel::Unbound(missing) => unbound(labels, missing),
        TypeChannel::Parked(source) => match standings.disposition(source, None) {
            DispositionView::Errored(e) => failed(e),
            DispositionView::Ready => continued(
                Work::TypeLeaf(name),
                obligation,
                FramePlacement::Inherit,
            ),
            _ => parked(seq![source], None, Resume::TypeLeaf(name)),
        },
    }
}

/// Decides on a lone type name.
pub fn bare_type_leaf(
    scope: &Scope,
    lexical: Option<&LexicalFrame>,
    types: &TypeRegistry,
    standings: &Standings,
    labels: &Labels,
    obligation: Option<Obligation>,
    name: Symbol,
) -> (r: Outcome)
    ensures
        r@ == type_leaf_outcome(
            types,
            scope.levels@,
            lexical,
            standings,
            labels,
            obligation,
            name,
        ),
{
    match type_channel(scope, name, lexical, types) {
        TypeChannel::Done(kt) => Outcome::Done(Ok(Carried::Type(kt))),
        TypeChannel::Unbound(missing) => fail_unbound(labels, missing),
        TypeChannel::Parked(source) => match standings.producer_disposition(source, None) {
            ProducerDisposition::Errored(e) => fail(e.clone_for_propagation()),
            ProducerDisposition::Ready => go_on(
                Work::TypeLeaf(name),
                obligation,
                FramePlacement::Inherit,
            ),
            _ => park_resume(&lone_source(source), None, Resume::TypeLeaf(name)),
        },
    }
}

/// What the head of a call of a type comes to.
pub enum TypeHead {
    /// The call applies this type.
    Apply(KType),
    Settled(Outcome),
}

/// The content of a [`TypeHead`].
pub enum TypeHeadView {
    Apply(KType),
    Settled(OutcomeView),
}

impl View for TypeHead {
    type V = TypeHeadView;

    open spec fn view(&self) -> TypeHeadView {
        match *self {
            TypeHead::Apply(identity) => TypeHeadView::Apply(identity),
            TypeHead::Settled(outcome) => TypeHeadView::Settled(outcome@),
        }
    }
}

/// What the head of a call of a type comes to. A binder that is done has bound the name or never
/// will.
pub open spec fn type_head_outcome(
    levels: Seq<ScopeLevel>,
    lexical: Option<&LexicalFrame>,
    standings: &Standings,
    labels: &Labels,
    name: Symbol,
    expr: ExprId,
) -> TypeHeadView {
    match type_in(levels, name, lexical) {
        Some(TypeLookup::Bound(identity)) => TypeHeadView::Apply(identity),
        Some(TypeLookup::Parked(source)) => TypeHeadView::Settled(
            match standings.disposition(source, None) {
                DispositionView::Park => parked(seq![source], Some(expr), Resume::TypeCall(expr)),
                _ => unbound(labels, name),
            },
        ),
        None => TypeHeadView::Settled(unbound(labels, name)),
    }
}

/// Resolves the head of a call of a type.
pub fn type_call(
    scope: &Scope,
    lexical: Option<&LexicalFrame>,
    standings: &Standings,
    labels: &Labels,
    name: Symbol,
    expr: ExprId,
) -> (r: TypeHead)
    ensures
        r@ == type_head_outcome(scope.levels@, lexical, standings, labels, name, expr),
{
    match scope.resolve_type_with_chain(name, lexical) {
        Some(TypeLookup::Bound(identity)) => TypeHead::Apply(identity),
        Some(TypeLookup::Parked(source)) => match standings.producer_disposition(source, None) {
            ProducerDisposition::Park => TypeHead::Settled(
                park_resume(&lone_source(source), Some(expr), Resume::TypeCall(expr)),
            ),
            _ => TypeHead::Settled(fail_unbound(labels, name)),
        },
        None => TypeHead::Settled(fail_unbound(labels, name)),
    }
}

} // verus!
