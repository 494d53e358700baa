//! Resolving a bare name where the standing of the binder behind it is known: a binder that failed
//! passes its error on, and one that waits for the reader closes a cycle.

use crate::ast::{ExpressionPart, Spanned, WorkingPart};
use crate::decide::resolve::{channel_of, type_channel, TypeChannel};
use crate::error::{ErrorView, KError};
use crate::ktype::TypeRegistry;
use crate::scope::{first_match, first_match_step, value_in, LexicalFrame, NameLookup, Scope, ScopeLevel};
use crate::symbol::Symbol;
use crate::value::{Carried, NodeId, ProducerId};
use vstd::pervasive::unreached;
use vstd::prelude::*;

verus! {

/// How far a producer has come.
pub enum Standing {
    Running,
    Landed,
    Failed(KError),
}

/// What the scheduler knows of a producer.
pub struct ProducerEntry {
    pub producer: ProducerId,
    pub standing: Standing,
    /// The slots that the producer itself waits for.
    pub waits_for: Vec<NodeId>,
}

/// The producers that the scheduler knows. One that it does not know is running and waits for
/// nothing.
pub struct Standings {
    pub entries: Vec<ProducerEntry>,
}

/// Whether a slot can depend on a producer.
pub enum ProducerDisposition<'a> {
    Errored(&'a KError),
    Ready,
    /// Waiting would close a cycle.
    Cycle,
    Park,
}

/// The content of a [`ProducerDisposition`].
pub enum DispositionView {
    Errored(ErrorView),
    Ready,
    Cycle,
    Park,
}

impl<'a> View for ProducerDisposition<'a> {
    type V = DispositionView;

    open spec fn view(&self) -> DispositionView {
        match *self {
            ProducerDisposition::Errored(e) => DispositionView::Errored(e@),
            ProducerDisposition::Ready => DispositionView::Ready,
            ProducerDisposition::Cycle => DispositionView::Cycle,
            ProducerDisposition::Park => DispositionView::Park,
        }
    }
}

/// What a bare name resolves to.
pub enum NameOutcome {
    Resolved(Carried),
    Parked(ProducerId),
    ProducerErrored(KError),
    Unbound(Symbol),
    /// Waiting for the name would close a cycle.
    Cycle(Symbol),
}

/// The content of a [`NameOutcome`].
pub enum NameView {
    Resolved(Carried),
    Parked(ProducerId),
    ProducerErrored(ErrorView),
    Unbound(Symbol),
    Cycle(Symbol),
}

impl View for NameOutcome {
    type V = NameView;

    open spec fn view(&self) -> NameView {
        match *self {
            NameOutcome::Resolved(carried) => NameView::Resolved(carried),
            NameOutcome::Parked(producer) => NameView::Parked(producer),
            NameOutcome::ProducerErrored(e) => NameView::ProducerErrored(e@),
            NameOutcome::Unbound(name) => NameView::Unbound(name),
            NameOutcome::Cycle(name) => NameView::Cycle(name),
        }
    }
}

impl Standings {
    /// What the scheduler knows of a producer.
    pub open spec fn entry(&self, producer: ProducerId) -> Option<ProducerEntry> {
        first_match(self.entries@, |e: ProducerEntry| e.producer == producer)
    }

    /// Whether a producer waits for a slot.
    pub open spec fn awaits(&self, producer: ProducerId, consumer: NodeId) -> bool {
        match self.entry(producer) {
            Some(entry) => entry.waits_for@.contains(consumer),
            None => false,
        }
    }

    /// Whether a slot can depend on a producer. Without a slot no cycle is looked for.
    pub open spec fn disposition(&self, producer: ProducerId, consumer: Option<NodeId>) -> DispositionView {
        match self.entry(producer) {
            Some(entry) => match entry.standing {
                Standing::Failed(e) => DispositionView::Errored(e@),
                Standing::Landed => DispositionView::Ready,
                Standing::Running => if consumer is Some && self.awaits(producer, consumer->0) {
                    DispositionView::Cycle
                } else {
                    DispositionView::Park
                },
            },
            None => DispositionView::Park,
        }
    }

    /// What the scheduler knows of a producer.
    fn find(&self, producer: ProducerId) -> (r: Option<&ProducerEntry>)
        ensures
            match r {
                Some(entry) => self.entry(producer) == Some(*entry),
                None => self.entry(producer) is None,
            },
    {
        let ghost wanted = |e: ProducerEntry| e.producer == producer;
        let mut i: usize = 0;
        proof {
            assert(self.entries@.skip(0) =~= self.entries@);
        }
        while i < self.entries.len()
            invariant
                i <= self.entries.len(),
                wanted == (|e: ProducerEntry| e.producer == producer),
                first_match(self.entries@, wanted) == first_match(
                    self.entries@.skip(i as int),
                    wanted,
                ),
            decreases self.entries.len() - i,
        {
            proof {
                first_match_step(self.entries@, wanted, i as int);
            }
            if self.entries[i].producer == producer {
                return Some(&self.entries[i]);
            }
            i = i + 1;
        }
        None
    }

    /// Whether waiting for a producer would make a slot wait for itself.
    pub fn would_create_cycle(&self, producer: ProducerId, consumer: NodeId) -> (r: bool)
        ensures
            r == self.awaits(producer, consumer),
    {
        match self.find(producer) {
            Some(entry) => {
                let mut i: usize = 0;
                while i < entry.waits_for.len()
                    invariant
                        i <= entry.waits_for.len(),
                        self.entry(producer) == Some(*entry),
                        forall|k: int| 0 <= k < i ==> entry.waits_for@[k] != consumer,
                    decreases entry.waits_for.len() - i,
                {
                    if entry.waits_for[i] == consumer {
                        return true;
                    }
                    i = i + 1;
                }
                false
            },
            None => false,
        }
    }

    /// Whether a slot can depend on a producer.
    pub fn producer_disposition(&self, producer: ProducerId, consumer: Option<NodeId>) -> (r:
        ProducerDisposition<'_>)
        ensures
            r@ == self.disposition(producer, consumer),
    {
        match self.find(producer) {
            Some(entry) => match &entry.standing {
                Standing::Failed(e) => ProducerDisposition::Errored(e),
                Standing::Landed => ProducerDisposition::Ready,
                Standing::Running => match consumer {
                    Some(slot) => if self.would_create_cycle(producer, slot) {
                        ProducerDisposition::Cycle
                    } else {
                        ProducerDisposition::Park
                    },
                    None => ProducerDisposition::Park,
                },
            },
            None => ProducerDisposition::Park,
        }
    }
}

/// What a name comes to whose binder is `producer`. A binder that landed without binding the name
/// leaves it unbound.
pub open spec fn claimed_name(
    standings: &Standings,
    name: Symbol,
    producer: ProducerId,
    consumer: Option<NodeId>,
) -> NameView {
    match standings.disposition(producer, consumer) {
        DispositionView::Errored(e) => NameView::ProducerErrored(e),
        DispositionView::Ready => NameView::Unbound(name),
        DispositionView::Cycle => NameView::Cycle(name),
        DispositionView::Park => NameView::Parked(producer),
    }
}

/// What a name comes to whose binder is `producer`.
pub fn disposition_for_producer(
    standings: &Standings,
    name: Symbol,
    producer: ProducerId,
    consumer: Option<NodeId>,
) -> (r: NameOutcome)
    ensures
        r@ == claimed_name(standings, name, producer, consumer),
{
    match standings.producer_disposition(producer, consumer) {
        ProducerDisposition::Errored(e) => NameOutcome::ProducerErrored(e.clone_for_propagation()),
        ProducerDisposition::Ready => NameOutcome::Unbound(name),
        ProducerDisposition::Cycle => NameOutcome::Cycle(name),
        ProducerDisposition::Park => NameOutcome::Parked(producer),
    }
}

/// What a type name comes to in the type channel.
pub open spec fn type_name_outcome(
    types: &TypeRegistry,
    levels: Seq<ScopeLevel>,
    name: Symbol,
    chain: Option<&LexicalFrame>,
    standings: &Standings,
    consumer: Option<NodeId>,
) -> NameView {
    match channel_of(types, levels, name, chain) {
        TypeChannel::Done(kt) => NameView::Resolved(Carried::Type(kt)),
        TypeChannel::Unbound(missing) => NameView::Unbound(missing),
        TypeChannel::Parked(producer) => claimed_name(standings, name, producer, consumer),
    }
}

/// What a bare-name part resolves to. A claim in the value channel is waited for first, under
/// either class of name; only a value name reads a binding there.
pub open spec fn name_outcome(
    types: &TypeRegistry,
    levels: Seq<ScopeLevel>,
    part: ExpressionPart,
    chain: Option<&LexicalFrame>,
    standings: &Standings,
    consumer: Option<NodeId>,
) -> NameView {
    match part {
        ExpressionPart::Identifier(name) => match value_in(levels, name, chain) {
            Some(NameLookup::Bound(carried)) => NameView::Resolved(carried),
            Some(NameLookup::Parked(producer)) => claimed_name(standings, name, producer, consumer),
            None => NameView::Unbound(name),
        },
        ExpressionPart::Type(name) => match value_in(levels, name, chain) {
            Some(NameLookup::Parked(producer)) => claimed_name(standings, name, producer, consumer),
            _ => type_name_outcome(types, levels, name, chain, standings, consumer),
        },
        _ => arbitrary(),
    }
}

/// What a type name comes to in the type channel.
fn resolve_type_name(
    scope: &Scope,
    name: Symbol,
    standings: &Standings,
    chain: Option<&LexicalFrame>,
    consumer: Option<NodeId>,
    types: &TypeRegistry,
) -> (r: NameOutcome)
    ensures
        r@ == type_name_outcome(types, scope.levels@, name, chain, standings, consumer),
{
    match type_channel(scope, name, chain, types) {
        TypeChannel::Done(kt) => NameOutcome::Resolved(Carried::Type(kt)),
        TypeChannel::Unbound(missing) => NameOutcome::Unbound(missing),
        TypeChannel::Parked(producer) => disposition_for_producer(
            standings,
            name,
            producer,
            consumer,
        ),
    }
}

/// Resolves a bare-name part. A `consumer` is checked for cycles; without one none is found.
pub fn resolve_name_part(
    scope: &Scope,
    part: ExpressionPart,
    standings: &Standings,
    chain: Option<&LexicalFrame>,
    consumer: Option<NodeId>,
    types: &TypeRegistry,
) -> (r: NameOutcome)
    requires
        part is Identifier || part is Type,
    ensures
        r@ == name_outcome(types, scope.levels@, part, chain, standings, consumer),
{
    match part {
        ExpressionPart::Identifier(name) => match scope.resolve_value(name, chain) {
            Some(NameLookup::Bound(carried)) => NameOutcome::Resolved(carried),
            Some(NameLookup::Parked(producer)) => disposition_for_producer(
                standings,
                name,
                producer,
                consumer,
            ),
            None => NameOutcome::Unbound(name),
        },
        ExpressionPart::Type(name) => match scope.resolve_value(name, chain) {
            Some(NameLookup::Parked(producer)) => disposition_for_producer(
                standings,
                name,
                producer,
                consumer,
            ),
            _ => resolve_type_name(scope, name, standings, chain, consumer, types),
        },
        _ => unreached(),
    }
}

/// A bare name as a slot takes it: its value, the binder to wait for, or nothing.
#[derive(Clone, Copy, PartialEq, Eq, Structural, Debug)]
pub enum BareCarrier {
    Sealed(Carried),
    Parked(ProducerId),
    Unbound(Symbol),
}

/// What a slot takes for a name that has come to `outcome`, where no cycle was looked for.
pub open spec fn carrier_of(outcome: NameView) -> Result<BareCarrier, ErrorView> {
    match outcome {
        NameView::Resolved(carried) => Ok(BareCarrier::Sealed(carried)),
        NameView::Parked(producer) => Ok(BareCarrier::Parked(producer)),
        NameView::ProducerErrored(e) => Err(e),
        NameView::Unbound(name) => Ok(BareCarrier::Unbound(name)),
        NameView::Cycle(name) => Ok(BareCarrier::Unbound(name)),
    }
}

/// What a slot takes for a bare-name part. A value name reads the value channel, a type name the
/// type channel.
pub open spec fn bare_carrier(
    types: &TypeRegistry,
    levels: Seq<ScopeLevel>,
    part: ExpressionPart,
    chain: Option<&LexicalFrame>,
    standings: &Standings,
) -> Result<BareCarrier, ErrorView> {
    match part {
        ExpressionPart::Type(name) => carrier_of(
            type_name_outcome(types, levels, name, chain, standings, None),
        ),
        _ => carrier_of(name_outcome(types, levels, part, chain, standings, None)),
    }
}

/// Resolves a bare-name part to what a slot takes for it; a binder that failed passes its error
/// on.
pub fn resolve_bare_carrier(
    scope: &Scope,
    part: ExpressionPart,
    standings: &Standings,
    chain: Option<&LexicalFrame>,
    types: &TypeRegistry,
) -> (r: Result<BareCarrier, KError>)
    requires
        part is Identifier || part is Type,
    ensures
        match r {
            Ok(carrier) => bare_carrier(types, scope.levels@, part, chain, standings) == Ok::<
                BareCarrier,
                ErrorView,
            >(carrier),
            Err(e) => bare_carrier(types, scope.levels@, part, chain, standings) == Err::<
                BareCarrier,
                ErrorView,
            >(e@),
        },
{
    let outcome = match part {
        ExpressionPart::Type(name) => resolve_type_name(scope, name, standings, chain, None, types),
        _ => resolve_name_part(scope, part, standings, chain, None, types),
    };
    match outcome {
        NameOutcome::Resolved(carried) => Ok(BareCarrier::Sealed(carried)),
        NameOutcome::Parked(producer) => Ok(BareCarrier::Parked(producer)),
        NameOutcome::ProducerErrored(e) => Err(e),
        NameOutcome::Unbound(name) => Ok(BareCarrier::Unbound(name)),
        NameOutcome::Cycle(name) => Ok(BareCarrier::Unbound(name)),
    }
}

/// The name of a bare-name part.
pub open spec fn name_of(part: ExpressionPart) -> Option<Symbol> {
    match part {
        ExpressionPart::Identifier(name) => Some(name),
        ExpressionPart::Type(name) => Some(name),
        _ => None,
    }
}

/// The name of a bare-name part.
pub fn bare_name_of(part: ExpressionPart) -> (r: Option<Symbol>)
    ensures
        r == name_of(part),
{
    match part {
        ExpressionPart::Identifier(name) => Some(name),
        ExpressionPart::Type(name) => Some(name),
        _ => None,
    }
}

/// The content of a slot's outcome.
pub open spec fn option_view(outcome: Option<NameOutcome>) -> Option<NameView> {
    match outcome {
        Some(own) => Some(own@),
        None => None,
    }
}

/// The content of a run of outcomes.
pub open spec fn outcome_views(outcomes: Seq<Option<NameOutcome>>) -> Seq<Option<NameView>> {
    outcomes.map_values(|outcome: Option<NameOutcome>| option_view(outcome))
}

/// What the bare name in a slot resolves to; a slot without one has no outcome.
pub open spec fn slot_outcome(
    types: &TypeRegistry,
    levels: Seq<ScopeLevel>,
    part: WorkingPart,
    chain: Option<&LexicalFrame>,
    standings: &Standings,
) -> Option<NameView> {
    match part {
        WorkingPart::Ast(ast) => if name_of(ast) is Some {
            Some(name_outcome(types, levels, ast, chain, standings, None))
        } else {
            None
        },
        _ => None,
    }
}

/// The outcomes of all slots.
pub open spec fn slot_outcomes(
    types: &TypeRegistry,
    levels: Seq<ScopeLevel>,
    parts: Seq<Spanned>,
    chain: Option<&LexicalFrame>,
    standings: &Standings,
) -> Seq<Option<NameView>> {
    parts.map_values(|part: Spanned| slot_outcome(types, levels, part.value, chain, standings))
}

/// The error of the first slot from `from` on whose binder failed.
pub open spec fn first_failure(outcomes: Seq<Option<NameView>>, from: int) -> Option<ErrorView>
    decreases outcomes.len() - from,
{
    if from < 0 || from >= outcomes.len() {
        None
    } else {
        match outcomes[from] {
            Some(NameView::ProducerErrored(e)) => Some(e),
            _ => first_failure(outcomes, from + 1),
        }
    }
}

/// Resolves the bare names of all slots, one entry per slot; a binder that failed ends it.
pub fn build_bare_outcomes(
    scope: &Scope,
    parts: &Vec<Spanned>,
    standings: &Standings,
    chain: Option<&LexicalFrame>,
    types: &TypeRegistry,
) -> (r: Result<Vec<Option<NameOutcome>>, KError>)
    ensures
        ({
            let all = slot_outcomes(types, scope.levels@, parts@, chain, standings);
            match r {
                Ok(outcomes) => outcome_views(outcomes@) == all && first_failure(all, 0) is None,
                Err(e) => first_failure(all, 0) == Some(e@),
            }
        }),
{
    let mut r: Vec<Option<NameOutcome>> = Vec::new();
    let mut i: usize = 0;
    let ghost all = slot_outcomes(types, scope.levels@, parts@, chain, standings);
    while i < parts.len()
        invariant
            i <= parts.len(),
            all == slot_outcomes(types, scope.levels@, parts@, chain, standings),
            outcome_views(r@) == all.take(i as int),
            first_failure(all, 0) == first_failure(all, i as int),
        decreases parts.len() - i,
    {
        let outcome = match parts[i].value {
            WorkingPart::Ast(ast) => match ast {
                ExpressionPart::Identifier(_) | ExpressionPart::Type(_) => Some(
                    resolve_name_part(scope, ast, standings, chain, None, types),
                ),
                _ => None,
            },
            _ => None,
        };
        assert(option_view(outcome) == all[i as int]);
        if let Some(NameOutcome::ProducerErrored(e)) = outcome {
            return Err(e);
        }
        let ghost before = outcome_views(r@);
        r.push(outcome);
        proof {
            assert(outcome_views(r@) =~= before.push(all[i as int]));
            assert(all.take(i as int + 1) =~= all.take(i as int).push(all[i as int]));
        }
        i = i + 1;
    }
    assert(all.take(i as int) =~= all);
    Ok(r)
}

/// Without a slot to check for, no name ever comes to a cycle.
pub proof fn cycles_need_a_consumer(
    types: &TypeRegistry,
    levels: Seq<ScopeLevel>,
    part: ExpressionPart,
    chain: Option<&LexicalFrame>,
    standings: &Standings,
)
    requires
        part is Identifier || part is Type,
    ensures
        !(name_outcome(types, levels, part, chain, standings, None) is Cycle),
{
}

} // verus!
