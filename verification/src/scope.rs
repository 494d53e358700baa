//! Lexical scopes: what names, types, overloads and operators are bound at each level, and what is
//! claimed by a binder that has not landed yet.
//!
//! A [`Scope`] is a chain of levels, outermost first. Every entry of a level sits at a lexical
//! position, and a reader whose own position in that level is known sees only what comes before it.

use crate::ast::KeyElement;
use crate::ktype::{KType, ScopeId};
use crate::region::BindKind;
use crate::symbol::Symbol;
use crate::value::{Carried, FnId, ProducerId};
use vstd::prelude::*;

verus! {

/// A reader's position in one scope.
#[derive(Clone, Copy, PartialEq, Eq, Structural, Debug)]
pub struct Position {
    pub scope: ScopeId,
    pub index: usize,
}

/// A reader's positions in the scopes around it.
pub struct LexicalFrame {
    pub positions: Vec<Position>,
}

/// What a name is bound to, or who is about to bind it.
#[derive(Clone, Copy, PartialEq, Eq, Structural, Debug)]
pub enum ValueState {
    Bound(Carried),
    Claimed(ProducerId),
}

/// A value name of a level.
#[derive(Clone, Copy, PartialEq, Eq, Structural, Debug)]
pub struct ValueEntry {
    pub name: Symbol,
    pub index: usize,
    pub state: ValueState,
}

/// What a type name is bound to, or who is about to bind it.
#[derive(Clone, Copy, PartialEq, Eq, Structural, Debug)]
pub enum TypeState {
    Bound(KType),
    Claimed(ProducerId),
}

/// A type name of a level.
#[derive(Clone, Copy, PartialEq, Eq, Structural, Debug)]
pub struct TypeEntry {
    pub name: Symbol,
    pub index: usize,
    pub state: TypeState,
}

/// A registered overload, or who is about to register one.
#[derive(Clone, Copy, PartialEq, Eq, Structural, Debug)]
pub enum OverloadState {
    Bound(FnId),
    Claimed(ProducerId),
}

/// An overload of a level, under the key it is found by.
pub struct OverloadEntry {
    pub key: Vec<KeyElement>,
    pub index: usize,
    pub builtin: bool,
    pub state: OverloadState,
}

/// Which end a fold starts from.
#[derive(Clone, Copy, PartialEq, Eq, Structural, Debug)]
pub enum FoldDirection {
    Left,
    Right,
}

/// How a chain of operators reduces.
#[derive(Clone, Copy, PartialEq, Eq, Structural, Debug)]
pub enum ReductionMode {
    FoldLeft,
    FoldRight,
    Unary,
    Pairwise { combiner: Symbol, direction: FoldDirection },
}

/// Operators that may be chained with each other.
pub struct OperatorGroup {
    pub operators: Vec<Symbol>,
    pub mode: ReductionMode,
}

/// An operator group of a level, under the operators it is found by.
pub struct OperatorEntry {
    pub probe: Vec<Symbol>,
    pub index: usize,
    pub group: OperatorGroup,
}

/// A group of type declarations that are sealed together.
pub struct Window {
    pub id: usize,
    pub members: Vec<Symbol>,
    pub filled: Vec<bool>,
}

/// One level of a scope chain.
pub struct ScopeLevel {
    pub id: ScopeId,
    pub values: Vec<ValueEntry>,
    pub types: Vec<TypeEntry>,
    pub overloads: Vec<OverloadEntry>,
    pub operators: Vec<OperatorEntry>,
    pub window: Option<Window>,
}

/// A chain of levels, outermost first.
pub struct Scope {
    pub levels: Vec<ScopeLevel>,
}

/// What a value name means to a reader.
#[derive(Clone, Copy, PartialEq, Eq, Structural, Debug)]
pub enum NameLookup {
    Bound(Carried),
    Parked(ProducerId),
}

/// What a type name means to a reader.
#[derive(Clone, Copy, PartialEq, Eq, Structural, Debug)]
pub enum TypeLookup {
    Bound(KType),
    Parked(ProducerId),
}

/// The overloads of one level under one key: those that landed, and the first that has not.
pub struct FunctionLookup {
    pub overloads: Vec<FnId>,
    pub pending: Option<ProducerId>,
}

/// The first item that satisfies `p`.
pub open spec fn first_match<T>(items: Seq<T>, p: spec_fn(T) -> bool) -> Option<T>
    decreases items.len(),
{
    if items.len() == 0 {
        None
    } else if p(items[0]) {
        Some(items[0])
    } else {
        first_match(items.drop_first(), p)
    }
}

/// One step of a search from the front.
pub proof fn first_match_step<T>(items: Seq<T>, p: spec_fn(T) -> bool, at: int)
    requires
        0 <= at < items.len(),
    ensures
        first_match(items.skip(at), p) == if p(items[at]) {
            Some(items[at])
        } else {
            first_match(items.skip(at + 1), p)
        },
{
    assert(items.skip(at).drop_first() =~= items.skip(at + 1));
}

/// Whether an entry at `index` comes before the reader.
pub open spec fn visible(index: usize, cutoff: Option<usize>) -> bool {
    match cutoff {
        Some(own) => index < own,
        None => true,
    }
}

/// Whether an entry at `index` comes before the reader.
pub fn is_visible(index: usize, cutoff: Option<usize>) -> (r: bool)
    ensures
        r == visible(index, cutoff),
{
    match cutoff {
        Some(own) => index < own,
        None => true,
    }
}

impl LexicalFrame {
    /// The reader's position in a scope, when it has one.
    pub open spec fn position_in(&self, scope: ScopeId) -> Option<usize> {
        match first_match(self.positions@, |position: Position| position.scope == scope) {
            Some(position) => Some(position.index),
            None => None,
        }
    }

    /// The reader's position in a scope, when it has one.
    pub fn index_for(&self, scope: ScopeId) -> (r: Option<usize>)
        ensures
            r == self.position_in(scope),
    {
        let ghost wanted = |position: Position| position.scope == scope;
        let mut i: usize = 0;
        proof {
            assert(self.positions@.skip(0) =~= self.positions@);
        }
        while i < self.positions.len()
            invariant
                i <= self.positions.len(),
                wanted == (|position: Position| position.scope == scope),
                first_match(self.positions@, wanted) == first_match(
                    self.positions@.skip(i as int),
                    wanted,
                ),
            decreases self.positions.len() - i,
        {
            proof {
                first_match_step(self.positions@, wanted, i as int);
            }
            if self.positions[i].scope == scope {
                return Some(self.positions[i].index);
            }
            i = i + 1;
        }
        None
    }
}

/// The reader's position in a scope. Without a chain every scope is complete to the reader.
pub open spec fn cutoff_in(chain: Option<&LexicalFrame>, scope: ScopeId) -> Option<usize> {
    match chain {
        Some(frame) => frame.position_in(scope),
        None => None,
    }
}

/// The reader's position in a scope.
pub fn binding_cutoff(chain: Option<&LexicalFrame>, scope: ScopeId) -> (r: Option<usize>)
    ensures
        r == cutoff_in(chain, scope),
{
    match chain {
        Some(frame) => frame.index_for(scope),
        None => None,
    }
}

impl ScopeLevel {
    /// A bound value of this level that the reader sees.
    pub open spec fn binds(entry: ValueEntry, name: Symbol, cutoff: Option<usize>) -> bool {
        entry.name == name && visible(entry.index, cutoff) && entry.state is Bound
    }

    /// A claimed value of this level that the reader sees.
    pub open spec fn claims(entry: ValueEntry, name: Symbol, cutoff: Option<usize>) -> bool {
        entry.name == name && visible(entry.index, cutoff) && entry.state is Claimed
    }

    /// What a value name means at this level: a binding wins over a claim.
    pub open spec fn value_at(&self, name: Symbol, cutoff: Option<usize>) -> Option<NameLookup> {
        match first_match(self.values@, |e: ValueEntry| Self::binds(e, name, cutoff)) {
            Some(entry) => Some(NameLookup::Bound(entry.state->Bound_0)),
            None => match first_match(self.values@, |e: ValueEntry| Self::claims(e, name, cutoff)) {
                Some(entry) => Some(NameLookup::Parked(entry.state->Claimed_0)),
                None => None,
            },
        }
    }

    /// A bound type of this level that the reader sees.
    pub open spec fn binds_type(entry: TypeEntry, name: Symbol, cutoff: Option<usize>) -> bool {
        entry.name == name && visible(entry.index, cutoff) && entry.state is Bound
    }

    /// A claimed type of this level that the reader sees.
    pub open spec fn claims_type(entry: TypeEntry, name: Symbol, cutoff: Option<usize>) -> bool {
        entry.name == name && visible(entry.index, cutoff) && entry.state is Claimed
    }

    /// The type that a name is bound to at this level.
    pub open spec fn bound_type_at(&self, name: Symbol, cutoff: Option<usize>) -> Option<KType> {
        match first_match(self.types@, |e: TypeEntry| Self::binds_type(e, name, cutoff)) {
            Some(entry) => Some(entry.state->Bound_0),
            None => None,
        }
    }

    /// The binder that has claimed a type name at this level.
    pub open spec fn claimed_type_at(&self, name: Symbol, cutoff: Option<usize>) -> Option<
        ProducerId,
    > {
        match first_match(self.types@, |e: TypeEntry| Self::claims_type(e, name, cutoff)) {
            Some(entry) => Some(entry.state->Claimed_0),
            None => None,
        }
    }

    /// What a type name means at this level: a binding wins over a claim.
    pub open spec fn type_at(&self, name: Symbol, cutoff: Option<usize>) -> Option<TypeLookup> {
        match self.bound_type_at(name, cutoff) {
            Some(kt) => Some(TypeLookup::Bound(kt)),
            None => match self.claimed_type_at(name, cutoff) {
                Some(source) => Some(TypeLookup::Parked(source)),
                None => None,
            },
        }
    }

    /// The overloads of this level that the reader sees under `key`, in registration order.
    pub open spec fn overloads_at(
        entries: Seq<OverloadEntry>,
        key: Seq<KeyElement>,
        cutoff: Option<usize>,
    ) -> Seq<FnId>
        decreases entries.len(),
    {
        if entries.len() == 0 {
            Seq::empty()
        } else {
            let earlier = Self::overloads_at(entries.drop_last(), key, cutoff);
            let last = entries.last();
            if last.key@ == key && visible(last.index, cutoff) && last.state is Bound {
                earlier.push(last.state->Bound_0)
            } else {
                earlier
            }
        }
    }

    /// Whether `entry` claims `key` ahead of the reader.
    pub open spec fn claims_key(
        entry: OverloadEntry,
        key: Seq<KeyElement>,
        cutoff: Option<usize>,
    ) -> bool {
        entry.key@ == key && visible(entry.index, cutoff) && entry.state is Claimed
    }

    /// The binder that has claimed `key` at this level.
    pub open spec fn claimed_key_at(&self, key: Seq<KeyElement>, cutoff: Option<usize>) -> Option<
        ProducerId,
    > {
        match first_match(
            self.overloads@,
            |e: OverloadEntry| Self::claims_key(e, key, cutoff),
        ) {
            Some(entry) => Some(entry.state->Claimed_0),
            None => None,
        }
    }

    /// Whether a builtin is registered under `key` at this level.
    pub open spec fn has_builtin(&self, key: Seq<KeyElement>) -> bool {
        exists|i: int|
            0 <= i < self.overloads@.len() && (#[trigger] self.overloads@[i]).builtin
                && self.overloads@[i].key@ == key
    }

    /// The window member that `name` announces at this level.
    pub open spec fn announced(&self, name: Symbol) -> Option<usize> {
        match self.window {
            Some(window) => index_in(window.members@, name),
            None => None,
        }
    }

    /// What a value name means at this level.
    pub fn lookup_value(&self, name: Symbol, cutoff: Option<usize>) -> (r: Option<NameLookup>)
        ensures
            r == self.value_at(name, cutoff),
    {
        let ghost bound = |e: ValueEntry| Self::binds(e, name, cutoff);
        let ghost claimed = |e: ValueEntry| Self::claims(e, name, cutoff);
        let mut i: usize = 0;
        let mut claim: Option<ProducerId> = None;
        proof {
            assert(self.values@.skip(0) =~= self.values@);
        }
        while i < self.values.len()
            invariant
                i <= self.values.len(),
                bound == (|e: ValueEntry| Self::binds(e, name, cutoff)),
                claimed == (|e: ValueEntry| Self::claims(e, name, cutoff)),
                first_match(self.values@, bound) == first_match(
                    self.values@.skip(i as int),
                    bound,
                ),
                claim is None ==> first_match(self.values@, claimed) == first_match(
                    self.values@.skip(i as int),
                    claimed,
                ),
                claim is Some ==> (first_match(self.values@, claimed) matches Some(entry)
                    && entry.state is Claimed && entry.state->Claimed_0 == claim->0),
            decreases self.values.len() - i,
        {
            proof {
                first_match_step(self.values@, bound, i as int);
                first_match_step(self.values@, claimed, i as int);
            }
            let entry = self.values[i];
            if entry.name == name && is_visible(entry.index, cutoff) {
                match entry.state {
                    ValueState::Bound(carried) => {
                        return Some(NameLookup::Bound(carried));
                    },
                    ValueState::Claimed(source) => {
                        if claim.is_none() {
                            claim = Some(source);
                        }
                    },
                }
            }
            i = i + 1;
        }
        match claim {
            Some(source) => Some(NameLookup::Parked(source)),
            None => None,
        }
    }

    /// The type that a name is bound to at this level.
    pub fn bound_type(&self, name: Symbol, cutoff: Option<usize>) -> (r: Option<KType>)
        ensures
            r == self.bound_type_at(name, cutoff),
    {
        let ghost bound = |e: TypeEntry| Self::binds_type(e, name, cutoff);
        let mut i: usize = 0;
        proof {
            assert(self.types@.skip(0) =~= self.types@);
        }
        while i < self.types.len()
            invariant
                i <= self.types.len(),
                bound == (|e: TypeEntry| Self::binds_type(e, name, cutoff)),
                first_match(self.types@, bound) == first_match(self.types@.skip(i as int), bound),
            decreases self.types.len() - i,
        {
            proof {
                first_match_step(self.types@, bound, i as int);
            }
            let entry = self.types[i];
            if entry.name == name && is_visible(entry.index, cutoff) {
                if let TypeState::Bound(kt) = entry.state {
                    return Some(kt);
                }
            }
            i = i + 1;
        }
        None
    }

    /// The binder that has claimed a type name at this level.
    pub fn claimed_type(&self, name: Symbol, cutoff: Option<usize>) -> (r: Option<ProducerId>)
        ensures
            r == self.claimed_type_at(name, cutoff),
    {
        let ghost claimed = |e: TypeEntry| Self::claims_type(e, name, cutoff);
        let mut i: usize = 0;
        proof {
            assert(self.types@.skip(0) =~= self.types@);
        }
        while i < self.types.len()
            invariant
                i <= self.types.len(),
                claimed == (|e: TypeEntry| Self::claims_type(e, name, cutoff)),
                first_match(self.types@, claimed) == first_match(
                    self.types@.skip(i as int),
                    claimed,
                ),
            decreases self.types.len() - i,
        {
            proof {
                first_match_step(self.types@, claimed, i as int);
            }
            let entry = self.types[i];
            if entry.name == name && is_visible(entry.index, cutoff) {
                if let TypeState::Claimed(source) = entry.state {
                    return Some(source);
                }
            }
            i = i + 1;
        }
        None
    }

    /// The binder behind a type name's placeholder, wherever it stands in the level.
    pub fn type_placeholder_producer(&self, name: Symbol) -> (r: Option<ProducerId>)
        ensures
            r == self.claimed_type_at(name, None),
    {
        self.claimed_type(name, None)
    }

    /// What a type name means at this level.
    pub fn lookup_type(&self, name: Symbol, cutoff: Option<usize>) -> (r: Option<TypeLookup>)
        ensures
            r == self.type_at(name, cutoff),
    {
        match self.bound_type(name, cutoff) {
            Some(kt) => Some(TypeLookup::Bound(kt)),
            None => match self.claimed_type(name, cutoff) {
                Some(source) => Some(TypeLookup::Parked(source)),
                None => None,
            },
        }
    }

    /// The binder that has claimed `key` at this level.
    pub fn claimed_bucket_producer(&self, key: &Vec<KeyElement>, cutoff: Option<usize>) -> (r:
        Option<ProducerId>)
        ensures
            r == self.claimed_key_at(key@, cutoff),
    {
        let ghost claimed = |e: OverloadEntry| Self::claims_key(e, key@, cutoff);
        let mut i: usize = 0;
        proof {
            assert(self.overloads@.skip(0) =~= self.overloads@);
        }
        while i < self.overloads.len()
            invariant
                i <= self.overloads.len(),
                claimed == (|e: OverloadEntry| Self::claims_key(e, key@, cutoff)),
                first_match(self.overloads@, claimed) == first_match(
                    self.overloads@.skip(i as int),
                    claimed,
                ),
            decreases self.overloads.len() - i,
        {
            proof {
                first_match_step(self.overloads@, claimed, i as int);
            }
            let entry = &self.overloads[i];
            if same_key(&entry.key, key) && is_visible(entry.index, cutoff) {
                if let OverloadState::Claimed(source) = entry.state {
                    return Some(source);
                }
            }
            i = i + 1;
        }
        None
    }

    /// The overloads of this level under `key`.
    pub fn lookup_function(&self, key: &Vec<KeyElement>, cutoff: Option<usize>) -> (r:
        FunctionLookup)
        ensures
            r.overloads@ == Self::overloads_at(self.overloads@, key@, cutoff),
            r.pending == self.claimed_key_at(key@, cutoff),
    {
        let mut overloads: Vec<FnId> = Vec::new();
        let mut i: usize = 0;
        proof {
            assert(self.overloads@.take(0) =~= Seq::<OverloadEntry>::empty());
        }
        while i < self.overloads.len()
            invariant
                i <= self.overloads.len(),
                overloads@ == Self::overloads_at(self.overloads@.take(i as int), key@, cutoff),
            decreases self.overloads.len() - i,
        {
            proof {
                assert(self.overloads@.take(i as int + 1).drop_last() =~= self.overloads@.take(
                    i as int,
                ));
            }
            let entry = &self.overloads[i];
            if same_key(&entry.key, key) && is_visible(entry.index, cutoff) {
                if let OverloadState::Bound(function) = entry.state {
                    overloads.push(function);
                }
            }
            i = i + 1;
        }
        proof {
            assert(self.overloads@.take(i as int) =~= self.overloads@);
        }
        FunctionLookup { overloads, pending: self.claimed_bucket_producer(key, cutoff) }
    }

    /// Whether a builtin is registered under `key` at this level.
    pub fn has_builtin_function(&self, key: &Vec<KeyElement>) -> (r: bool)
        ensures
            r == self.has_builtin(key@),
    {
        let mut i: usize = 0;
        while i < self.overloads.len()
            invariant
                i <= self.overloads.len(),
                forall|k: int|
                    0 <= k < i ==> !((#[trigger] self.overloads@[k]).builtin
                        && self.overloads@[k].key@ == key@),
            decreases self.overloads.len() - i,
        {
            if self.overloads[i].builtin && same_key(&self.overloads[i].key, key) {
                return true;
            }
            i = i + 1;
        }
        false
    }

    /// The window member that `name` announces at this level.
    pub fn announced_member(&self, name: Symbol) -> (r: Option<usize>)
        ensures
            r == self.announced(name),
    {
        match &self.window {
            Some(window) => position_of(&window.members, name),
            None => None,
        }
    }
}

/// The place of the first occurrence of `wanted`.
pub open spec fn index_in(items: Seq<Symbol>, wanted: Symbol) -> Option<usize>
    decreases items.len(),
{
    if items.len() == 0 {
        None
    } else {
        match index_in(items.drop_last(), wanted) {
            Some(at) => Some(at),
            None => if items.last() == wanted {
                Some((items.len() - 1) as usize)
            } else {
                None
            },
        }
    }
}

/// The place of the first occurrence of `wanted`.
pub fn position_of(items: &Vec<Symbol>, wanted: Symbol) -> (r: Option<usize>)
    ensures
        r == index_in(items@, wanted),
{
    let mut found: Option<usize> = None;
    let mut i: usize = 0;
    proof {
        assert(items@.take(0) =~= Seq::<Symbol>::empty());
    }
    while i < items.len()
        invariant
            i <= items.len(),
            found == index_in(items@.take(i as int), wanted),
        decreases items.len() - i,
    {
        proof {
            assert(items@.take(i as int + 1).drop_last() =~= items@.take(i as int));
        }
        if found.is_none() && items[i] == wanted {
            found = Some(i);
        }
        i = i + 1;
    }
    proof {
        assert(items@.take(i as int) =~= items@);
    }
    found
}

/// Whether two keys are equal.
pub fn same_key(a: &Vec<KeyElement>, b: &Vec<KeyElement>) -> (r: bool)
    ensures
        r == (a@ == b@),
{
    if a.len() != b.len() {
        return false;
    }
    let mut i: usize = 0;
    while i < a.len()
        invariant
            i <= a.len(),
            a.len() == b.len(),
            forall|k: int| 0 <= k < i ==> a@[k] == b@[k],
        decreases a.len() - i,
    {
        if a[i] != b[i] {
            return false;
        }
        i = i + 1;
    }
    assert(a@ =~= b@);
    true
}

/// What a value name means to a reader: the innermost level that binds or claims it decides.
pub open spec fn value_in(
    levels: Seq<ScopeLevel>,
    name: Symbol,
    chain: Option<&LexicalFrame>,
) -> Option<NameLookup>
    decreases levels.len(),
{
    if levels.len() == 0 {
        None
    } else {
        match levels.last().value_at(name, cutoff_in(chain, levels.last().id)) {
            Some(found) => Some(found),
            None => value_in(levels.drop_last(), name, chain),
        }
    }
}

/// What a type name means to a reader: the innermost level that binds or claims it decides.
pub open spec fn type_in(
    levels: Seq<ScopeLevel>,
    name: Symbol,
    chain: Option<&LexicalFrame>,
) -> Option<TypeLookup>
    decreases levels.len(),
{
    if levels.len() == 0 {
        None
    } else {
        match levels.last().type_at(name, cutoff_in(chain, levels.last().id)) {
            Some(found) => Some(found),
            None => type_in(levels.drop_last(), name, chain),
        }
    }
}

/// The binder behind the placeholder of `name` in the innermost level with the given identity.
pub open spec fn placeholder_in(levels: Seq<ScopeLevel>, scope: ScopeId, name: Symbol) -> Option<
    ProducerId,
>
    decreases levels.len(),
{
    if levels.len() == 0 {
        None
    } else if levels.last().id == scope {
        levels.last().claimed_type_at(name, None)
    } else {
        placeholder_in(levels.drop_last(), scope, name)
    }
}

/// Whether two runs hold the same symbols, however often and in whatever order.
pub open spec fn same_operators(a: Seq<Symbol>, b: Seq<Symbol>) -> bool {
    a.to_set() == b.to_set()
}

impl OperatorGroup {
    /// Whether every one of `operators` belongs to the group.
    pub open spec fn covers(&self, operators: Seq<Symbol>) -> bool {
        forall|i: int|
            0 <= i < operators.len() ==> self.operators@.contains(#[trigger] operators[i])
    }

    /// Whether every one of `operators` belongs to the group.
    pub fn covers_all(&self, operators: &Vec<Symbol>) -> (r: bool)
        ensures
            r == self.covers(operators@),
    {
        let mut i: usize = 0;
        while i < operators.len()
            invariant
                i <= operators.len(),
                forall|k: int|
                    0 <= k < i ==> self.operators@.contains(#[trigger] operators@[k]),
            decreases operators.len() - i,
        {
            if !holds_symbol(&self.operators, operators[i]) {
                return false;
            }
            i = i + 1;
        }
        true
    }
}

/// Whether `items` holds `wanted`.
pub fn holds_symbol(items: &Vec<Symbol>, wanted: Symbol) -> (r: bool)
    ensures
        r == items@.contains(wanted),
{
    let mut i: usize = 0;
    while i < items.len()
        invariant
            i <= items.len(),
            forall|k: int| 0 <= k < i ==> items@[k] != wanted,
        decreases items.len() - i,
    {
        if items[i] == wanted {
            return true;
        }
        i = i + 1;
    }
    false
}

/// Whether every symbol of `a` occurs in `b`.
fn all_within(a: &Vec<Symbol>, b: &Vec<Symbol>) -> (r: bool)
    ensures
        r == a@.to_set().subset_of(b@.to_set()),
{
    broadcast use vstd::seq_lib::group_seq_properties;

    let mut i: usize = 0;
    while i < a.len()
        invariant
            i <= a.len(),
            forall|k: int| 0 <= k < i ==> b@.contains(#[trigger] a@[k]),
        decreases a.len() - i,
    {
        if !holds_symbol(b, a[i]) {
            assert(a@.to_set().contains(a@[i as int]));
            return false;
        }
        i = i + 1;
    }
    assert forall|s: Symbol| a@.to_set().contains(s) implies b@.to_set().contains(s) by {
        assert(a@.contains(s));
        let k = choose|k: int| 0 <= k < a@.len() && a@[k] == s;
        assert(b@.contains(a@[k]));
    }
    true
}

/// Whether two runs hold the same symbols.
pub fn operators_agree(a: &Vec<Symbol>, b: &Vec<Symbol>) -> (r: bool)
    ensures
        r == same_operators(a@, b@),
{
    let r = all_within(a, b) && all_within(b, a);
    proof {
        if r {
            assert(a@.to_set() =~= b@.to_set());
        }
    }
    r
}

impl ScopeLevel {
    /// Whether an operator entry answers a probe of the reader.
    pub open spec fn answers(
        entry: OperatorEntry,
        operators: Seq<Symbol>,
        cutoff: Option<usize>,
    ) -> bool {
        same_operators(entry.probe@, operators) && visible(entry.index, cutoff)
    }

    /// The group that answers a probe at this level.
    pub open spec fn group_at(&self, operators: Seq<Symbol>, cutoff: Option<usize>) -> Option<
        OperatorGroup,
    > {
        match first_match(
            self.operators@,
            |e: OperatorEntry| Self::answers(e, operators, cutoff),
        ) {
            Some(entry) => Some(entry.group),
            None => None,
        }
    }

    /// The group that answers a probe at this level.
    pub fn lookup_group(&self, operators: &Vec<Symbol>, cutoff: Option<usize>) -> (r: Option<
        &OperatorGroup,
    >)
        ensures
            match r {
                Some(group) => self.group_at(operators@, cutoff) == Some(*group),
                None => self.group_at(operators@, cutoff) is None,
            },
    {
        let ghost wanted = |e: OperatorEntry| Self::answers(e, operators@, cutoff);
        let mut i: usize = 0;
        proof {
            assert(self.operators@.skip(0) =~= self.operators@);
        }
        while i < self.operators.len()
            invariant
                i <= self.operators.len(),
                wanted == (|e: OperatorEntry| Self::answers(e, operators@, cutoff)),
                first_match(self.operators@, wanted) == first_match(
                    self.operators@.skip(i as int),
                    wanted,
                ),
            decreases self.operators.len() - i,
        {
            proof {
                first_match_step(self.operators@, wanted, i as int);
            }
            let entry = &self.operators[i];
            if operators_agree(&entry.probe, operators) && is_visible(entry.index, cutoff) {
                return Some(&entry.group);
            }
            i = i + 1;
        }
        None
    }
}

/// The group that answers a probe of the reader: the innermost level that has one decides.
pub open spec fn group_in(
    levels: Seq<ScopeLevel>,
    operators: Seq<Symbol>,
    chain: Option<&LexicalFrame>,
) -> Option<OperatorGroup>
    decreases levels.len(),
{
    if levels.len() == 0 {
        None
    } else {
        match levels.last().group_at(operators, cutoff_in(chain, levels.last().id)) {
            Some(found) => Some(found),
            None => group_in(levels.drop_last(), operators, chain),
        }
    }
}

/// The window that is open at the innermost of `levels`.
pub open spec fn window_in(levels: Seq<ScopeLevel>) -> Option<Window>
    decreases levels.len(),
{
    if levels.len() == 0 {
        None
    } else {
        match levels.last().window {
            Some(window) => Some(window),
            None => window_in(levels.drop_last()),
        }
    }
}

impl Scope {
    /// What a value name means to a reader.
    pub fn resolve_value(&self, name: Symbol, chain: Option<&LexicalFrame>) -> (r: Option<
        NameLookup,
    >)
        ensures
            r == value_in(self.levels@, name, chain),
    {
        let mut at: usize = self.levels.len();
        proof {
            assert(self.levels@.take(at as int) =~= self.levels@);
        }
        while at > 0
            invariant
                at <= self.levels.len(),
                value_in(self.levels@, name, chain) == value_in(
                    self.levels@.take(at as int),
                    name,
                    chain,
                ),
            decreases at,
        {
            at = at - 1;
            proof {
                assert(self.levels@.take(at as int + 1).drop_last() =~= self.levels@.take(
                    at as int,
                ));
            }
            let level = &self.levels[at];
            match level.lookup_value(name, binding_cutoff(chain, level.id)) {
                Some(found) => {
                    return Some(found);
                },
                None => {},
            }
        }
        None
    }

    /// What a type name means to a reader.
    pub fn resolve_type_with_chain(&self, name: Symbol, chain: Option<&LexicalFrame>) -> (r: Option<
        TypeLookup,
    >)
        ensures
            r == type_in(self.levels@, name, chain),
    {
        let mut at: usize = self.levels.len();
        proof {
            assert(self.levels@.take(at as int) =~= self.levels@);
        }
        while at > 0
            invariant
                at <= self.levels.len(),
                type_in(self.levels@, name, chain) == type_in(
                    self.levels@.take(at as int),
                    name,
                    chain,
                ),
            decreases at,
        {
            at = at - 1;
            proof {
                assert(self.levels@.take(at as int + 1).drop_last() =~= self.levels@.take(
                    at as int,
                ));
            }
            let level = &self.levels[at];
            match level.lookup_type(name, binding_cutoff(chain, level.id)) {
                Some(found) => {
                    return Some(found);
                },
                None => {},
            }
        }
        None
    }

    /// The group that answers a probe of the reader.
    pub fn resolve_operator_group(
        &self,
        operators: &Vec<Symbol>,
        chain: Option<&LexicalFrame>,
    ) -> (r: Option<&OperatorGroup>)
        ensures
            match r {
                Some(group) => group_in(self.levels@, operators@, chain) == Some(*group),
                None => group_in(self.levels@, operators@, chain) is None,
            },
    {
        let mut at: usize = self.levels.len();
        proof {
            assert(self.levels@.take(at as int) =~= self.levels@);
        }
        while at > 0
            invariant
                at <= self.levels.len(),
                group_in(self.levels@, operators@, chain) == group_in(
                    self.levels@.take(at as int),
                    operators@,
                    chain,
                ),
            decreases at,
        {
            at = at - 1;
            proof {
                assert(self.levels@.take(at as int + 1).drop_last() =~= self.levels@.take(
                    at as int,
                ));
            }
            let level = &self.levels[at];
            match level.lookup_group(operators, binding_cutoff(chain, level.id)) {
                Some(found) => {
                    return Some(found);
                },
                None => {},
            }
        }
        None
    }

    /// The binder behind the placeholder of `name` in the innermost level with the given identity.
    pub fn declared_source(&self, scope: ScopeId, name: Symbol) -> (r: Option<ProducerId>)
        ensures
            r == placeholder_in(self.levels@, scope, name),
    {
        let mut at: usize = self.levels.len();
        proof {
            assert(self.levels@.take(at as int) =~= self.levels@);
        }
        while at > 0
            invariant
                at <= self.levels.len(),
                placeholder_in(self.levels@, scope, name) == placeholder_in(
                    self.levels@.take(at as int),
                    scope,
                    name,
                ),
            decreases at,
        {
            at = at - 1;
            proof {
                assert(self.levels@.take(at as int + 1).drop_last() =~= self.levels@.take(
                    at as int,
                ));
            }
            if self.levels[at].id == scope {
                return self.levels[at].type_placeholder_producer(name);
            }
        }
        None
    }

    /// Where the window that is open at the innermost of the first `depth` levels stands.
    pub fn nearest_recursive_window(&self, depth: usize) -> (r: Option<usize>)
        requires
            depth <= self.levels.len(),
        ensures
            match r {
                Some(at) => at < depth && self.levels@[at as int].window is Some && window_in(
                    self.levels@.take(depth as int),
                ) == self.levels@[at as int].window,
                None => window_in(self.levels@.take(depth as int)) is None,
            },
    {
        let mut at: usize = depth;
        while at > 0
            invariant
                at <= depth <= self.levels.len(),
                window_in(self.levels@.take(depth as int)) == window_in(
                    self.levels@.take(at as int),
                ),
            decreases at,
        {
            at = at - 1;
            proof {
                assert(self.levels@.take(at as int + 1).drop_last() =~= self.levels@.take(
                    at as int,
                ));
            }
            if self.levels[at].window.is_some() {
                return Some(at);
            }
        }
        None
    }
}

/// The content of an overload entry.
pub struct OverloadView {
    pub key: Seq<KeyElement>,
    pub index: usize,
    pub builtin: bool,
    pub state: OverloadState,
}

impl View for OverloadEntry {
    type V = OverloadView;

    open spec fn view(&self) -> OverloadView {
        OverloadView {
            key: self.key@,
            index: self.index,
            builtin: self.builtin,
            state: self.state,
        }
    }
}

/// A value claim.
pub open spec fn value_claim(name: Symbol, index: usize, source: ProducerId) -> ValueEntry {
    ValueEntry { name, index, state: ValueState::Claimed(source) }
}

/// A type claim.
pub open spec fn type_claim(name: Symbol, index: usize, source: ProducerId) -> TypeEntry {
    TypeEntry { name, index, state: TypeState::Claimed(source) }
}

/// A claim on an overload.
pub open spec fn overload_claim(key: Seq<KeyElement>, index: usize, source: ProducerId) -> OverloadView {
    OverloadView { key, index, builtin: false, state: OverloadState::Claimed(source) }
}

impl ScopeLevel {
    /// Claims a name for the binder behind `source`, in the channel that it binds in.
    pub fn install_placeholder(
        &mut self,
        name: Symbol,
        source: ProducerId,
        index: usize,
        kind: BindKind,
    )
        ensures
            final(self).id == old(self).id,
            final(self).overloads@ == old(self).overloads@,
            final(self).operators@ == old(self).operators@,
            final(self).window == old(self).window,
            match kind {
                BindKind::Value => final(self).types@ == old(self).types@ && final(self).values@
                    == old(self).values@.push(value_claim(name, index, source)),
                BindKind::Type => final(self).values@ == old(self).values@ && final(self).types@
                    == old(self).types@.push(type_claim(name, index, source)),
            },
    {
        match kind {
            BindKind::Value => {
                self.values.push(ValueEntry { name, index, state: ValueState::Claimed(source) });
            },
            BindKind::Type => {
                self.types.push(TypeEntry { name, index, state: TypeState::Claimed(source) });
            },
        }
    }

    /// Claims a key for the overload that the binder behind `source` is about to register.
    pub fn install_pending_overload(
        &mut self,
        key: Vec<KeyElement>,
        source: ProducerId,
        index: usize,
    )
        ensures
            final(self).id == old(self).id,
            final(self).values@ == old(self).values@,
            final(self).types@ == old(self).types@,
            final(self).operators@ == old(self).operators@,
            final(self).window == old(self).window,
            final(self).overloads@.len() == old(self).overloads@.len() + 1,
            final(self).overloads@.drop_last() == old(self).overloads@,
            final(self).overloads@.last()@ == overload_claim(key@, index, source),
    {
        let ghost before = self.overloads@;
        self.overloads.push(
            OverloadEntry { key, index, builtin: false, state: OverloadState::Claimed(source) },
        );
        assert(self.overloads@.drop_last() =~= before);
    }
}

/// A search that found nothing goes on with an item that is put behind the others.
proof fn first_match_push<T>(items: Seq<T>, item: T, p: spec_fn(T) -> bool)
    ensures
        first_match(items.push(item), p) == match first_match(items, p) {
            Some(found) => Some(found),
            None => if p(item) {
                Some(item)
            } else {
                None
            },
        },
    decreases items.len(),
{
    if items.len() == 0 {
        assert(items.push(item).drop_first() =~= Seq::<T>::empty());
        assert(items.push(item)[0] == item);
        assert(first_match(Seq::<T>::empty(), p) is None);
    } else {
        assert(items.push(item)[0] == items[0]);
        assert(items.push(item).drop_first() =~= items.drop_first().push(item));
        first_match_push(items.drop_first(), item, p);
    }
}

/// A claimed name is waited for by every later reader that sees no other entry for it; the
/// claiming statement itself and everything before it go on as if it were not there.
pub proof fn later_readers_wait_for_a_claim(
    before: ScopeLevel,
    after: ScopeLevel,
    name: Symbol,
    index: usize,
    source: ProducerId,
    reader: usize,
)
    requires
        after.values@ == before.values@.push(value_claim(name, index, source)),
    ensures
        index < reader && before.value_at(name, Some(reader)) is None ==> after.value_at(
            name,
            Some(reader),
        ) == Some(NameLookup::Parked(source)),
        before.value_at(name, Some(reader)) is Some ==> after.value_at(name, Some(reader))
            == before.value_at(name, Some(reader)),
        reader <= index ==> after.value_at(name, Some(reader)) == before.value_at(
            name,
            Some(reader),
        ),
{
    let entry = value_claim(name, index, source);
    let cutoff = Some(reader);
    first_match_push(before.values@, entry, |e: ValueEntry| ScopeLevel::binds(e, name, cutoff));
    first_match_push(before.values@, entry, |e: ValueEntry| ScopeLevel::claims(e, name, cutoff));
}

/// A level that says something about a name hides everything that outer levels say about it.
pub proof fn inner_levels_shadow_outer_ones(
    outer: Seq<ScopeLevel>,
    level: ScopeLevel,
    name: Symbol,
    chain: Option<&LexicalFrame>,
)
    ensures
        level.value_at(name, cutoff_in(chain, level.id)) is Some ==> value_in(
            outer.push(level),
            name,
            chain,
        ) == level.value_at(name, cutoff_in(chain, level.id)),
        level.value_at(name, cutoff_in(chain, level.id)) is None ==> value_in(
            outer.push(level),
            name,
            chain,
        ) == value_in(outer, name, chain),
{
    assert(outer.push(level).drop_last() =~= outer);
}

/// A reader never sees an entry at its own position or behind it: a statement's own claim is
/// invisible to everything the statement contains.
pub proof fn own_claim_is_invisible(index: usize, own: usize)
    ensures
        visible(index, Some(own)) <==> index < own,
        !visible(own, Some(own)),
{
}

} // verus!
