//! Resolving a type name to a type that no binder is still working on.
//!
//! A name elaborates to whatever the innermost level that knows it says. The finalize gate then
//! looks at every user type that the result refers to: one that is still in flight turns the
//! result into a wait for its binder, so no consumer ever holds a type that is not sealed.

use crate::ktype::{
    children, field_types, rank, ranks_below, KType, ScopeId, TypeNode, TypeRegistry,
};
use crate::scope::{
    binding_cutoff, cutoff_in, placeholder_in, window_in, LexicalFrame, Scope, ScopeLevel,
};
use crate::symbol::Symbol;
use crate::type_query::{children_of, popped_children, popped_children_of};
use crate::value::{push_new, with_new, ProducerId};
use vstd::prelude::*;

verus! {

/// What a type name resolves to.
pub enum TypeResolution {
    Done(KType),
    /// Wait for these binders.
    Park(Vec<ProducerId>),
    Unbound(Symbol),
}

/// The content of a [`TypeResolution`].
pub enum TypeResolutionView {
    Done(KType),
    Park(Seq<ProducerId>),
    Unbound(Symbol),
}

impl View for TypeResolution {
    type V = TypeResolutionView;

    open spec fn view(&self) -> TypeResolutionView {
        match *self {
            TypeResolution::Done(kt) => TypeResolutionView::Done(kt),
            TypeResolution::Park(sources) => TypeResolutionView::Park(sources@),
            TypeResolution::Unbound(name) => TypeResolutionView::Unbound(name),
        }
    }
}

/// A user type that a type refers to.
#[derive(Clone, Copy, PartialEq, Eq, Structural, Debug)]
pub enum UserTypeRef {
    /// A member of the declaration window around the reader.
    Sibling { index: usize },
    /// A slot that the scope with this identity declared.
    Declared { scope_id: ScopeId, name: Symbol },
}

/// What a type name means before anything is asked about its progress.
pub open spec fn elaborated(
    levels: Seq<ScopeLevel>,
    name: Symbol,
    chain: Option<&LexicalFrame>,
) -> TypeResolutionView
    decreases levels.len(),
{
    if levels.len() == 0 {
        TypeResolutionView::Unbound(name)
    } else {
        let level = levels.last();
        let cutoff = cutoff_in(chain, level.id);
        match level.bound_type_at(name, cutoff) {
            Some(kt) => TypeResolutionView::Done(kt),
            None => match level.announced(name) {
                Some(index) => TypeResolutionView::Done(KType::Sibling(index)),
                None => match level.claimed_type_at(name, cutoff) {
                    Some(source) => TypeResolutionView::Park(seq![source]),
                    None => elaborated(levels.drop_last(), name, chain),
                },
            },
        }
    }
}

impl TypeRegistry {
    /// The user types that a type refers to, in the order they are met. A sealed member is
    /// finished and refers to nothing.
    pub open spec fn user_refs(&self, kt: KType) -> Seq<UserTypeRef>
        decreases rank(kt) + 1, 0nat,
    {
        match kt {
            KType::Sibling(index) => seq![UserTypeRef::Sibling { index }],
            KType::Node(at) => if at < self.nodes@.len() {
                match self.nodes@[at as int] {
                    TypeNode::AbstractType { source, name, .. } => seq![
                        UserTypeRef::Declared { scope_id: source, name },
                    ],
                    node => self.user_refs_all(children(node), rank(kt)),
                }
            } else {
                Seq::empty()
            },
            _ => Seq::empty(),
        }
    }

    /// The user types that a run of types below a bound refers to.
    pub open spec fn user_refs_all(&self, kts: Seq<KType>, below: nat) -> Seq<UserTypeRef>
        decreases below, kts.len(),
    {
        if kts.len() == 0 {
            Seq::empty()
        } else {
            let last = if rank(kts.last()) < below {
                self.user_refs(kts.last())
            } else {
                Seq::empty()
            };
            self.user_refs_all(kts.drop_last(), below) + last
        }
    }

    /// The user types that a type refers to, in the order a walk with a stack meets them.
    pub open spec fn popped_refs(&self, kt: KType) -> Seq<UserTypeRef>
        decreases rank(kt) + 1, 0nat,
    {
        match kt {
            KType::Sibling(index) => seq![UserTypeRef::Sibling { index }],
            KType::Node(at) => if at < self.nodes@.len() {
                match self.nodes@[at as int] {
                    TypeNode::AbstractType { source, name, .. } => seq![
                        UserTypeRef::Declared { scope_id: source, name },
                    ],
                    node => self.popped_refs_all(popped_children(node), rank(kt)),
                }
            } else {
                Seq::empty()
            },
            _ => Seq::empty(),
        }
    }

    /// The user types that a run of types below a bound refers to, each type walked with a stack.
    pub open spec fn popped_refs_all(&self, kts: Seq<KType>, below: nat) -> Seq<UserTypeRef>
        decreases below, kts.len(),
    {
        if kts.len() == 0 {
            Seq::empty()
        } else {
            let last = if rank(kts.last()) < below {
                self.popped_refs(kts.last())
            } else {
                Seq::empty()
            };
            self.popped_refs_all(kts.drop_last(), below) + last
        }
    }

    /// How many types a walk over `kt` visits.
    pub open spec fn weight(&self, kt: KType) -> nat
        decreases rank(kt) + 1, 0nat,
    {
        match kt {
            KType::Node(at) => if at < self.nodes@.len() {
                1 + self.weights(popped_children(self.nodes@[at as int]), rank(kt))
            } else {
                1
            },
            _ => 1,
        }
    }

    /// How many types a walk over all of `kts` visits.
    pub open spec fn weights(&self, kts: Seq<KType>, below: nat) -> nat
        decreases below, kts.len(),
    {
        if kts.len() == 0 {
            0
        } else {
            let last = if rank(kts.last()) < below {
                self.weight(kts.last())
            } else {
                0
            };
            self.weights(kts.drop_last(), below) + last
        }
    }

    /// The user types that a stack of types refers to, its top first.
    pub open spec fn stack_refs(&self, stack: Seq<KType>) -> Seq<UserTypeRef>
        decreases stack.len(),
    {
        if stack.len() == 0 {
            Seq::empty()
        } else {
            self.popped_refs(stack.last()) + self.stack_refs(stack.drop_last())
        }
    }

    /// How many types a walk over a stack visits.
    pub open spec fn stack_weight(&self, stack: Seq<KType>) -> nat
        decreases stack.len(),
    {
        if stack.len() == 0 {
            0
        } else {
            self.weight(stack.last()) + self.stack_weight(stack.drop_last())
        }
    }
}

/// Adds the user types that `kt` refers to behind `found`.
pub fn for_each_user_type_ref(kt: KType, types: &TypeRegistry, found: &mut Vec<UserTypeRef>)
    ensures
        final(found)@ == old(found)@ + types.user_refs(kt),
    decreases rank(kt) + 1, 0nat,
{
    match kt {
        KType::Sibling(index) => {
            found.push(UserTypeRef::Sibling { index });
            assert(found@ =~= old(found)@ + seq![UserTypeRef::Sibling { index }]);
        },
        KType::Node(at) => {
            if at < types.nodes.len() {
                match &types.nodes[at] {
                    TypeNode::AbstractType { source, name, .. } => {
                        let declared = UserTypeRef::Declared { scope_id: *source, name: *name };
                        found.push(declared);
                        assert(found@ =~= old(found)@ + seq![declared]);
                    },
                    node => {
                        let kids = children_of(node);
                        each_child_ref(&kids, kids.len(), at, types, found);
                        assert(kids@.take(kids@.len() as int) =~= kids@);
                    },
                }
            } else {
                assert(found@ =~= old(found)@ + Seq::<UserTypeRef>::empty());
            }
        },
        _ => {
            assert(found@ =~= old(found)@ + Seq::<UserTypeRef>::empty());
        },
    }
}

/// Adds the user types that the first `count` of `kts` refer to behind `found`.
fn each_child_ref(
    kts: &Vec<KType>,
    count: usize,
    top: usize,
    types: &TypeRegistry,
    found: &mut Vec<UserTypeRef>,
)
    requires
        count <= kts.len(),
    ensures
        final(found)@ == old(found)@ + types.user_refs_all(
            kts@.take(count as int),
            top as nat + 1,
        ),
    decreases top as nat + 1, count as nat,
{
    if count == 0 {
        assert(found@ =~= old(found)@ + Seq::<UserTypeRef>::empty());
        return ;
    }
    assert(kts@.take(count as int).drop_last() =~= kts@.take(count as int - 1));
    each_child_ref(kts, count - 1, top, types, found);
    let ghost middle = found@;
    if ranks_below(kts[count - 1], top) {
        for_each_user_type_ref(kts[count - 1], types, found);
    } else {
        assert(found@ =~= middle + Seq::<UserTypeRef>::empty());
    }
    assert(found@ =~= old(found)@ + types.user_refs_all(kts@.take(count as int), top as nat + 1));
}

/// Pushes the first `count` of `kts` that rank below a bound, last one first.
fn push_reversed(stack: &mut Vec<KType>, kts: &Vec<KType>, count: usize, top: usize, types: &TypeRegistry)
    requires
        count <= kts.len(),
    ensures
        types.stack_refs(final(stack)@) == types.popped_refs_all(
            kts@.take(count as int),
            top as nat + 1,
        ) + types.stack_refs(old(stack)@),
        types.stack_weight(final(stack)@) == types.weights(
            kts@.take(count as int),
            top as nat + 1,
        ) + types.stack_weight(old(stack)@),
    decreases count,
{
    if count == 0 {
        assert(types.stack_refs(stack@) =~= Seq::<UserTypeRef>::empty() + types.stack_refs(
            old(stack)@,
        ));
        return ;
    }
    assert(kts@.take(count as int).drop_last() =~= kts@.take(count as int - 1));
    let last = kts[count - 1];
    if ranks_below(last, top) {
        stack.push(last);
        assert(stack@.drop_last() =~= old(stack)@);
    }
    let ghost middle = types.stack_refs(stack@);
    push_reversed(stack, kts, count - 1, top, types);
    proof {
        let rest = types.popped_refs_all(kts@.take(count as int - 1), top as nat + 1);
        if rank(last) < top as nat + 1 {
            assert(rest + (types.popped_refs(last) + types.stack_refs(old(stack)@)) =~= (rest
                + types.popped_refs(last)) + types.stack_refs(old(stack)@));
        } else {
            assert(rest + Seq::<UserTypeRef>::empty() =~= rest);
        }
    }
}

/// The user types that a type refers to, found with a stack instead of recursion. Record fields and
/// function parameters come last one first.
pub fn user_type_refs(kt: KType, types: &TypeRegistry) -> (r: Vec<UserTypeRef>)
    ensures
        r@ == types.popped_refs(kt),
{
    let mut found: Vec<UserTypeRef> = Vec::new();
    let mut stack: Vec<KType> = Vec::new();
    stack.push(kt);
    proof {
        assert(stack@.drop_last() =~= Seq::<KType>::empty());
        assert(types.stack_refs(Seq::<KType>::empty()) =~= Seq::<UserTypeRef>::empty());
        assert(found@ + types.stack_refs(stack@) =~= types.popped_refs(kt));
    }
    while stack.len() > 0
        invariant
            found@ + types.stack_refs(stack@) == types.popped_refs(kt),
        decreases types.stack_weight(stack@),
    {
        let ghost before = stack@;
        let ghost earlier = found@;
        let handle = stack[stack.len() - 1];
        stack.pop();
        proof {
            assert(stack@ =~= before.drop_last());
        }
        match handle {
            KType::Sibling(index) => {
                found.push(UserTypeRef::Sibling { index });
            },
            KType::Node(at) => {
                if at < types.nodes.len() {
                    match &types.nodes[at] {
                        TypeNode::AbstractType { source, name, .. } => {
                            found.push(
                                UserTypeRef::Declared { scope_id: *source, name: *name },
                            );
                        },
                        node => {
                            let kids = popped_children_of(node);
                            push_reversed(&mut stack, &kids, kids.len(), at, types);
                            assert(kids@.take(kids@.len() as int) =~= kids@);
                        },
                    }
                }
            },
            _ => {},
        }
        proof {
            assert(found@ + types.stack_refs(stack@) =~= earlier + types.stack_refs(before));
        }
    }
    proof {
        assert(found@ + types.stack_refs(stack@) =~= found@);
    }
    found
}

/// The binder behind a window member, when the level that carries the window still waits for it.
pub open spec fn sibling_source(levels: Seq<ScopeLevel>, window: usize, name: Symbol) -> Option<
    ProducerId,
>
    decreases levels.len(),
{
    if levels.len() == 0 {
        None
    } else {
        let carries = window_in(levels) matches Some(own) && own.id == window;
        match levels.last().claimed_type_at(name, None) {
            Some(source) => if carries {
                Some(source)
            } else {
                sibling_source(levels.drop_last(), window, name)
            },
            None => sibling_source(levels.drop_last(), window, name),
        }
    }
}

/// The binder that still works on the member at `index` of the window around the reader.
pub open spec fn member_source(levels: Seq<ScopeLevel>, index: usize) -> Option<ProducerId> {
    match window_in(levels) {
        Some(window) => if index < window.filled@.len() && window.filled@[index as int] {
            None
        } else if index < window.members@.len() {
            sibling_source(levels, window.id, window.members@[index as int])
        } else {
            None
        },
        None => None,
    }
}

/// The binder that still works on a user type.
pub open spec fn source_of(levels: Seq<ScopeLevel>, user_ref: UserTypeRef) -> Option<ProducerId> {
    match user_ref {
        UserTypeRef::Sibling { index } => member_source(levels, index),
        UserTypeRef::Declared { scope_id, name } => placeholder_in(levels, scope_id, name),
    }
}

/// The binders that still work on any of `refs`, each once.
pub open spec fn pending_of(levels: Seq<ScopeLevel>, refs: Seq<UserTypeRef>) -> Seq<ProducerId>
    decreases refs.len(),
{
    if refs.len() == 0 {
        Seq::empty()
    } else {
        let earlier = pending_of(levels, refs.drop_last());
        match source_of(levels, refs.last()) {
            Some(source) => with_new(earlier, source),
            None => earlier,
        }
    }
}

/// What a type name resolves to for a consumer.
pub open spec fn gated(
    types: &TypeRegistry,
    levels: Seq<ScopeLevel>,
    name: Symbol,
    chain: Option<&LexicalFrame>,
) -> TypeResolutionView {
    match elaborated(levels, name, chain) {
        TypeResolutionView::Done(kt) => {
            let pending = pending_of(levels, types.user_refs(kt));
            if pending.len() == 0 {
                TypeResolutionView::Done(kt)
            } else {
                TypeResolutionView::Park(pending)
            }
        },
        other => other,
    }
}

/// What every resolved type passes: it tells whom a consumer has to wait for.
pub struct FinalizeGate<'a> {
    pub scope: &'a Scope,
    pub types: &'a TypeRegistry,
}

impl<'a> FinalizeGate<'a> {
    /// The binders that a consumer of `kt` has to wait for.
    pub fn pending_sources(&self, kt: KType) -> (r: Vec<ProducerId>)
        ensures
            r@ == pending_of(self.scope.levels@, self.types.user_refs(kt)),
    {
        let mut refs: Vec<UserTypeRef> = Vec::new();
        for_each_user_type_ref(kt, self.types, &mut refs);
        assert(refs@ =~= self.types.user_refs(kt));
        self.sources_of(&refs)
    }

    /// The binders that a consumer of `kt` has to wait for, in the order a walk with a stack meets
    /// them.
    pub fn pending_producers(&self, kt: KType) -> (r: Vec<ProducerId>)
        ensures
            r@ == pending_of(self.scope.levels@, self.types.popped_refs(kt)),
    {
        self.sources_of(&user_type_refs(kt, self.types))
    }

    /// The binders that still work on any of `refs`, each once.
    fn sources_of(&self, refs: &Vec<UserTypeRef>) -> (r: Vec<ProducerId>)
        ensures
            r@ == pending_of(self.scope.levels@, refs@),
    {
        let mut pending: Vec<ProducerId> = Vec::new();
        let mut i: usize = 0;
        proof {
            assert(refs@.take(0) =~= Seq::<UserTypeRef>::empty());
        }
        while i < refs.len()
            invariant
                i <= refs.len(),
                pending@ == pending_of(self.scope.levels@, refs@.take(i as int)),
            decreases refs.len() - i,
        {
            proof {
                assert(refs@.take(i as int + 1).drop_last() =~= refs@.take(i as int));
            }
            let source = match refs[i] {
                UserTypeRef::Sibling { index } => self.member_producer(index),
                UserTypeRef::Declared { scope_id, name } => self.scope.declared_source(
                    scope_id,
                    name,
                ),
            };
            if let Some(found) = source {
                push_new(&mut pending, found);
            }
            i = i + 1;
        }
        proof {
            assert(refs@.take(i as int) =~= refs@);
        }
        pending
    }

    /// The binder that still works on the member at `index` of the window around the reader.
    pub fn member_producer(&self, index: usize) -> (r: Option<ProducerId>)
        ensures
            r == member_source(self.scope.levels@, index),
    {
        let levels = &self.scope.levels;
        proof {
            assert(levels@.take(levels@.len() as int) =~= levels@);
        }
        let found = self.scope.nearest_recursive_window(levels.len());
        match found {
            Some(at) => match &levels[at].window {
                Some(window) => {
                    if index < window.filled.len() && window.filled[index] {
                        None
                    } else if index < window.members.len() {
                        self.sibling_producer(window.id, window.members[index])
                    } else {
                        None
                    }
                },
                None => None,
            },
            None => None,
        }
    }

    /// The binder behind a window member, when the level that carries the window still waits.
    fn sibling_producer(&self, window: usize, name: Symbol) -> (r: Option<ProducerId>)
        ensures
            r == sibling_source(self.scope.levels@, window, name),
    {
        let levels = &self.scope.levels;
        let mut at: usize = levels.len();
        proof {
            assert(levels@.take(at as int) =~= levels@);
        }
        while at > 0
            invariant
                at <= levels.len(),
                levels == &self.scope.levels,
                sibling_source(self.scope.levels@, window, name) == sibling_source(
                    levels@.take(at as int),
                    window,
                    name,
                ),
            decreases at,
        {
            proof {
                assert(levels@.take(at as int).drop_last() =~= levels@.take(at as int - 1));
            }
            let carries = match self.scope.nearest_recursive_window(at) {
                Some(place) => match &levels[place].window {
                    Some(own) => own.id == window,
                    None => false,
                },
                None => false,
            };
            if let Some(source) = levels[at - 1].type_placeholder_producer(name) {
                if carries {
                    return Some(source);
                }
            }
            at = at - 1;
        }
        None
    }
}

impl Scope {
    /// What a type name means before anything is asked about its progress.
    pub fn elaborate_type_identifier(&self, name: Symbol, chain: Option<&LexicalFrame>) -> (r:
        TypeResolution)
        ensures
            r@ == elaborated(self.levels@, name, chain),
    {
        let mut at: usize = self.levels.len();
        proof {
            assert(self.levels@.take(at as int) =~= self.levels@);
        }
        while at > 0
            invariant
                at <= self.levels.len(),
                elaborated(self.levels@, name, chain) == elaborated(
                    self.levels@.take(at as int),
                    name,
                    chain,
                ),
            decreases at,
        {
            at = at - 1;
            proof {
                assert(self.levels@.take(at as int + 1).drop_last() =~= self.levels@.take(
                    at as int,
                ));
            }
            let level = &self.levels[at];
            let cutoff = binding_cutoff(chain, level.id);
            if let Some(kt) = level.bound_type(name, cutoff) {
                return TypeResolution::Done(kt);
            }
            if let Some(index) = level.announced_member(name) {
                return TypeResolution::Done(KType::Sibling(index));
            }
            if let Some(source) = level.claimed_type(name, cutoff) {
                let mut sources: Vec<ProducerId> = Vec::new();
                sources.push(source);
                assert(sources@ =~= seq![source]);
                return TypeResolution::Park(sources);
            }
        }
        TypeResolution::Unbound(name)
    }

    /// What a type name resolves to for a consumer: a type that is sealed all the way down, or the
    /// binders to wait for.
    pub fn resolve_type_identifier(
        &self,
        name: Symbol,
        chain: Option<&LexicalFrame>,
        types: &TypeRegistry,
    ) -> (r: TypeResolution)
        ensures
            r@ == gated(types, self.levels@, name, chain),
    {
        match self.elaborate_type_identifier(name, chain) {
            TypeResolution::Done(kt) => {
                let gate = FinalizeGate { scope: self, types };
                let pending = gate.pending_sources(kt);
                if pending.len() == 0 {
                    TypeResolution::Done(kt)
                } else {
                    TypeResolution::Park(pending)
                }
            },
            other => other,
        }
    }
}

/// Whether `source` is the binder behind one of the references.
pub open spec fn is_source_of_some(
    levels: Seq<ScopeLevel>,
    refs: Seq<UserTypeRef>,
    source: ProducerId,
) -> bool {
    exists|i: int| 0 <= i < refs.len() && source_of(levels, #[trigger] refs[i]) == Some(source)
}

/// Exactly the binders behind the references are listed, and none twice.
pub proof fn pending_lists_every_source(levels: Seq<ScopeLevel>, refs: Seq<UserTypeRef>)
    ensures
        pending_of(levels, refs).no_duplicates(),
        forall|i: int|
            0 <= i < refs.len() ==> (source_of(levels, #[trigger] refs[i]) matches Some(source)
                ==> pending_of(levels, refs).contains(source)),
        forall|k: int|
            0 <= k < pending_of(levels, refs).len() ==> is_source_of_some(
                levels,
                refs,
                #[trigger] pending_of(levels, refs)[k],
            ),
    decreases refs.len(),
{
    if refs.len() > 0 {
        pending_lists_every_source(levels, refs.drop_last());
        let earlier = pending_of(levels, refs.drop_last());
        let all = pending_of(levels, refs);
        assert forall|k: int| 0 <= k < all.len() implies is_source_of_some(
            levels,
            refs,
            #[trigger] all[k],
        ) by {
            if k < earlier.len() {
                assert(all[k] == earlier[k]);
                let i = choose|i: int|
                    0 <= i < refs.drop_last().len() && source_of(
                        levels,
                        #[trigger] refs.drop_last()[i],
                    ) == Some(earlier[k]);
                assert(source_of(levels, refs[i]) == Some(all[k]));
            } else {
                assert(source_of(levels, refs[refs.len() - 1]) == Some(all[k]));
            }
        }
        if source_of(levels, refs.last()) is Some {
            crate::value::with_new_keeps_distinct(earlier, source_of(levels, refs.last())->0);
        }
        assert forall|i: int| 0 <= i < refs.len() implies (source_of(
            levels,
            #[trigger] refs[i],
        ) matches Some(source) ==> all.contains(source)) by {
            if source_of(levels, refs[i]) is Some && i < refs.len() - 1 {
                let source = source_of(levels, refs[i])->0;
                assert(refs.drop_last()[i] == refs[i]);
                assert(earlier.contains(source));
                let k = choose|k: int| 0 <= k < earlier.len() && earlier[k] == source;
                assert(all[k] == source);
            }
        }
    }
}

proof fn last_of_all(types: &TypeRegistry, kts: Seq<KType>, kt: KType, below: nat)
    ensures
        types.popped_refs_all(kts.push(kt), below) == types.popped_refs_all(kts, below) + if rank(
            kt,
        ) < below {
            types.popped_refs(kt)
        } else {
            Seq::empty()
        },
{
    assert(kts.push(kt).drop_last() =~= kts);
}

proof fn reversal_meets_the_same(types: &TypeRegistry, kts: Seq<KType>, below: nat)
    ensures
        types.popped_refs_all(kts.reverse(), below).to_multiset() == types.popped_refs_all(
            kts,
            below,
        ).to_multiset(),
    decreases kts.len(),
{
    if kts.len() > 0 {
        first_of_all(types, kts.drop_last().reverse(), kts.last(), below);
        assert(kts.reverse() =~= seq![kts.last()] + kts.drop_last().reverse());
        reversal_meets_the_same(types, kts.drop_last(), below);
        let own = if rank(kts.last()) < below {
            types.popped_refs(kts.last())
        } else {
            Seq::empty()
        };
        let rest = types.popped_refs_all(kts.drop_last().reverse(), below);
        let kept = types.popped_refs_all(kts.drop_last(), below);
        vstd::seq_lib::lemma_multiset_commutative(own, rest);
        vstd::seq_lib::lemma_multiset_commutative(kept, own);
        assert(own.to_multiset().add(rest.to_multiset()) =~= kept.to_multiset().add(
            own.to_multiset(),
        ));
    } else {
        assert(kts.reverse() =~= kts);
    }
}

proof fn first_of_all(types: &TypeRegistry, kts: Seq<KType>, kt: KType, below: nat)
    ensures
        types.popped_refs_all(seq![kt] + kts, below) == (if rank(kt) < below {
            types.popped_refs(kt)
        } else {
            Seq::empty()
        }) + types.popped_refs_all(kts, below),
    decreases kts.len(),
{
    let own = if rank(kt) < below {
        types.popped_refs(kt)
    } else {
        Seq::empty()
    };
    if kts.len() == 0 {
        assert(seq![kt] + kts =~= Seq::<KType>::empty().push(kt));
        last_of_all(types, Seq::empty(), kt, below);
        assert(Seq::<UserTypeRef>::empty() + own =~= own + types.popped_refs_all(kts, below));
    } else {
        first_of_all(types, kts.drop_last(), kt, below);
        assert((seq![kt] + kts).drop_last() =~= seq![kt] + kts.drop_last());
        let behind = if rank(kts.last()) < below {
            types.popped_refs(kts.last())
        } else {
            Seq::empty()
        };
        let middle = types.popped_refs_all(kts.drop_last(), below);
        assert((own + middle) + behind =~= own + (middle + behind));
    }
}

proof fn each_meets_the_same(types: &TypeRegistry, kts: Seq<KType>, below: nat)
    ensures
        types.popped_refs_all(kts, below).to_multiset() == types.user_refs_all(
            kts,
            below,
        ).to_multiset(),
    decreases below, kts.len(),
{
    if kts.len() > 0 {
        each_meets_the_same(types, kts.drop_last(), below);
        let last = kts.last();
        let a = types.popped_refs_all(kts.drop_last(), below);
        let b = types.user_refs_all(kts.drop_last(), below);
        if rank(last) < below {
            both_walks_meet_the_same_types(types, last);
            vstd::seq_lib::lemma_multiset_commutative(a, types.popped_refs(last));
            vstd::seq_lib::lemma_multiset_commutative(b, types.user_refs(last));
        } else {
            assert(a + Seq::<UserTypeRef>::empty() =~= a);
            assert(b + Seq::<UserTypeRef>::empty() =~= b);
        }
    }
}

/// Both walks over a type meet the same user types, each as often; only their order differs.
pub proof fn both_walks_meet_the_same_types(types: &TypeRegistry, kt: KType)
    ensures
        types.popped_refs(kt).to_multiset() == types.user_refs(kt).to_multiset(),
    decreases rank(kt) + 1, 0nat,
{
    if let KType::Node(at) = kt {
        if at < types.nodes@.len() {
            let node = types.nodes@[at as int];
            if !(node is AbstractType) {
                let below = rank(kt);
                each_meets_the_same(types, children(node), below);
                match node {
                    TypeNode::Record { fields } => {
                        reversal_meets_the_same(types, field_types(fields@), below);
                    },
                    TypeNode::KFunction { params, ret } => {
                        params_meet_the_same(types, field_types(params@), ret, below);
                    },
                    TypeNode::KFunctor { params, ret } => {
                        params_meet_the_same(types, field_types(params@), ret, below);
                    },
                    _ => {},
                }
            }
        }
    }
}

proof fn params_meet_the_same(types: &TypeRegistry, params: Seq<KType>, ret: KType, below: nat)
    ensures
        types.popped_refs_all(params.reverse().push(ret), below).to_multiset()
            == types.popped_refs_all(params.push(ret), below).to_multiset(),
{
    reversal_meets_the_same(types, params, below);
    last_of_all(types, params.reverse(), ret, below);
    last_of_all(types, params, ret, below);
    let own = if rank(ret) < below {
        types.popped_refs(ret)
    } else {
        Seq::empty()
    };
    vstd::seq_lib::lemma_multiset_commutative(types.popped_refs_all(params.reverse(), below), own);
    vstd::seq_lib::lemma_multiset_commutative(types.popped_refs_all(params, below), own);
}

/// Whichever way a type is walked, its consumers wait for the same binders.
pub proof fn both_walks_wait_for_the_same_binders(
    types: &TypeRegistry,
    levels: Seq<ScopeLevel>,
    kt: KType,
    source: ProducerId,
)
    ensures
        pending_of(levels, types.popped_refs(kt)).contains(source) <==> pending_of(
            levels,
            types.user_refs(kt),
        ).contains(source),
{
    both_walks_meet_the_same_types(types, kt);
    waits_carry_over(levels, types.popped_refs(kt), types.user_refs(kt), source);
    waits_carry_over(levels, types.user_refs(kt), types.popped_refs(kt), source);
}

proof fn waits_carry_over(
    levels: Seq<ScopeLevel>,
    a: Seq<UserTypeRef>,
    b: Seq<UserTypeRef>,
    source: ProducerId,
)
    requires
        a.to_multiset() == b.to_multiset(),
    ensures
        pending_of(levels, a).contains(source) ==> pending_of(levels, b).contains(source),
{
    broadcast use vstd::seq_lib::group_to_multiset_ensures;

    if pending_of(levels, a).contains(source) {
        pending_lists_every_source(levels, a);
        pending_lists_every_source(levels, b);
        let k = choose|k: int|
            0 <= k < pending_of(levels, a).len() && pending_of(levels, a)[k] == source;
        assert(is_source_of_some(levels, a, pending_of(levels, a)[k]));
        let i = choose|i: int|
            0 <= i < a.len() && source_of(levels, #[trigger] a[i]) == Some(source);
        assert(a.contains(a[i]));
        assert(b.to_multiset().count(a[i]) > 0);
        assert(b.contains(a[i]));
        let j = choose|j: int| 0 <= j < b.len() && b[j] == a[i];
        assert(source_of(levels, b[j]) == Some(source));
    }
}

/// No consumer observes a type identity that is not sealed: when a name resolves, no binder still
/// works on anything that the type refers to.
pub proof fn resolved_types_are_sealed(
    types: &TypeRegistry,
    levels: Seq<ScopeLevel>,
    name: Symbol,
    chain: Option<&LexicalFrame>,
)
    ensures
        gated(types, levels, name, chain) matches TypeResolutionView::Done(kt) ==> forall|i: int|
            0 <= i < types.user_refs(kt).len() ==> source_of(
                levels,
                #[trigger] types.user_refs(kt)[i],
            ) is None,
{
    match gated(types, levels, name, chain) {
        TypeResolutionView::Done(kt) => {
            pending_lists_every_source(levels, types.user_refs(kt));
            assert forall|i: int| 0 <= i < types.user_refs(kt).len() implies source_of(
                levels,
                #[trigger] types.user_refs(kt)[i],
            ) is None by {
                if source_of(levels, types.user_refs(kt)[i]) is Some {
                    assert(pending_of(levels, types.user_refs(kt)).contains(
                        source_of(levels, types.user_refs(kt)[i])->0,
                    ));
                }
            }
        },
        _ => {},
    }
}

} // verus!
