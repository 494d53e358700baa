//! Resolving a type name once: what a name resolved to is remembered, and nothing that a binder is
//! still working on is ever remembered.

use crate::decide::resolve_type_identifier::{elaborated, TypeResolution, TypeResolutionView};
use crate::ktype::{rank, ranks_below, KType, ScopeId, TypeNode, TypeRegistry};
use crate::scope::{
    binding_cutoff, cutoff_in, first_match, first_match_step, LexicalFrame, Scope, ScopeLevel,
};
use crate::symbol::Symbol;
use crate::type_query::{popped_children, popped_children_of};
use crate::value::{push_new, with_new, ProducerId};
use vstd::prelude::*;

verus! {

/// What a type name resolves to.
pub enum ResolveTypeExprOutcome {
    Done(KType),
    /// Wait for these binders.
    Park(Vec<ProducerId>),
    Unbound(Symbol),
}

impl View for ResolveTypeExprOutcome {
    type V = TypeResolutionView;

    open spec fn view(&self) -> TypeResolutionView {
        match *self {
            ResolveTypeExprOutcome::Done(kt) => TypeResolutionView::Done(kt),
            ResolveTypeExprOutcome::Park(sources) => TypeResolutionView::Park(sources@),
            ResolveTypeExprOutcome::Unbound(name) => TypeResolutionView::Unbound(name),
        }
    }
}

/// A user type that a type refers to, by the scope that declares it.
#[derive(Clone, Copy, PartialEq, Eq, Structural, Debug)]
pub struct NamedRef {
    pub scope_id: ScopeId,
    pub name: Symbol,
}

/// A name that resolved for a reader at `cutoff`.
#[derive(Clone, Copy, PartialEq, Eq, Structural, Debug)]
pub struct MemoEntry {
    pub name: Symbol,
    pub cutoff: Option<usize>,
    pub ktype: KType,
}

/// What the names of a scope resolved to. Readers at different positions never share an entry.
pub struct TypeExprMemo {
    pub entries: Vec<MemoEntry>,
}

/// The types that a walk over a node goes on to, in order. A declaration group is a leaf here.
pub open spec fn walked_children(node: TypeNode) -> Seq<KType> {
    match node {
        TypeNode::Group { .. } => Seq::empty(),
        _ => popped_children(node),
    }
}

impl TypeRegistry {
    /// The user type that a node is itself. A member is a leaf: its schema may lead back to it, and
    /// what it refers to is its own binder's business. A variant is its member.
    pub open spec fn own_ref(&self, node: TypeNode) -> Option<NamedRef> {
        match node {
            TypeNode::SetMember { scope, name, .. } => Some(NamedRef { scope_id: scope, name }),
            TypeNode::Variant { member, .. } => match self.node_of(member) {
                Some(TypeNode::SetMember { scope, name, .. }) => Some(
                    NamedRef { scope_id: scope, name },
                ),
                _ => None,
            },
            TypeNode::Signature { source, path } => Some(NamedRef { scope_id: source, name: path }),
            TypeNode::Module { source, path } => Some(NamedRef { scope_id: source, name: path }),
            TypeNode::AbstractType { source, name, .. } => Some(
                NamedRef { scope_id: source, name },
            ),
            _ => None,
        }
    }

    /// The user types that a type refers to, in the order a walk meets them.
    pub open spec fn named_refs(&self, kt: KType) -> Seq<NamedRef>
        decreases rank(kt) + 1, 0nat,
    {
        match self.node_of(kt) {
            Some(node) => match self.own_ref(node) {
                Some(own) => seq![own],
                None => self.named_refs_all(walked_children(node), rank(kt)),
            },
            None => Seq::empty(),
        }
    }

    /// The user types that a run of types below a bound refers to.
    pub open spec fn named_refs_all(&self, kts: Seq<KType>, below: nat) -> Seq<NamedRef>
        decreases below, kts.len(),
    {
        if kts.len() == 0 {
            Seq::empty()
        } else {
            self.named_refs_all(kts.drop_last(), below) + if rank(kts.last()) < below {
                self.named_refs(kts.last())
            } else {
                Seq::empty()
            }
        }
    }

    /// How many types a walk over `kt` visits.
    pub open spec fn walk_weight(&self, kt: KType) -> nat
        decreases rank(kt) + 1, 0nat,
    {
        match self.node_of(kt) {
            Some(node) => 1 + self.walk_weights(walked_children(node), rank(kt)),
            None => 1,
        }
    }

    /// How many types a walk over all of `kts` visits.
    pub open spec fn walk_weights(&self, kts: Seq<KType>, below: nat) -> nat
        decreases below, kts.len(),
    {
        if kts.len() == 0 {
            0
        } else {
            self.walk_weights(kts.drop_last(), below) + if rank(kts.last()) < below {
                self.walk_weight(kts.last())
            } else {
                0
            }
        }
    }

    /// The user types that a stack of types refers to, its top first.
    pub open spec fn stacked_refs(&self, stack: Seq<KType>) -> Seq<NamedRef>
        decreases stack.len(),
    {
        if stack.len() == 0 {
            Seq::empty()
        } else {
            self.named_refs(stack.last()) + self.stacked_refs(stack.drop_last())
        }
    }

    /// How many types a walk over a stack visits.
    pub open spec fn stacked_weight(&self, stack: Seq<KType>) -> nat
        decreases stack.len(),
    {
        if stack.len() == 0 {
            0
        } else {
            self.walk_weight(stack.last()) + self.stacked_weight(stack.drop_last())
        }
    }

    /// The user type that a node is itself.
    fn node_ref(&self, node: &TypeNode) -> (r: Option<NamedRef>)
        ensures
            r == self.own_ref(*node),
    {
        match node {
            TypeNode::SetMember { scope, name, .. } => Some(
                NamedRef { scope_id: *scope, name: *name },
            ),
            TypeNode::Variant { member, .. } => match self.node(*member) {
                Some(TypeNode::SetMember { scope, name, .. }) => Some(
                    NamedRef { scope_id: *scope, name: *name },
                ),
                _ => None,
            },
            TypeNode::Signature { source, path } => Some(
                NamedRef { scope_id: *source, name: *path },
            ),
            TypeNode::Module { source, path } => Some(NamedRef { scope_id: *source, name: *path }),
            TypeNode::AbstractType { source, name, .. } => Some(
                NamedRef { scope_id: *source, name: *name },
            ),
            _ => None,
        }
    }
}

/// The types that a walk over a node goes on to, in order.
fn children_to_walk(node: &TypeNode) -> (r: Vec<KType>)
    ensures
        r@ == walked_children(*node),
{
    match node {
        TypeNode::Group { .. } => Vec::new(),
        _ => popped_children_of(node),
    }
}

/// A walk over the user types that a type refers to.
pub struct KTypeUserRefs {
    /// What is still to be visited, the next one last.
    pub stack: Vec<KType>,
}

/// Puts the first `count` of `kts` that rank below a bound on the stack, last one first.
fn push_children(stack: &mut Vec<KType>, kts: &Vec<KType>, count: usize, top: usize, types: &TypeRegistry)
    requires
        count <= kts.len(),
    ensures
        types.stacked_refs(final(stack)@) == types.named_refs_all(
            kts@.take(count as int),
            top as nat + 1,
        ) + types.stacked_refs(old(stack)@),
        types.stacked_weight(final(stack)@) == types.walk_weights(
            kts@.take(count as int),
            top as nat + 1,
        ) + types.stacked_weight(old(stack)@),
    decreases count,
{
    if count == 0 {
        assert(Seq::<NamedRef>::empty() + types.stacked_refs(old(stack)@) =~= types.stacked_refs(
            old(stack)@,
        ));
        return ;
    }
    assert(kts@.take(count as int).drop_last() =~= kts@.take(count as int - 1));
    let last = kts[count - 1];
    if ranks_below(last, top) {
        stack.push(last);
        assert(stack@.drop_last() =~= old(stack)@);
    }
    push_children(stack, kts, count - 1, top, types);
    proof {
        let rest = types.named_refs_all(kts@.take(count as int - 1), top as nat + 1);
        if rank(last) < top as nat + 1 {
            assert(rest + (types.named_refs(last) + types.stacked_refs(old(stack)@)) =~= (rest
                + types.named_refs(last)) + types.stacked_refs(old(stack)@));
        } else {
            assert(rest + Seq::<NamedRef>::empty() =~= rest);
        }
    }
}

impl KTypeUserRefs {
    /// What the walk has still to yield.
    pub open spec fn remaining(&self, types: &TypeRegistry) -> Seq<NamedRef> {
        types.stacked_refs(self.stack@)
    }

    /// A walk over `kt`.
    pub fn of(kt: KType, types: &TypeRegistry) -> (r: KTypeUserRefs)
        ensures
            r.remaining(types) == types.named_refs(kt),
    {
        let mut stack: Vec<KType> = Vec::new();
        stack.push(kt);
        proof {
            assert(stack@.drop_last() =~= Seq::<KType>::empty());
            assert(types.stacked_refs(Seq::<KType>::empty()) =~= Seq::<NamedRef>::empty());
            assert(types.named_refs(kt) + Seq::<NamedRef>::empty() =~= types.named_refs(kt));
        }
        KTypeUserRefs { stack }
    }

    /// The next user type of the walk.
    pub fn next(&mut self, types: &TypeRegistry) -> (r: Option<NamedRef>)
        ensures
            match r {
                Some(own) => old(self).remaining(types).len() > 0 && own == old(self).remaining(
                    types,
                )[0] && final(self).remaining(types) == old(self).remaining(types).drop_first(),
                None => old(self).remaining(types).len() == 0 && final(self).remaining(types).len()
                    == 0,
            },
    {
        let ghost all = self.remaining(types);
        while self.stack.len() > 0
            invariant
                all == self.remaining(types),
                all == old(self).remaining(types),
            decreases types.stacked_weight(self.stack@),
        {
            let ghost before = self.stack@;
            let handle = self.stack[self.stack.len() - 1];
            self.stack.pop();
            proof {
                assert(self.stack@ =~= before.drop_last());
                assert(all =~= types.named_refs(handle) + types.stacked_refs(self.stack@));
            }
            if let KType::Node(at) = handle {
                if at < types.nodes.len() {
                    let node = &types.nodes[at];
                    match types.node_ref(node) {
                        Some(own) => {
                            proof {
                                assert(all =~= seq![own] + types.stacked_refs(self.stack@));
                                assert(all.drop_first() =~= types.stacked_refs(self.stack@));
                            }
                            return Some(own);
                        },
                        None => {
                            let kids = children_to_walk(node);
                            push_children(&mut self.stack, &kids, kids.len(), at, types);
                            assert(kids@.take(kids@.len() as int) =~= kids@);
                        },
                    }
                }
            }
            proof {
                if types.node_of(handle) is None {
                    assert(types.named_refs(handle) =~= Seq::<NamedRef>::empty());
                    assert(all =~= types.stacked_refs(self.stack@));
                }
            }
        }
        None
    }
}

/// The innermost level with the given identity.
pub open spec fn level_of(levels: Seq<ScopeLevel>, scope: ScopeId) -> Option<ScopeLevel>
    decreases levels.len(),
{
    if levels.len() == 0 {
        None
    } else if levels.last().id == scope {
        Some(levels.last())
    } else {
        level_of(levels.drop_last(), scope)
    }
}

/// The binder that still works on a user type: the one that has claimed the type in its own level.
/// A claim stands until the type is bound there, wherever the reader is.
pub open spec fn unfinished(levels: Seq<ScopeLevel>, own: NamedRef) -> Option<ProducerId> {
    match level_of(levels, own.scope_id) {
        Some(level) => level.claimed_type_at(own.name, None),
        None => None,
    }
}

/// Whether no binder still works on anything that a type refers to.
pub open spec fn sealed(types: &TypeRegistry, levels: Seq<ScopeLevel>, kt: KType) -> bool {
    forall|i: int|
        0 <= i < types.named_refs(kt).len() ==> unfinished(
            levels,
            #[trigger] types.named_refs(kt)[i],
        ) is None
}

/// The binders that still work on any of `refs`, each once.
pub open spec fn unfinished_all(levels: Seq<ScopeLevel>, refs: Seq<NamedRef>) -> Seq<ProducerId>
    decreases refs.len(),
{
    if refs.len() == 0 {
        Seq::empty()
    } else {
        let earlier = unfinished_all(levels, refs.drop_last());
        match unfinished(levels, refs.last()) {
            Some(source) => with_new(earlier, source),
            None => earlier,
        }
    }
}

/// What a type passes before it is remembered: it tells whom a consumer has to wait for.
pub struct FinalizeGate<'a> {
    pub scope: &'a Scope,
}

impl<'a> FinalizeGate<'a> {
    /// The innermost level with the given identity.
    fn owner(&self, scope: ScopeId) -> (r: Option<&ScopeLevel>)
        ensures
            match r {
                Some(level) => level_of(self.scope.levels@, scope) == Some(*level),
                None => level_of(self.scope.levels@, scope) is None,
            },
    {
        let mut at: usize = self.scope.levels.len();
        proof {
            assert(self.scope.levels@.take(at as int) =~= self.scope.levels@);
        }
        while at > 0
            invariant
                at <= self.scope.levels.len(),
                level_of(self.scope.levels@, scope) == level_of(
                    self.scope.levels@.take(at as int),
                    scope,
                ),
            decreases at,
        {
            at = at - 1;
            proof {
                assert(self.scope.levels@.take(at as int + 1).drop_last()
                    =~= self.scope.levels@.take(at as int));
            }
            if self.scope.levels[at].id == scope {
                return Some(&self.scope.levels[at]);
            }
        }
        None
    }

    /// The binders that a consumer of `kt` has to wait for.
    pub fn pending_producers(&self, kt: KType, types: &TypeRegistry) -> (r: Vec<ProducerId>)
        ensures
            r@ == unfinished_all(self.scope.levels@, types.named_refs(kt)),
    {
        let mut pending: Vec<ProducerId> = Vec::new();
        let mut walk = KTypeUserRefs::of(kt, types);
        let ghost all = types.named_refs(kt);
        let ghost mut seen: int = 0;
        proof {
            assert(all.take(0) =~= Seq::<NamedRef>::empty());
            assert(all.skip(0) =~= all);
            assert(pending@ =~= Seq::<ProducerId>::empty());
        }
        loop
            invariant
                all == types.named_refs(kt),
                0 <= seen <= all.len(),
                walk.remaining(types) == all.skip(seen),
                pending@ == unfinished_all(self.scope.levels@, all.take(seen)),
            ensures
                pending@ == unfinished_all(self.scope.levels@, all),
            decreases all.len() - seen,
        {
            match walk.next(types) {
                Some(own) => {
                    proof {
                        assert(own == all[seen]);
                        assert(all.skip(seen).drop_first() =~= all.skip(seen + 1));
                        assert(all.take(seen + 1).drop_last() =~= all.take(seen));
                        assert(all.take(seen + 1).last() == own);
                    }
                    if let Some(level) = self.owner(own.scope_id) {
                        if let Some(source) = level.claimed_type(own.name, None) {
                            push_new(&mut pending, source);
                        }
                    }
                    proof {
                        seen = seen + 1;
                    }
                },
                None => {
                    proof {
                        assert(seen == all.len());
                        assert(all.take(seen) =~= all);
                    }
                    break;
                },
            }
        }
        pending
    }
}

/// What a type name resolves to for a reader when nothing is remembered.
pub open spec fn resolved_afresh(
    types: &TypeRegistry,
    levels: Seq<ScopeLevel>,
    name: Symbol,
    chain: Option<&LexicalFrame>,
) -> TypeResolutionView {
    match elaborated(levels, name, chain) {
        TypeResolutionView::Done(kt) => {
            let pending = unfinished_all(levels, types.named_refs(kt));
            if pending.len() == 0 {
                TypeResolutionView::Done(kt)
            } else {
                TypeResolutionView::Park(pending)
            }
        },
        other => other,
    }
}

/// The reader's position in the innermost level.
pub open spec fn own_cutoff(levels: Seq<ScopeLevel>, chain: Option<&LexicalFrame>) -> Option<usize> {
    if levels.len() > 0 {
        cutoff_in(chain, levels.last().id)
    } else {
        None
    }
}

/// What is remembered of a name for a reader at `cutoff`.
pub open spec fn remembered(entries: Seq<MemoEntry>, name: Symbol, cutoff: Option<usize>) -> Option<
    KType,
> {
    match first_match(entries, |e: MemoEntry| e.name == name && e.cutoff == cutoff) {
        Some(entry) => Some(entry.ktype),
        None => None,
    }
}

impl TypeExprMemo {
    /// What is remembered of a name for a reader at `cutoff`.
    pub fn type_expr_memo_get(&self, name: Symbol, cutoff: Option<usize>) -> (r: Option<KType>)
        ensures
            r == remembered(self.entries@, name, cutoff),
    {
        let ghost wanted = |e: MemoEntry| e.name == name && e.cutoff == cutoff;
        let mut i: usize = 0;
        proof {
            assert(self.entries@.skip(0) =~= self.entries@);
        }
        while i < self.entries.len()
            invariant
                i <= self.entries.len(),
                wanted == (|e: MemoEntry| e.name == name && e.cutoff == cutoff),
                first_match(self.entries@, wanted) == first_match(
                    self.entries@.skip(i as int),
                    wanted,
                ),
            decreases self.entries.len() - i,
        {
            proof {
                first_match_step(self.entries@, wanted, i as int);
            }
            let entry = self.entries[i];
            let here = match (entry.cutoff, cutoff) {
                (Some(a), Some(b)) => a == b,
                (None, None) => true,
                _ => false,
            };
            if entry.name == name && here {
                return Some(entry.ktype);
            }
            i = i + 1;
        }
        None
    }

    /// Remembers what a name resolved to.
    pub fn type_expr_memo_insert(&mut self, name: Symbol, cutoff: Option<usize>, ktype: KType)
        ensures
            final(self).entries@ == old(self).entries@.push(MemoEntry { name, cutoff, ktype }),
    {
        self.entries.push(MemoEntry { name, cutoff, ktype });
    }
}

/// What a type name resolves to for a reader, and what is remembered behind that.
pub open spec fn resolved(
    types: &TypeRegistry,
    levels: Seq<ScopeLevel>,
    name: Symbol,
    chain: Option<&LexicalFrame>,
    entries: Seq<MemoEntry>,
) -> (TypeResolutionView, Seq<MemoEntry>) {
    let cutoff = own_cutoff(levels, chain);
    match remembered(entries, name, cutoff) {
        Some(kt) => (TypeResolutionView::Done(kt), entries),
        None => {
            let fresh = resolved_afresh(types, levels, name, chain);
            (
                fresh,
                match fresh {
                    TypeResolutionView::Done(ktype) => entries.push(
                        MemoEntry { name, cutoff, ktype },
                    ),
                    _ => entries,
                },
            )
        },
    }
}

impl Scope {
    /// Resolves a type name for a reader. Only a type that no binder still works on is remembered.
    pub fn resolve_type_expr(
        &self,
        te: Symbol,
        chain: Option<&LexicalFrame>,
        types: &TypeRegistry,
        memo: &mut TypeExprMemo,
    ) -> (r: ResolveTypeExprOutcome)
        ensures
            (r@, final(memo).entries@) == resolved(
                types,
                self.levels@,
                te,
                chain,
                old(memo).entries@,
            ),
    {
        let cutoff = if self.levels.len() > 0 {
            binding_cutoff(chain, self.levels[self.levels.len() - 1].id)
        } else {
            None
        };
        if let Some(kt) = memo.type_expr_memo_get(te, cutoff) {
            return ResolveTypeExprOutcome::Done(kt);
        }
        match self.elaborate_type_identifier(te, chain) {
            TypeResolution::Done(kt) => {
                let pending = FinalizeGate { scope: self }.pending_producers(kt, types);
                if pending.len() == 0 {
                    memo.type_expr_memo_insert(te, cutoff, kt);
                    ResolveTypeExprOutcome::Done(kt)
                } else {
                    ResolveTypeExprOutcome::Park(pending)
                }
            },
            TypeResolution::Park(producers) => ResolveTypeExprOutcome::Park(producers),
            TypeResolution::Unbound(name) => ResolveTypeExprOutcome::Unbound(name),
        }
    }
}

/// A type name as a slot takes it.
pub enum TypeLeafCarrier {
    Resolved(KType),
    Park(Vec<ProducerId>),
    Unbound(Symbol),
}

impl View for TypeLeafCarrier {
    type V = TypeResolutionView;

    open spec fn view(&self) -> TypeResolutionView {
        match *self {
            TypeLeafCarrier::Resolved(kt) => TypeResolutionView::Done(kt),
            TypeLeafCarrier::Park(sources) => TypeResolutionView::Park(sources@),
            TypeLeafCarrier::Unbound(name) => TypeResolutionView::Unbound(name),
        }
    }
}

/// Resolves a type name to what a slot takes for it.
pub fn resolve_type_leaf_carrier(
    scope: &Scope,
    t: Symbol,
    chain: Option<&LexicalFrame>,
    types: &TypeRegistry,
    memo: &mut TypeExprMemo,
) -> (r: TypeLeafCarrier)
    ensures
        (r@, final(memo).entries@) == resolved(
            types,
            scope.levels@,
            t,
            chain,
            old(memo).entries@,
        ),
{
    match scope.resolve_type_expr(t, chain, types, memo) {
        ResolveTypeExprOutcome::Done(kt) => TypeLeafCarrier::Resolved(kt),
        ResolveTypeExprOutcome::Park(producers) => TypeLeafCarrier::Park(producers),
        ResolveTypeExprOutcome::Unbound(name) => TypeLeafCarrier::Unbound(name),
    }
}

/// Whether every remembered type is sealed.
pub open spec fn all_sealed(types: &TypeRegistry, levels: Seq<ScopeLevel>, entries: Seq<MemoEntry>) -> bool {
    forall|i: int| 0 <= i < entries.len() ==> sealed(types, levels, (#[trigger] entries[i]).ktype)
}

/// Exactly the binders that still work on the references are listed, and none twice.
pub proof fn unfinished_lists_every_binder(levels: Seq<ScopeLevel>, refs: Seq<NamedRef>)
    ensures
        unfinished_all(levels, refs).no_duplicates(),
        forall|source: ProducerId| #[trigger]
            unfinished_all(levels, refs).contains(source) <==> binds_some(levels, refs, source),
    decreases refs.len(),
{
    let all = unfinished_all(levels, refs);
    if refs.len() > 0 {
        let rest = refs.drop_last();
        let earlier = unfinished_all(levels, rest);
        unfinished_lists_every_binder(levels, rest);
        if let Some(own) = unfinished(levels, refs.last()) {
            crate::value::with_new_keeps_distinct(earlier, own);
        }
        assert forall|source: ProducerId| #[trigger]
            all.contains(source) <==> binds_some(levels, refs, source) by {
            if earlier.contains(source) {
                let k = choose|k: int| 0 <= k < earlier.len() && earlier[k] == source;
                assert(all[k] == source);
                let i = choose|i: int|
                    0 <= i < rest.len() && unfinished(levels, #[trigger] rest[i]) == Some(source);
                assert(unfinished(levels, refs[i]) == Some(source));
            }
            if all.contains(source) && !earlier.contains(source) {
                let k = choose|k: int| 0 <= k < all.len() && all[k] == source;
                assert(k >= earlier.len()) by {
                    if k < earlier.len() {
                        assert(earlier[k] == source);
                    }
                }
                assert(unfinished(levels, refs[refs.len() - 1]) == Some(source));
            }
            if binds_some(levels, refs, source) && !earlier.contains(source) {
                let i = choose|i: int|
                    0 <= i < refs.len() && unfinished(levels, #[trigger] refs[i]) == Some(source);
                if i < rest.len() {
                    assert(unfinished(levels, rest[i]) == Some(source));
                }
                assert(all[all.len() - 1] == source);
            }
        }
    } else {
        assert forall|source: ProducerId| !#[trigger] all.contains(source) by {}
    }
}

/// Whether `source` still works on one of the references.
pub open spec fn binds_some(
    levels: Seq<ScopeLevel>,
    refs: Seq<NamedRef>,
    source: ProducerId,
) -> bool {
    exists|i: int| 0 <= i < refs.len() && unfinished(levels, #[trigger] refs[i]) == Some(source)
}

/// No binder has to be waited for exactly when a type is sealed.
pub proof fn sealed_types_wait_for_nobody(types: &TypeRegistry, levels: Seq<ScopeLevel>, kt: KType)
    ensures
        unfinished_all(levels, types.named_refs(kt)).len() == 0 <==> sealed(types, levels, kt),
{
    let refs = types.named_refs(kt);
    let all = unfinished_all(levels, refs);
    unfinished_lists_every_binder(levels, refs);
    if all.len() == 0 {
        assert forall|i: int| 0 <= i < refs.len() implies unfinished(
            levels,
            #[trigger] refs[i],
        ) is None by {
            if let Some(source) = unfinished(levels, refs[i]) {
                assert(binds_some(levels, refs, source));
                assert(all.contains(source));
            }
        }
    } else {
        assert(all.contains(all[0]));
        assert(binds_some(levels, refs, all[0]));
    }
}

/// A name resolves, and is remembered, only when every user type that its type refers to is finished
/// in the scope that declares it. Nothing that is remembered is ever forgotten, and a name that has
/// to be waited for is not remembered at all.
pub proof fn only_sealed_types_are_remembered(
    types: &TypeRegistry,
    levels: Seq<ScopeLevel>,
    name: Symbol,
    chain: Option<&LexicalFrame>,
    entries: Seq<MemoEntry>,
)
    requires
        all_sealed(types, levels, entries),
    ensures
        ({
            let (outcome, after) = resolved(types, levels, name, chain, entries);
            &&& all_sealed(types, levels, after)
            &&& entries.is_prefix_of(after)
            &&& !(outcome is Done) ==> after == entries
            &&& outcome matches TypeResolutionView::Done(kt) ==> sealed(types, levels, kt)
        }),
{
    if let TypeResolutionView::Done(kt) = elaborated(levels, name, chain) {
        sealed_types_wait_for_nobody(types, levels, kt);
    }
    let cutoff = own_cutoff(levels, chain);
    match first_match(entries, |e: MemoEntry| e.name == name && e.cutoff == cutoff) {
        Some(entry) => {
            found_is_held(entries, |e: MemoEntry| e.name == name && e.cutoff == cutoff);
        },
        None => {},
    }
}

proof fn found_is_held(entries: Seq<MemoEntry>, p: spec_fn(MemoEntry) -> bool)
    ensures
        first_match(entries, p) matches Some(entry) ==> exists|i: int|
            0 <= i < entries.len() && #[trigger] entries[i] == entry,
    decreases entries.len(),
{
    if entries.len() > 0 {
        if p(entries[0]) {
            assert(entries[0] == first_match(entries, p)->0);
        } else {
            found_is_held(entries.drop_first(), p);
            if let Some(entry) = first_match(entries.drop_first(), p) {
                let k = choose|k: int|
                    0 <= k < entries.drop_first().len() && #[trigger] entries.drop_first()[k]
                        == entry;
                assert(entries[k + 1] == entry);
            }
        }
    }
}

/// Asking again gives the same answer, and remembers nothing new.
pub proof fn resolving_again_changes_nothing(
    types: &TypeRegistry,
    levels: Seq<ScopeLevel>,
    name: Symbol,
    chain: Option<&LexicalFrame>,
    entries: Seq<MemoEntry>,
)
    ensures
        ({
            let (outcome, after) = resolved(types, levels, name, chain, entries);
            resolved(types, levels, name, chain, after) == (outcome, after)
        }),
{
    let cutoff = own_cutoff(levels, chain);
    let wanted = |e: MemoEntry| e.name == name && e.cutoff == cutoff;
    let (outcome, after) = resolved(types, levels, name, chain, entries);
    if remembered(entries, name, cutoff) is None {
        if let TypeResolutionView::Done(ktype) = outcome {
            found_behind(entries, MemoEntry { name, cutoff, ktype }, wanted);
        }
    }
}

proof fn found_behind(entries: Seq<MemoEntry>, entry: MemoEntry, p: spec_fn(MemoEntry) -> bool)
    requires
        first_match(entries, p) is None,
        p(entry),
    ensures
        first_match(entries.push(entry), p) == Some(entry),
    decreases entries.len(),
{
    if entries.len() > 0 {
        assert(entries.push(entry).drop_first() =~= entries.drop_first().push(entry));
        assert(entries.push(entry)[0] == entries[0]);
        found_behind(entries.drop_first(), entry, p);
    } else {
        assert(entries.push(entry)[0] == entry);
    }
}

} // verus!
