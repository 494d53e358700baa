//! Types: handles, the nodes they stand for, and the registry that interns them.
//!
//! A [`KType`] is a small copyable handle. Builtin leaves are variants of the handle itself; every
//! other type is a node of a [`TypeRegistry`]. Structural nodes are interned, so that one structure
//! has one handle; nominal nodes are declared, and each declaration is a type of its own.

use crate::symbol::Symbol;
use vstd::prelude::*;

verus! {

/// The identity of a lexical scope.
#[derive(Clone, Copy, PartialEq, Eq, Structural, Debug)]
pub struct ScopeId {
    pub id: usize,
}

/// The kinds that types fall into.
#[derive(Clone, Copy, PartialEq, Eq, Structural, Debug)]
pub enum KKind {
    /// A type that values inhabit.
    ProperType,
    /// A declared wrapper around a representation.
    NewType,
    /// A family that yields a type once its parameters are bound.
    TypeConstructor,
    /// The type of a module's interface.
    Signature,
}

/// A type handle.
#[derive(Clone, Copy, PartialEq, Eq, Structural, Debug)]
pub enum KType {
    Number,
    Str,
    Bool,
    Null,
    Any,
    /// A slot that captures a value name as a token.
    Identifier,
    /// A slot that captures a name of either class as a token.
    NameToken,
    /// A slot that captures a type name as a token.
    TypeNameToken,
    /// Code as a value.
    KExpression,
    /// A slot that captures a `:(…)` part unevaluated.
    SigiledTypeExpr,
    /// A slot that captures a `:{…}` part unevaluated.
    RecordType,
    /// A slot that asks for a type of the given kind.
    OfKind(KKind),
    /// A member of the declaration window under construction, by position.
    Sibling(usize),
    /// A node of the registry.
    Node(usize),
}

/// One named type: a record field, a parameter, or a variant with its payload.
#[derive(Clone, Copy, PartialEq, Eq, Structural, Debug)]
pub struct Field {
    pub name: Symbol,
    pub ktype: KType,
}

/// What a declared nominal member stands for.
pub enum NodeSchema {
    /// A wrapper around one representation.
    NewType(KType),
    /// A family over `param_names`; a non-empty `schema` lists the variants it builds.
    TypeConstructor { schema: Vec<Field>, param_names: Vec<Symbol> },
}

/// The content of a registry node.
pub enum TypeNode {
    /// A sealed nominal member.
    SetMember { scope: ScopeId, name: Symbol, schema: NodeSchema },
    /// One tagged variant of a nominal member.
    Variant { member: KType, tag: Symbol },
    /// A slot declared by a signature; `param_names` is non-empty for a constructor slot.
    AbstractType { source: ScopeId, name: Symbol, param_names: Vec<Symbol> },
    /// A module's interface.
    Signature { source: ScopeId, path: Symbol },
    /// A module.
    Module { source: ScopeId, path: Symbol },
    List { element: KType },
    Dict { key: KType, value: KType },
    Record { fields: Vec<Field> },
    KFunction { params: Vec<Field>, ret: KType },
    KFunctor { params: Vec<Field>, ret: KType },
    ConstructorApply { constructor: KType, arguments: Vec<Field> },
    Union { members: Vec<KType> },
    Group { members: Vec<KType> },
}

/// The types of a run of fields.
pub open spec fn field_types(fields: Seq<Field>) -> Seq<KType> {
    fields.map_values(|field: Field| field.ktype)
}

/// The names of a run of fields.
pub open spec fn field_names(fields: Seq<Field>) -> Seq<Symbol> {
    fields.map_values(|field: Field| field.name)
}

/// The types that a node is built from, in order. A nominal member is built from none: its schema
/// may lead back to itself.
pub open spec fn children(node: TypeNode) -> Seq<KType> {
    match node {
        TypeNode::List { element } => seq![element],
        TypeNode::Dict { key, value } => seq![key, value],
        TypeNode::Record { fields } => field_types(fields@),
        TypeNode::KFunction { params, ret } => field_types(params@).push(ret),
        TypeNode::KFunctor { params, ret } => field_types(params@).push(ret),
        TypeNode::ConstructorApply { constructor, arguments } => seq![constructor]
            + field_types(arguments@),
        TypeNode::Union { members } => members@,
        TypeNode::Group { members } => members@,
        _ => Seq::empty(),
    }
}

/// Builtin leaves rank lowest; a node ranks by its place in the registry.
pub open spec fn rank(kt: KType) -> nat {
    match kt {
        KType::Node(at) => at as nat + 1,
        _ => 0,
    }
}

/// The same names bound to the same types, in whatever order.
pub open spec fn same_fields(a: Seq<Field>, b: Seq<Field>) -> bool {
    a.to_multiset() == b.to_multiset()
}

/// Whether no name stands for two types.
pub open spec fn keyed_by_name(fields: Seq<Field>) -> bool {
    forall|i: int, j: int|
        0 <= i < fields.len() && 0 <= j < fields.len() && (#[trigger] fields[i]).name == (
        #[trigger] fields[j]).name ==> fields[i] == fields[j]
}

/// Whether `node` is the type of records with the given fields.
pub open spec fn is_record_node(node: TypeNode, fields: Seq<Field>) -> bool {
    node matches TypeNode::Record { fields: held } && same_fields(held@, fields)
}

/// Whether `node` is `constructor` applied to the given arguments.
pub open spec fn is_application_node(
    node: TypeNode,
    constructor: KType,
    arguments: Seq<Field>,
) -> bool {
    node matches TypeNode::ConstructorApply { constructor: head, arguments: held } && head
        == constructor && same_fields(held@, arguments)
}

/// Whether two nodes have one structure. No two nominal nodes do.
pub open spec fn same_structure(a: TypeNode, b: TypeNode) -> bool {
    match (a, b) {
        (
            TypeNode::AbstractType { source: s, name: n, param_names: p },
            TypeNode::AbstractType { source: t, name: m, param_names: q },
        ) => s == t && n == m && p@ == q@,
        (TypeNode::List { element: x }, TypeNode::List { element: y }) => x == y,
        (TypeNode::Dict { key: k, value: v }, TypeNode::Dict { key: l, value: w }) => k == l && v
            == w,
        (TypeNode::Record { fields: x }, TypeNode::Record { fields: y }) => same_fields(x@, y@),
        (
            TypeNode::KFunction { params: x, ret: r },
            TypeNode::KFunction { params: y, ret: s },
        ) => same_fields(x@, y@) && r == s,
        (
            TypeNode::ConstructorApply { constructor: c, arguments: x },
            TypeNode::ConstructorApply { constructor: d, arguments: y },
        ) => c == d && same_fields(x@, y@),
        (TypeNode::Union { members: x }, TypeNode::Union { members: y }) => x@ == y@,
        _ => false,
    }
}

/// Whether `kt` is a builtin leaf or one of the first `bound` nodes.
pub open spec fn precedes(kt: KType, bound: int) -> bool {
    rank(kt) <= bound
}

/// Whether `kt` is a leaf or a node before place `top`.
pub fn ranks_below(kt: KType, top: usize) -> (r: bool)
    ensures
        r == (rank(kt) < top as nat + 1),
{
    match kt {
        KType::Node(at) => at < top,
        _ => true,
    }
}

/// The interning store of every node.
pub struct TypeRegistry {
    pub nodes: Vec<TypeNode>,
}

/// How often `wanted` stands among `fields`.
fn count_field(fields: &Vec<Field>, wanted: Field) -> (r: usize)
    ensures
        r == fields@.to_multiset().count(wanted),
{
    broadcast use vstd::seq_lib::group_to_multiset_ensures;

    let mut count: usize = 0;
    let mut i: usize = 0;
    assert(fields@.take(0).to_multiset() =~= vstd::multiset::Multiset::<Field>::empty());
    while i < fields.len()
        invariant
            i <= fields.len(),
            count <= i,
            count == fields@.take(i as int).to_multiset().count(wanted),
        decreases fields.len() - i,
    {
        proof {
            broadcast use vstd::seq_lib::group_to_multiset_ensures;

            assert(fields@.take(i as int + 1) =~= fields@.take(i as int).push(fields@[i as int]));
        }
        if fields[i] == wanted {
            count = count + 1;
        }
        i = i + 1;
    }
    assert(fields@.take(i as int) =~= fields@);
    count
}

/// Whether every field of `a` stands as often in `b`.
fn counted_alike(a: &Vec<Field>, b: &Vec<Field>) -> (r: bool)
    ensures
        r == forall|i: int|
            0 <= i < a@.len() ==> a@.to_multiset().count(#[trigger] a@[i])
                == b@.to_multiset().count(a@[i]),
{
    let mut i: usize = 0;
    while i < a.len()
        invariant
            i <= a.len(),
            forall|k: int|
                0 <= k < i ==> a@.to_multiset().count(#[trigger] a@[k]) == b@.to_multiset().count(
                    a@[k],
                ),
        decreases a.len() - i,
    {
        if count_field(a, a[i]) != count_field(b, a[i]) {
            assert(a@.to_multiset().count(a@[i as int]) != b@.to_multiset().count(a@[i as int]));
            return false;
        }
        i = i + 1;
    }
    true
}

/// Whether the two runs of fields bind the same names to the same types.
fn fields_agree(a: &Vec<Field>, b: &Vec<Field>) -> (r: bool)
    ensures
        r == same_fields(a@, b@),
{
    broadcast use vstd::seq_lib::group_to_multiset_ensures;

    let r = counted_alike(a, b) && counted_alike(b, a);
    proof {
        if r {
            assert forall|field: Field|
                a@.to_multiset().count(field) == #[trigger] b@.to_multiset().count(field) by {
                if a@.contains(field) {
                    let i = choose|i: int| 0 <= i < a@.len() && a@[i] == field;
                    assert(a@.to_multiset().count(a@[i]) == b@.to_multiset().count(a@[i]));
                } else if b@.contains(field) {
                    let i = choose|i: int| 0 <= i < b@.len() && b@[i] == field;
                    assert(b@.to_multiset().count(b@[i]) == a@.to_multiset().count(b@[i]));
                } else {
                    assert(a@.to_multiset().count(field) == 0);
                    assert(b@.to_multiset().count(field) == 0);
                }
            }
            assert(a@.to_multiset() =~= b@.to_multiset());
        }
    }
    r
}

/// Whether the two runs are equal.
pub fn same_symbols(a: &Vec<Symbol>, b: &Vec<Symbol>) -> (r: bool)
    ensures
        r == (a@ == b@),
{
    if a.len() != b.len() {
        return false;
    }
    let mut i: usize = 0;
    while i < a.len()
        invariant
            i <= a.len(),
            a.len() == b.len(),
            forall|k: int| 0 <= k < i ==> a@[k] == b@[k],
        decreases a.len() - i,
    {
        if a[i] != b[i] {
            return false;
        }
        i = i + 1;
    }
    assert(a@ =~= b@);
    true
}

/// Whether the two runs are equal.
fn same_types(a: &Vec<KType>, b: &Vec<KType>) -> (r: bool)
    ensures
        r == (a@ == b@),
{
    if a.len() != b.len() {
        return false;
    }
    let mut i: usize = 0;
    while i < a.len()
        invariant
            i <= a.len(),
            a.len() == b.len(),
            forall|k: int| 0 <= k < i ==> a@[k] == b@[k],
        decreases a.len() - i,
    {
        if a[i] != b[i] {
            return false;
        }
        i = i + 1;
    }
    assert(a@ =~= b@);
    true
}

/// Whether the two nodes have one structure.
fn nodes_agree(a: &TypeNode, b: &TypeNode) -> (r: bool)
    ensures
        r == same_structure(*a, *b),
{
    match (a, b) {
        (
            TypeNode::AbstractType { source: s, name: n, param_names: p },
            TypeNode::AbstractType { source: t, name: m, param_names: q },
        ) => *s == *t && *n == *m && same_symbols(p, q),
        (TypeNode::List { element: x }, TypeNode::List { element: y }) => *x == *y,
        (TypeNode::Dict { key: k, value: v }, TypeNode::Dict { key: l, value: w }) => *k == *l && *v
            == *w,
        (TypeNode::Record { fields: x }, TypeNode::Record { fields: y }) => fields_agree(x, y),
        (
            TypeNode::KFunction { params: x, ret: r },
            TypeNode::KFunction { params: y, ret: s },
        ) => fields_agree(x, y) && *r == *s,
        (
            TypeNode::ConstructorApply { constructor: c, arguments: x },
            TypeNode::ConstructorApply { constructor: d, arguments: y },
        ) => *c == *d && fields_agree(x, y),
        (TypeNode::Union { members: x }, TypeNode::Union { members: y }) => same_types(x, y),
        _ => false,
    }
}

impl TypeRegistry {
    /// The node behind a handle; a builtin leaf and a foreign handle have none.
    pub open spec fn node_of(&self, kt: KType) -> Option<TypeNode> {
        match kt {
            KType::Node(at) => if at < self.nodes@.len() {
                Some(self.nodes@[at as int])
            } else {
                None
            },
            _ => None,
        }
    }

    /// Whether `arguments` bind the parameters of `constructor` in the order that they are declared
    /// in, and no name to two types. A type without parameters asks for no order.
    pub open spec fn binds_in_order(&self, constructor: KType, arguments: Seq<Field>) -> bool {
        self.constructor_params(constructor) matches Some(params) ==> {
            &&& field_names(arguments).is_prefix_of(params)
            &&& keyed_by_name(arguments)
        }
    }

    /// Whether `node`, when it is an application, binds its parameters in declared order.
    pub open spec fn in_declared_order(&self, node: TypeNode) -> bool {
        node matches TypeNode::ConstructorApply { constructor, arguments } ==> self.binds_in_order(
            constructor,
            arguments@,
        )
    }

    /// Every node is built from earlier ones, no structure occurs twice, and every application
    /// binds its parameters in declared order.
    pub open spec fn wf(&self) -> bool {
        &&& forall|i: int, k: int|
            0 <= i < self.nodes@.len() && 0 <= k < children(self.nodes@[i]).len() ==> precedes(
                #[trigger] children(self.nodes@[i])[k],
                i,
            )
        &&& forall|i: int, j: int|
            0 <= i < j < self.nodes@.len() ==> !same_structure(
                #[trigger] self.nodes@[i],
                #[trigger] self.nodes@[j],
            )
        &&& forall|i: int|
            0 <= i < self.nodes@.len() ==> #[trigger] self.in_declared_order(self.nodes@[i])
    }

    /// Whether `kt` is a builtin leaf or a node of this registry.
    pub open spec fn holds(&self, kt: KType) -> bool {
        precedes(kt, self.nodes@.len() as int)
    }

    /// Whether `node` is built from types that this registry holds and, when it is an application,
    /// binds its parameters in declared order.
    pub open spec fn admits(&self, node: TypeNode) -> bool {
        &&& forall|k: int|
            0 <= k < children(node).len() ==> precedes(
                #[trigger] children(node)[k],
                self.nodes@.len() as int,
            )
        &&& self.in_declared_order(node)
    }

    /// Whether every handle of `earlier` means the same here.
    pub open spec fn extends(&self, earlier: &TypeRegistry) -> bool {
        &&& earlier.nodes@.len() <= self.nodes@.len()
        &&& forall|i: int|
            0 <= i < earlier.nodes@.len() ==> #[trigger] self.nodes@[i] == earlier.nodes@[i]
    }

    /// Whether the registry is `earlier` with at most the node behind `kt` more.
    pub open spec fn gained(&self, earlier: &TypeRegistry, kt: KType) -> bool {
        self.nodes@ == earlier.nodes@ || self.grown_by(earlier, kt)
    }

    /// Whether the registry is `earlier` with the node behind `kt` more.
    pub open spec fn grown_by(&self, earlier: &TypeRegistry, kt: KType) -> bool {
        &&& kt == KType::Node(earlier.nodes@.len() as usize)
        &&& self.nodes@.len() == earlier.nodes@.len() + 1
        &&& self.nodes@.drop_last() == earlier.nodes@
    }

    /// Whether the type of records with the given fields is here.
    pub open spec fn has_record(&self, fields: Seq<Field>) -> bool {
        exists|i: int|
            0 <= i < self.nodes@.len() && is_record_node(#[trigger] self.nodes@[i], fields)
    }

    /// Whether `constructor` applied to the given arguments is here.
    pub open spec fn has_application(&self, constructor: KType, arguments: Seq<Field>) -> bool {
        exists|i: int|
            0 <= i < self.nodes@.len() && is_application_node(
                #[trigger] self.nodes@[i],
                constructor,
                arguments,
            )
    }

    /// What asking `earlier` for the type of records with the given fields comes to: the handle of
    /// the one that is there, or a new node that holds the fields as they are given.
    pub open spec fn gained_record(
        &self,
        earlier: &TypeRegistry,
        fields: Seq<Field>,
        kt: KType,
    ) -> bool {
        if earlier.has_record(fields) {
            &&& self.nodes@ == earlier.nodes@
            &&& self.node_of(kt) matches Some(node) && is_record_node(node, fields)
        } else {
            &&& self.grown_by(earlier, kt)
            &&& self.node_of(kt) matches Some(TypeNode::Record { fields: held }) && held@ == fields
        }
    }

    /// What asking `earlier` for an application comes to: the handle of the one that is there, or a
    /// new node. An application of a type with parameters holds its arguments as they are given.
    pub open spec fn gained_application(
        &self,
        earlier: &TypeRegistry,
        constructor: KType,
        arguments: Seq<Field>,
        kt: KType,
    ) -> bool {
        let present = earlier.has_application(constructor, arguments);
        &&& if present {
            self.nodes@ == earlier.nodes@
        } else {
            self.grown_by(earlier, kt)
        }
        &&& self.node_of(kt) matches Some(
            TypeNode::ConstructorApply { constructor: head, arguments: held },
        ) && head == constructor && same_fields(held@, arguments) && (!present
            || earlier.constructor_params(constructor) is Some ==> held@ == arguments)
    }

    /// A registry that holds no node.
    pub fn new() -> (r: TypeRegistry)
        ensures
            r.wf(),
            r.nodes@.len() == 0,
    {
        TypeRegistry { nodes: Vec::new() }
    }

    /// The node behind a handle.
    pub fn node(&self, kt: KType) -> (r: Option<&TypeNode>)
        ensures
            match r {
                Some(node) => self.node_of(kt) == Some(*node),
                None => self.node_of(kt) is None,
            },
    {
        match kt {
            KType::Node(at) => if at < self.nodes.len() {
                Some(&self.nodes[at])
            } else {
                None
            },
            _ => None,
        }
    }

    /// The handle of `node`'s structure: the one it already has, or a new one.
    pub fn intern(&mut self, node: TypeNode) -> (r: KType)
        requires
            old(self).wf(),
            old(self).admits(node),
        ensures
            final(self).wf(),
            final(self).extends(old(self)),
            final(self).gained(old(self), r),
            final(self).node_of(r) matches Some(held) && (held == node || same_structure(
                held,
                node,
            )),
            (exists|i: int|
                0 <= i < old(self).nodes@.len() && same_structure(
                    #[trigger] old(self).nodes@[i],
                    node,
                )) ==> final(self).nodes@ == old(self).nodes@,
            (forall|i: int|
                0 <= i < old(self).nodes@.len() ==> !same_structure(
                    #[trigger] old(self).nodes@[i],
                    node,
                )) ==> final(self).nodes@ == old(self).nodes@.push(node) && r == KType::Node(
                old(self).nodes@.len() as usize,
            ),
    {
        let mut i: usize = 0;
        while i < self.nodes.len()
            invariant
                i <= self.nodes.len(),
                *self == *old(self),
                self.wf(),
                forall|k: int| 0 <= k < i ==> !same_structure(#[trigger] self.nodes@[k], node),
            decreases self.nodes.len() - i,
        {
            if nodes_agree(&self.nodes[i], &node) {
                return KType::Node(i);
            }
            i = i + 1;
        }
        let ghost earlier = self.nodes@;
        let ghost added = node;
        self.nodes.push(node);
        proof {
            assert(forall|k: int| 0 <= k < earlier.len() ==> self.nodes@[k] == earlier[k]);
            assert(self.nodes@.drop_last() =~= earlier);
            order_outlasts_growth(old(self), self);
            if let TypeNode::ConstructorApply { constructor, .. } = added {
                assert(children(added)[0] == constructor);
            }
        }
        KType::Node(i)
    }

    /// Declares a nominal node: a type of its own, whatever its content.
    pub fn declare(&mut self, scope: ScopeId, name: Symbol, schema: NodeSchema) -> (r: KType)
        requires
            old(self).wf(),
        ensures
            final(self).wf(),
            final(self).nodes@ == old(self).nodes@.push(
                TypeNode::SetMember { scope, name, schema },
            ),
            r == KType::Node(old(self).nodes@.len() as usize),
    {
        let at: usize = self.nodes.len();
        let ghost earlier = self.nodes@;
        self.nodes.push(TypeNode::SetMember { scope, name, schema });
        proof {
            assert(forall|k: int| 0 <= k < earlier.len() ==> self.nodes@[k] == earlier[k]);
            order_outlasts_growth(old(self), self);
        }
        KType::Node(at)
    }

    /// The type of lists of `element`.
    pub fn list(&mut self, element: KType) -> (r: KType)
        requires
            old(self).wf(),
            precedes(element, old(self).nodes@.len() as int),
        ensures
            final(self).wf(),
            final(self).extends(old(self)),
            final(self).gained(old(self), r),
            final(self).node_of(r) == Some(TypeNode::List { element }),
    {
        self.intern(TypeNode::List { element })
    }

    /// The type of dicts from `key` to `value`.
    pub fn dict(&mut self, key: KType, value: KType) -> (r: KType)
        requires
            old(self).wf(),
            precedes(key, old(self).nodes@.len() as int),
            precedes(value, old(self).nodes@.len() as int),
        ensures
            final(self).wf(),
            final(self).extends(old(self)),
            final(self).gained(old(self), r),
            final(self).node_of(r) == Some(TypeNode::Dict { key, value }),
    {
        self.intern(TypeNode::Dict { key, value })
    }

    /// The type of records with exactly `fields`; their order is presentation only.
    pub fn record(&mut self, fields: Vec<Field>) -> (r: KType)
        requires
            old(self).wf(),
            old(self).admits(TypeNode::Record { fields }),
        ensures
            final(self).wf(),
            final(self).extends(old(self)),
            final(self).gained_record(old(self), fields@, r),
    {
        let ghost node = TypeNode::Record { fields };
        proof {
            assert forall|i: int| 0 <= i < self.nodes@.len() implies same_structure(
                #[trigger] self.nodes@[i],
                node,
            ) == is_record_node(self.nodes@[i], fields@) by {}
        }
        self.intern(TypeNode::Record { fields })
    }

    /// The type of values of any of `members`.
    pub fn union_of(&mut self, members: Vec<KType>) -> (r: KType)
        requires
            old(self).wf(),
            old(self).admits(TypeNode::Union { members }),
        ensures
            final(self).wf(),
            final(self).extends(old(self)),
            final(self).gained(old(self), r),
            final(self).node_of(r) matches Some(TypeNode::Union { members: held }) && held@
                == members@,
    {
        self.intern(TypeNode::Union { members })
    }

    /// `constructor` with its parameters bound to `arguments`.
    pub fn constructor_apply(&mut self, constructor: KType, arguments: Vec<Field>) -> (r: KType)
        requires
            old(self).wf(),
            old(self).admits(TypeNode::ConstructorApply { constructor, arguments }),
        ensures
            final(self).wf(),
            final(self).extends(old(self)),
            final(self).gained_application(old(self), constructor, arguments@, r),
    {
        let ghost node = TypeNode::ConstructorApply { constructor, arguments };
        proof {
            assert forall|i: int| 0 <= i < self.nodes@.len() implies same_structure(
                #[trigger] self.nodes@[i],
                node,
            ) == is_application_node(self.nodes@[i], constructor, arguments@) by {}
        }
        let r = self.intern(TypeNode::ConstructorApply { constructor, arguments });
        proof {
            if old(self).has_application(constructor, arguments@) && old(self).constructor_params(
                constructor,
            ) is Some {
                if let KType::Node(at) = r {
                    assert(old(self).in_declared_order(old(self).nodes@[at as int]));
                    if let TypeNode::ConstructorApply { arguments: held, .. } = old(
                        self,
                    ).nodes@[at as int] {
                        declared_order_fixes_arguments(
                            old(self).constructor_params(constructor)->0,
                            held@,
                            arguments@,
                        );
                    }
                }
            }
        }
        r
    }
}

/// Nodes keep their declared order while the registry grows.
proof fn order_outlasts_growth(earlier: &TypeRegistry, later: &TypeRegistry)
    requires
        earlier.wf(),
        later.extends(earlier),
    ensures
        forall|i: int|
            0 <= i < earlier.nodes@.len() ==> #[trigger] later.in_declared_order(later.nodes@[i]),
{
    assert forall|i: int| 0 <= i < earlier.nodes@.len() implies #[trigger] later.in_declared_order(
        later.nodes@[i],
    ) by {
        assert(earlier.in_declared_order(earlier.nodes@[i]));
        if let TypeNode::ConstructorApply { constructor, .. } = earlier.nodes@[i] {
            assert(children(earlier.nodes@[i])[0] == constructor);
        }
    }
}

/// Arguments that bind the same parameters in declared order are equal as soon as they agree.
proof fn declared_order_fixes_arguments(params: Seq<Symbol>, a: Seq<Field>, b: Seq<Field>)
    requires
        same_fields(a, b),
        field_names(a).is_prefix_of(params),
        field_names(b).is_prefix_of(params),
        keyed_by_name(b),
    ensures
        a == b,
{
    broadcast use vstd::seq_lib::group_to_multiset_ensures;

    assert(a.len() == a.to_multiset().len() && b.len() == b.to_multiset().len());
    assert forall|i: int| 0 <= i < a.len() implies a[i] == b[i] by {
        assert(field_names(a)[i] == params[i] && field_names(b)[i] == params[i]);
        assert(a.contains(a[i]));
        assert(b.to_multiset().count(a[i]) > 0);
        assert(b.contains(a[i]));
        let j = choose|j: int| 0 <= j < b.len() && b[j] == a[i];
        assert(b[i].name == b[j].name);
    }
    assert(a =~= b);
}

/// In a well-formed registry equal handles and equal structures are the same thing: two handles
/// whose nodes have one structure are one handle.
pub proof fn one_structure_has_one_handle(types: TypeRegistry, a: KType, b: KType)
    requires
        types.wf(),
        types.node_of(a) is Some,
        types.node_of(b) is Some,
        same_structure(types.node_of(a)->0, types.node_of(b)->0),
    ensures
        a == b,
{
    assert(same_structure(types.node_of(b)->0, types.node_of(a)->0));
}

/// The order of its fields does not make another record type: the types of records with the same
/// fields, in whatever order, are one handle.
pub proof fn record_types_are_order_blind(
    types: TypeRegistry,
    x: Seq<Field>,
    y: Seq<Field>,
    a: KType,
    b: KType,
)
    requires
        types.wf(),
        types.node_of(a) matches Some(node) && is_record_node(node, x),
        types.node_of(b) matches Some(node) && is_record_node(node, y),
        x.to_multiset() == y.to_multiset(),
    ensures
        a == b,
{
    one_structure_has_one_handle(types, a, b);
}

/// The order of its arguments does not make another application: one constructor applied to the
/// same arguments, in whatever order, is one handle.
pub proof fn applications_are_order_blind(
    types: TypeRegistry,
    constructor: KType,
    x: Seq<Field>,
    y: Seq<Field>,
    a: KType,
    b: KType,
)
    requires
        types.wf(),
        types.node_of(a) matches Some(node) && is_application_node(node, constructor, x),
        types.node_of(b) matches Some(node) && is_application_node(node, constructor, y),
        x.to_multiset() == y.to_multiset(),
    ensures
        a == b,
{
    one_structure_has_one_handle(types, a, b);
}

} // verus!
