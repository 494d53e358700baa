//! Questions asked of types: unions and their members, constructor parameters, kinds, names.

use crate::ktype::{
    children, field_names, field_types, rank, Field, KKind, KType, NodeSchema, TypeNode, TypeRegistry,
};
use crate::symbol::{Labels, Symbol};
use crate::text::{enclosed, join, joined, owned, texts};
use vstd::prelude::*;
use vstd::string::StringExecFns;

verus! {

impl TypeRegistry {
    /// The members of a union; any other type has none.
    pub open spec fn members(&self, kt: KType) -> Seq<KType> {
        match self.node_of(kt) {
            Some(TypeNode::Union { members }) => members@,
            _ => Seq::empty(),
        }
    }

    /// Whether `kt` is `needle`, or a union with `needle` among its members.
    pub open spec fn has_member(&self, kt: KType, needle: KType) -> bool {
        kt == needle || self.members(kt).contains(needle)
    }

    /// Whether `kt` is a sealed member named `name`.
    pub open spec fn is_member_named(&self, kt: KType, name: Symbol) -> bool {
        self.node_of(kt) matches Some(TypeNode::SetMember { name: own, .. }) && own == name
    }

    /// The representation of a wrapper type; any other type has none.
    pub open spec fn repr_of(&self, kt: KType) -> Option<KType> {
        match self.node_of(kt) {
            Some(TypeNode::SetMember { schema: NodeSchema::NewType(repr), .. }) => Some(repr),
            _ => None,
        }
    }

    /// The parameters of a type constructor; any other type has none.
    pub open spec fn constructor_params(&self, kt: KType) -> Option<Seq<Symbol>> {
        match self.node_of(kt) {
            Some(
                TypeNode::SetMember { schema: NodeSchema::TypeConstructor { param_names, .. }, .. },
            ) => Some(param_names@),
            Some(TypeNode::AbstractType { param_names, .. }) => if param_names@.len() > 0 {
                Some(param_names@)
            } else {
                None
            },
            _ => None,
        }
    }

    /// The kind of a type. Applying a constructor stays in the constructor family.
    pub open spec fn kind(&self, kt: KType) -> KKind {
        match self.node_of(kt) {
            Some(TypeNode::SetMember { schema: NodeSchema::NewType(_), .. }) => KKind::NewType,
            Some(TypeNode::ConstructorApply { .. }) => KKind::TypeConstructor,
            Some(TypeNode::Signature { .. }) => KKind::Signature,
            _ => if self.constructor_params(kt) is Some {
                KKind::TypeConstructor
            } else {
                KKind::ProperType
            },
        }
    }

    /// The members of a union, copied out.
    pub fn member_list(&self, kt: KType) -> (r: Vec<KType>)
        ensures
            r@ == self.members(kt),
    {
        match self.node(kt) {
            Some(TypeNode::Union { members }) => copy_types(members),
            _ => Vec::new(),
        }
    }

    /// Whether `kt` is a union.
    pub fn is_union(&self, kt: KType) -> (r: bool)
        ensures
            r == (self.node_of(kt) matches Some(TypeNode::Union { .. })),
    {
        matches!(self.node(kt), Some(TypeNode::Union { .. }))
    }

    /// Whether `kt` is `needle`, or a union with `needle` among its members.
    pub fn union_has_member(&self, kt: KType, needle: KType) -> (r: bool)
        ensures
            r == self.has_member(kt, needle),
    {
        if kt == needle {
            return true;
        }
        let members = self.member_list(kt);
        let mut i: usize = 0;
        while i < members.len()
            invariant
                i <= members.len(),
                members@ == self.members(kt),
                forall|k: int| 0 <= k < i ==> members@[k] != needle,
            decreases members.len() - i,
        {
            if members[i] == needle {
                return true;
            }
            i = i + 1;
        }
        false
    }

    /// The first of `members` that is sealed under `name`.
    pub open spec fn first_named(&self, members: Seq<KType>, name: Symbol) -> Option<KType>
        decreases members.len(),
    {
        if members.len() == 0 {
            None
        } else if self.is_member_named(members[0], name) {
            Some(members[0])
        } else {
            self.first_named(members.drop_first(), name)
        }
    }

    /// The first of `members` that is a wrapper sealed under `name`, with its representation.
    pub open spec fn first_variant(&self, members: Seq<KType>, name: Symbol) -> Option<
        (KType, KType),
    >
        decreases members.len(),
    {
        if members.len() == 0 {
            None
        } else if self.is_member_named(members[0], name) && self.repr_of(members[0]) is Some {
            Some((members[0], self.repr_of(members[0])->0))
        } else {
            self.first_variant(members.drop_first(), name)
        }
    }

    /// Whether `kt` is sealed under `name`.
    fn named(&self, kt: KType, name: Symbol) -> (r: bool)
        ensures
            r == self.is_member_named(kt, name),
    {
        match self.node(kt) {
            Some(TypeNode::SetMember { name: own, .. }) => *own == name,
            _ => false,
        }
    }

    /// The first member of `union` that is sealed under `name`.
    pub fn union_member_named(&self, union: KType, name: Symbol) -> (r: Option<KType>)
        ensures
            r == self.first_named(self.members(union), name),
    {
        let members = self.member_list(union);
        let mut i: usize = 0;
        proof {
            assert(members@.skip(0) =~= members@);
        }
        while i < members.len()
            invariant
                i <= members.len(),
                members@ == self.members(union),
                self.first_named(members@, name) == self.first_named(members@.skip(i as int), name),
            decreases members.len() - i,
        {
            proof {
                assert(members@.skip(i as int).drop_first() =~= members@.skip(i as int + 1));
            }
            if self.named(members[i], name) {
                return Some(members[i]);
            }
            i = i + 1;
        }
        None
    }

    /// The variant of `union` under `name`, with the type of its payload.
    pub fn union_variant_target(&self, union: KType, name: Symbol) -> (r: Option<(KType, KType)>)
        ensures
            r == self.first_variant(self.members(union), name),
    {
        let members = self.member_list(union);
        let mut i: usize = 0;
        proof {
            assert(members@.skip(0) =~= members@);
        }
        while i < members.len()
            invariant
                i <= members.len(),
                members@ == self.members(union),
                self.first_variant(members@, name) == self.first_variant(
                    members@.skip(i as int),
                    name,
                ),
            decreases members.len() - i,
        {
            proof {
                assert(members@.skip(i as int).drop_first() =~= members@.skip(i as int + 1));
            }
            if self.named(members[i], name) {
                if let Some(repr) = self.repr(members[i]) {
                    return Some((members[i], repr));
                }
            }
            i = i + 1;
        }
        None
    }

    /// The representation of a wrapper type.
    pub fn repr(&self, kt: KType) -> (r: Option<KType>)
        ensures
            r == self.repr_of(kt),
    {
        match self.node(kt) {
            Some(TypeNode::SetMember { schema: NodeSchema::NewType(repr), .. }) => Some(*repr),
            _ => None,
        }
    }

    /// The parameters of a type constructor.
    pub fn constructor_param_names(&self, kt: KType) -> (r: Option<Vec<Symbol>>)
        ensures
            match r {
                Some(names) => self.constructor_params(kt) == Some(names@),
                None => self.constructor_params(kt) is None,
            },
    {
        match self.node(kt) {
            Some(
                TypeNode::SetMember { schema: NodeSchema::TypeConstructor { param_names, .. }, .. },
            ) => Some(copy_symbols(param_names)),
            Some(TypeNode::AbstractType { param_names, .. }) => if param_names.len() > 0 {
                Some(copy_symbols(param_names))
            } else {
                None
            },
            _ => None,
        }
    }

    /// The kind of a type.
    pub fn kind_of(&self, kt: KType) -> (r: KKind)
        ensures
            r == self.kind(kt),
    {
        match self.node(kt) {
            Some(TypeNode::SetMember { schema: NodeSchema::NewType(_), .. }) => KKind::NewType,
            Some(TypeNode::SetMember { schema: NodeSchema::TypeConstructor { .. }, .. }) =>
                KKind::TypeConstructor,
            Some(TypeNode::ConstructorApply { .. }) => KKind::TypeConstructor,
            Some(TypeNode::Signature { .. }) => KKind::Signature,
            Some(TypeNode::AbstractType { param_names, .. }) => if param_names.len() > 0 {
                KKind::TypeConstructor
            } else {
                KKind::ProperType
            },
            _ => KKind::ProperType,
        }
    }

    /// The name a type is shown by.
    pub open spec fn name_text(&self, labels: &Labels, kt: KType) -> Seq<char>
        decreases rank(kt) + 1, 0nat,
    {
        match kt {
            KType::Number => "Number"@,
            KType::Str => "Str"@,
            KType::Bool => "Bool"@,
            KType::Null => "Null"@,
            KType::Any => "Any"@,
            KType::Identifier => "Identifier"@,
            KType::NameToken => "NameToken"@,
            KType::TypeNameToken => "TypeNameToken"@,
            KType::KExpression => "KExpression"@,
            KType::SigiledTypeExpr => "SigiledTypeExpr"@,
            KType::RecordType => "RecordType"@,
            KType::OfKind(KKind::ProperType) => "ProperType"@,
            KType::OfKind(KKind::NewType) => "NewType"@,
            KType::OfKind(KKind::TypeConstructor) => "TypeConstructor"@,
            KType::OfKind(KKind::Signature) => "Signature"@,
            KType::Sibling(_) => "Sibling"@,
            KType::Node(at) => if at < self.nodes@.len() {
                let node = self.nodes@[at as int];
                self.node_text(labels, node, self.name_texts(labels, children(node), rank(kt)))
            } else {
                ""@
            },
        }
    }

    /// The names of a run of types that all rank below `below`.
    pub open spec fn name_texts(&self, labels: &Labels, kts: Seq<KType>, below: nat) -> Seq<
        Seq<char>,
    >
        decreases below, kts.len(),
    {
        if kts.len() == 0 {
            Seq::empty()
        } else {
            let own = if rank(kts.last()) < below {
                self.name_text(labels, kts.last())
            } else {
                ""@
            };
            self.name_texts(labels, kts.drop_last(), below).push(own)
        }
    }

    /// The name of a node whose children are shown as `shown`.
    pub open spec fn node_text(&self, labels: &Labels, node: TypeNode, shown: Seq<Seq<char>>) -> Seq<
        char,
    > {
        match node {
            TypeNode::SetMember { name, .. } => labels.text_of(name),
            TypeNode::Variant { tag, .. } => labels.text_of(tag),
            TypeNode::AbstractType { name, .. } => labels.text_of(name),
            TypeNode::Signature { path, .. } => labels.text_of(path),
            TypeNode::Module { path, .. } => labels.text_of(path),
            TypeNode::List { .. } => ":(LIST OF "@ + joined(shown, " "@) + ")"@,
            TypeNode::Dict { .. } => ":(MAP "@ + joined(shown, " -> "@) + ")"@,
            TypeNode::Record { fields } => ":{"@ + joined(
                pair_texts(labels.texts_of(field_names(fields@)), " :"@, shown),
                ", "@,
            ) + "}"@,
            TypeNode::KFunction { .. } => ":(FN "@ + joined(shown, " -> "@) + ")"@,
            TypeNode::KFunctor { .. } => ":(FUNCTOR "@ + joined(shown, " -> "@) + ")"@,
            TypeNode::ConstructorApply { arguments, .. } => ":("@ + shown.first() + " {"@ + joined(
                pair_texts(
                    labels.texts_of(field_names(arguments@)),
                    " = "@,
                    shown.drop_first(),
                ),
                ", "@,
            ) + "})"@,
            TypeNode::Union { .. } => ":("@ + joined(shown, " | "@) + ")"@,
            TypeNode::Group { .. } => ":(GROUP "@ + joined(shown, " "@) + ")"@,
        }
    }
}

/// Each label followed by `between` and the text at its place.
pub open spec fn pair_texts(labels: Seq<Seq<char>>, between: Seq<char>, shown: Seq<Seq<char>>) -> Seq<
    Seq<char>,
> {
    Seq::new(labels.len(), |i: int| labels[i] + between + shown[i])
}

/// A copy of a run of types.
pub fn copy_types(items: &Vec<KType>) -> (r: Vec<KType>)
    ensures
        r@ == items@,
{
    let mut r: Vec<KType> = Vec::new();
    let mut i: usize = 0;
    while i < items.len()
        invariant
            i <= items.len(),
            r@ == items@.take(i as int),
        decreases items.len() - i,
    {
        r.push(items[i]);
        assert(items@.take(i as int + 1) =~= items@.take(i as int).push(items@[i as int]));
        i = i + 1;
    }
    assert(items@.take(i as int) =~= items@);
    r
}

/// A copy of a run of symbols.
pub fn copy_symbols(items: &Vec<Symbol>) -> (r: Vec<Symbol>)
    ensures
        r@ == items@,
{
    let mut r: Vec<Symbol> = Vec::new();
    let mut i: usize = 0;
    while i < items.len()
        invariant
            i <= items.len(),
            r@ == items@.take(i as int),
        decreases items.len() - i,
    {
        r.push(items[i]);
        assert(items@.take(i as int + 1) =~= items@.take(i as int).push(items@[i as int]));
        i = i + 1;
    }
    assert(items@.take(i as int) =~= items@);
    r
}

/// The names of a run of fields.
pub fn names_of_fields(fields: &Vec<Field>) -> (r: Vec<Symbol>)
    ensures
        r@ == field_names(fields@),
{
    let mut r: Vec<Symbol> = Vec::new();
    let mut i: usize = 0;
    while i < fields.len()
        invariant
            i <= fields.len(),
            r@ == field_names(fields@).take(i as int),
        decreases fields.len() - i,
    {
        r.push(fields[i].name);
        assert(field_names(fields@).take(i as int + 1) =~= field_names(fields@).take(i as int).push(
            fields@[i as int].name,
        ));
        i = i + 1;
    }
    assert(field_names(fields@).take(i as int) =~= field_names(fields@));
    r
}

/// The types of a run of fields.
pub fn types_of_fields(fields: &Vec<Field>) -> (r: Vec<KType>)
    ensures
        r@ == field_types(fields@),
{
    let mut r: Vec<KType> = Vec::new();
    let mut i: usize = 0;
    while i < fields.len()
        invariant
            i <= fields.len(),
            r@ == field_types(fields@).take(i as int),
        decreases fields.len() - i,
    {
        r.push(fields[i].ktype);
        assert(field_types(fields@).take(i as int + 1) =~= field_types(fields@).take(i as int).push(
            fields@[i as int].ktype,
        ));
        i = i + 1;
    }
    assert(field_types(fields@).take(i as int) =~= field_types(fields@));
    r
}

/// The types that a node is built from, in order.
pub fn children_of(node: &TypeNode) -> (r: Vec<KType>)
    ensures
        r@ == children(*node),
{
    let mut r: Vec<KType> = Vec::new();
    match node {
        TypeNode::List { element } => {
            r.push(*element);
        },
        TypeNode::Dict { key, value } => {
            r.push(*key);
            r.push(*value);
        },
        TypeNode::Record { fields } => {
            r = types_of_fields(fields);
        },
        TypeNode::KFunction { params, ret } => {
            r = types_of_fields(params);
            r.push(*ret);
        },
        TypeNode::KFunctor { params, ret } => {
            r = types_of_fields(params);
            r.push(*ret);
        },
        TypeNode::ConstructorApply { constructor, arguments } => {
            r.push(*constructor);
            let mut rest = types_of_fields(arguments);
            r.append(&mut rest);
        },
        TypeNode::Union { members } => {
            r = copy_types(members);
        },
        TypeNode::Group { members } => {
            r = copy_types(members);
        },
        _ => {},
    }
    assert(r@ =~= children(*node));
    r
}

/// The types of a run of fields, last one first.
pub open spec fn types_reversed(fields: Seq<Field>) -> Seq<KType> {
    field_types(fields).reverse()
}

/// The types that a node is built from, in the order a stack gives them back: the fields of a record
/// and the parameters of a function go on it as they stand, so the last of them comes first.
pub open spec fn popped_children(node: TypeNode) -> Seq<KType> {
    match node {
        TypeNode::Record { fields } => types_reversed(fields@),
        TypeNode::KFunction { params, ret } => types_reversed(params@).push(ret),
        TypeNode::KFunctor { params, ret } => types_reversed(params@).push(ret),
        _ => children(node),
    }
}

/// The types of a run of fields, last one first.
fn reversed_types_of(fields: &Vec<Field>) -> (r: Vec<KType>)
    ensures
        r@ == types_reversed(fields@),
{
    let mut r: Vec<KType> = Vec::new();
    let ghost all = types_reversed(fields@);
    let mut left: usize = fields.len();
    proof {
        assert(r@ =~= all.take(0));
    }
    while left > 0
        invariant
            left <= fields.len(),
            all == types_reversed(fields@),
            r@ == all.take(fields.len() - left),
        decreases left,
    {
        left = left - 1;
        r.push(fields[left].ktype);
        proof {
            assert(all[fields.len() - left - 1] == fields@[left as int].ktype);
            assert(all.take(fields.len() - left) =~= all.take(fields.len() - left - 1).push(
                fields@[left as int].ktype,
            ));
        }
    }
    proof {
        assert(all.take(fields.len() as int) =~= all);
    }
    r
}

/// The types that a node is built from, in the order a stack gives them back.
pub fn popped_children_of(node: &TypeNode) -> (r: Vec<KType>)
    ensures
        r@ == popped_children(*node),
{
    match node {
        TypeNode::Record { fields } => reversed_types_of(fields),
        TypeNode::KFunction { params, ret } => {
            let mut r = reversed_types_of(params);
            r.push(*ret);
            r
        },
        TypeNode::KFunctor { params, ret } => {
            let mut r = reversed_types_of(params);
            r.push(*ret);
            r
        },
        _ => children_of(node),
    }
}

/// Each label followed by `between` and the text at its place.
fn pair_up(labels: &Vec<String>, between: &str, shown: &Vec<String>, from: usize) -> (r: Vec<String>)
    requires
        from <= shown.len(),
        labels.len() <= shown.len() - from,
    ensures
        texts(r@) == pair_texts(texts(labels@), between@, texts(shown@).skip(from as int)),
{
    let mut r: Vec<String> = Vec::new();
    let mut i: usize = 0;
    let ghost wanted = pair_texts(texts(labels@), between@, texts(shown@).skip(from as int));
    while i < labels.len()
        invariant
            i <= labels.len(),
            from <= shown.len(),
            labels.len() <= shown.len() - from,
            wanted == pair_texts(texts(labels@), between@, texts(shown@).skip(from as int)),
            texts(r@) == wanted.take(i as int),
        decreases labels.len() - i,
    {
        let ghost earlier = texts(r@);
        let next = enclosed(labels[i].as_str(), between, shown[from + i].as_str());
        r.push(next);
        proof {
            assert(texts(r@) =~= earlier.push(next@));
            assert(wanted.take(i as int + 1) =~= wanted.take(i as int).push(wanted[i as int]));
        }
        i = i + 1;
    }
    assert(wanted.take(i as int) =~= wanted);
    r
}

impl TypeRegistry {
    /// The name a type is shown by.
    pub fn name(&self, labels: &Labels, kt: KType) -> (r: String)
        ensures
            r@ == self.name_text(labels, kt),
        decreases rank(kt) + 1, 0nat,
    {
        match kt {
            KType::Number => owned("Number"),
            KType::Str => owned("Str"),
            KType::Bool => owned("Bool"),
            KType::Null => owned("Null"),
            KType::Any => owned("Any"),
            KType::Identifier => owned("Identifier"),
            KType::NameToken => owned("NameToken"),
            KType::TypeNameToken => owned("TypeNameToken"),
            KType::KExpression => owned("KExpression"),
            KType::SigiledTypeExpr => owned("SigiledTypeExpr"),
            KType::RecordType => owned("RecordType"),
            KType::OfKind(KKind::ProperType) => owned("ProperType"),
            KType::OfKind(KKind::NewType) => owned("NewType"),
            KType::OfKind(KKind::TypeConstructor) => owned("TypeConstructor"),
            KType::OfKind(KKind::Signature) => owned("Signature"),
            KType::Sibling(_) => owned("Sibling"),
            KType::Node(at) => if at < self.nodes.len() {
                let node = &self.nodes[at];
                let kids = children_of(node);
                let shown = self.names(labels, &kids, kids.len(), at);
                proof {
                    assert(kids@.take(kids@.len() as int) =~= kids@);
                }
                self.node_name(labels, node, &shown)
            } else {
                owned("")
            },
        }
    }

    /// The names of the first `count` of `kts`, all of which rank at most `top`.
    fn names(&self, labels: &Labels, kts: &Vec<KType>, count: usize, top: usize) -> (r: Vec<String>)
        requires
            count <= kts.len(),
        ensures
            texts(r@) == self.name_texts(labels, kts@.take(count as int), top as nat + 1),
            r.len() == count,
        decreases top as nat + 1, count as nat,
    {
        if count == 0 {
            let r: Vec<String> = Vec::new();
            assert(texts(r@) =~= Seq::<Seq<char>>::empty());
            r
        } else {
            let mut r = self.names(labels, kts, count - 1, top);
            let ghost earlier = texts(r@);
            let own = match kts[count - 1] {
                KType::Node(at) => if at < top {
                    self.name(labels, kts[count - 1])
                } else {
                    owned("")
                },
                _ => self.name(labels, kts[count - 1]),
            };
            r.push(own);
            proof {
                assert(texts(r@) =~= earlier.push(own@));
                assert(kts@.take(count as int).drop_last() =~= kts@.take(count as int - 1));
            }
            r
        }
    }

    /// The name of a node whose children are shown as `shown`.
    fn node_name(&self, labels: &Labels, node: &TypeNode, shown: &Vec<String>) -> (r: String)
        requires
            shown.len() == children(*node).len(),
        ensures
            r@ == self.node_text(labels, *node, texts(shown@)),
    {
        match node {
            TypeNode::SetMember { name, .. } => labels.render(*name),
            TypeNode::Variant { tag, .. } => labels.render(*tag),
            TypeNode::AbstractType { name, .. } => labels.render(*name),
            TypeNode::Signature { path, .. } => labels.render(*path),
            TypeNode::Module { path, .. } => labels.render(*path),
            TypeNode::List { .. } => enclosed(":(LIST OF ", join(shown, " ").as_str(), ")"),
            TypeNode::Dict { .. } => enclosed(":(MAP ", join(shown, " -> ").as_str(), ")"),
            TypeNode::Record { fields } => {
                let names = labels.render_all(&names_of_fields(fields));
                proof {
                    assert(texts(names@).len() == names@.len());
                    assert(texts(shown@).skip(0) =~= texts(shown@));
                }
                let pairs = pair_up(&names, " :", shown, 0);
                enclosed(":{", join(&pairs, ", ").as_str(), "}")
            },
            TypeNode::KFunction { .. } => enclosed(":(FN ", join(shown, " -> ").as_str(), ")"),
            TypeNode::KFunctor { .. } => enclosed(":(FUNCTOR ", join(shown, " -> ").as_str(), ")"),
            TypeNode::ConstructorApply { arguments, .. } => {
                let names = labels.render_all(&names_of_fields(arguments));
                proof {
                    assert(texts(names@).len() == names@.len());
                    assert(texts(shown@).skip(1) =~= texts(shown@).drop_first());
                }
                let pairs = pair_up(&names, " = ", shown, 1);
                let mut r = enclosed(":(", shown[0].as_str(), " {");
                r.append(join(&pairs, ", ").as_str());
                r.append("})");
                r
            },
            TypeNode::Union { .. } => enclosed(":(", join(shown, " | ").as_str(), ")"),
            TypeNode::Group { .. } => enclosed(":(GROUP ", join(shown, " ").as_str(), ")"),
        }
    }
}

} // verus!
