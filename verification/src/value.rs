//! Values as the dispatcher sees them: handles into the region, and the objects behind them.

use crate::ktype::KType;
use crate::symbol::Symbol;
use vstd::prelude::*;

verus! {

/// An expression node of the region.
#[derive(Clone, Copy, PartialEq, Eq, Structural, Debug)]
pub struct ExprId {
    pub at: usize,
}

/// An object of the region.
#[derive(Clone, Copy, PartialEq, Eq, Structural, Debug)]
pub struct ObjId {
    pub at: usize,
}

/// A callable of the function table.
#[derive(Clone, Copy, PartialEq, Eq, Structural, Debug)]
pub struct FnId {
    pub at: usize,
}

/// The claim edge of a binder that has not landed yet.
#[derive(Clone, Copy, PartialEq, Eq, Structural, Debug)]
pub struct ProducerId {
    pub edge: usize,
}

/// A slot of the scheduler.
#[derive(Clone, Copy, PartialEq, Eq, Structural, Debug)]
pub struct NodeId {
    pub at: usize,
}

/// What a slot resolves to: a runtime value, a type, or a type name nothing has lowered.
#[derive(Clone, Copy, PartialEq, Eq, Structural, Debug)]
pub enum Carried {
    Object(ObjId),
    Type(KType),
    UnresolvedType(Symbol),
}

/// A dict key. Numbers are held by their bit pattern.
#[derive(Clone, Copy, PartialEq, Eq, Structural, Debug)]
pub enum KKey {
    String(Symbol),
    Number(u64),
    Bool(bool),
}

/// A named cell of a record value.
#[derive(Clone, Copy, PartialEq, Eq, Structural, Debug)]
pub struct Cell {
    pub name: Symbol,
    pub value: Carried,
}

/// A keyed cell of a dict value.
#[derive(Clone, Copy, PartialEq, Eq, Structural, Debug)]
pub struct Entry {
    pub key: KKey,
    pub value: Carried,
}

/// A runtime value. Aggregates remember their own type from construction.
pub enum KObject {
    /// A number, by its bit pattern.
    Number(u64),
    Str(Symbol),
    Bool(bool),
    Null,
    KFunction { function: FnId, ktype: KType },
    KExpression(ExprId),
    List { items: Vec<Carried>, ktype: KType },
    Dict { entries: Vec<Entry>, ktype: KType },
    Record { fields: Vec<Cell>, ktype: KType },
    /// A value under a nominal identity.
    Wrapped { inner: ObjId, type_id: KType },
    /// A value under the tag of one variant.
    Tagged { tag: Symbol, value: ObjId, identity: KType },
    /// A struct: its fields in declaration order, under a nominal identity.
    Struct { fields: Vec<Cell>, identity: KType },
}

/// The content of a [`KObject`].
pub enum ObjectView {
    Number(u64),
    Str(Symbol),
    Bool(bool),
    Null,
    KFunction { function: FnId, ktype: KType },
    KExpression(ExprId),
    List { items: Seq<Carried>, ktype: KType },
    Dict { entries: Seq<Entry>, ktype: KType },
    Record { fields: Seq<Cell>, ktype: KType },
    Wrapped { inner: ObjId, type_id: KType },
    Tagged { tag: Symbol, value: ObjId, identity: KType },
    Struct { fields: Seq<Cell>, identity: KType },
}

impl View for KObject {
    type V = ObjectView;

    open spec fn view(&self) -> ObjectView {
        match *self {
            KObject::Number(bits) => ObjectView::Number(bits),
            KObject::Str(text) => ObjectView::Str(text),
            KObject::Bool(b) => ObjectView::Bool(b),
            KObject::Null => ObjectView::Null,
            KObject::KFunction { function, ktype } => ObjectView::KFunction { function, ktype },
            KObject::KExpression(e) => ObjectView::KExpression(e),
            KObject::List { items, ktype } => ObjectView::List { items: items@, ktype },
            KObject::Dict { entries, ktype } => ObjectView::Dict { entries: entries@, ktype },
            KObject::Record { fields, ktype } => ObjectView::Record { fields: fields@, ktype },
            KObject::Wrapped { inner, type_id } => ObjectView::Wrapped { inner, type_id },
            KObject::Tagged { tag, value, identity } => ObjectView::Tagged { tag, value, identity },
            KObject::Struct { fields, identity } => ObjectView::Struct { fields: fields@, identity },
        }
    }
}

impl ObjectView {
    /// The type that a value carries.
    pub open spec fn ktype(self) -> KType {
        match self {
            ObjectView::Number(_) => KType::Number,
            ObjectView::Str(_) => KType::Str,
            ObjectView::Bool(_) => KType::Bool,
            ObjectView::Null => KType::Null,
            ObjectView::KFunction { ktype, .. } => ktype,
            ObjectView::KExpression(_) => KType::KExpression,
            ObjectView::List { ktype, .. } => ktype,
            ObjectView::Dict { ktype, .. } => ktype,
            ObjectView::Record { ktype, .. } => ktype,
            ObjectView::Wrapped { type_id, .. } => type_id,
            ObjectView::Tagged { identity, .. } => identity,
            ObjectView::Struct { identity, .. } => identity,
        }
    }
}

impl KObject {
    /// The type that a value carries.
    pub fn ktype(&self) -> (r: KType)
        ensures
            r == self@.ktype(),
    {
        match self {
            KObject::Number(_) => KType::Number,
            KObject::Str(_) => KType::Str,
            KObject::Bool(_) => KType::Bool,
            KObject::Null => KType::Null,
            KObject::KFunction { ktype, .. } => *ktype,
            KObject::KExpression(_) => KType::KExpression,
            KObject::List { ktype, .. } => *ktype,
            KObject::Dict { ktype, .. } => *ktype,
            KObject::Record { ktype, .. } => *ktype,
            KObject::Wrapped { type_id, .. } => *type_id,
            KObject::Tagged { identity, .. } => *identity,
            KObject::Struct { identity, .. } => *identity,
        }
    }
}

/// `items` with `item` behind it, unless it is there already.
pub open spec fn with_new(items: Seq<ProducerId>, item: ProducerId) -> Seq<ProducerId> {
    if items.contains(item) {
        items
    } else {
        items.push(item)
    }
}

/// Whether `items` holds `wanted`.
pub fn holds_producer(items: &Vec<ProducerId>, wanted: ProducerId) -> (r: bool)
    ensures
        r == items@.contains(wanted),
{
    let mut i: usize = 0;
    while i < items.len()
        invariant
            i <= items.len(),
            forall|k: int| 0 <= k < i ==> items@[k] != wanted,
        decreases items.len() - i,
    {
        if items[i] == wanted {
            return true;
        }
        i = i + 1;
    }
    false
}

/// Appends `item` unless it is there already.
pub fn push_new(items: &mut Vec<ProducerId>, item: ProducerId)
    ensures
        final(items)@ == with_new(old(items)@, item),
{
    if !holds_producer(items, item) {
        items.push(item);
    }
}

/// Adding producers one by one never makes one occur twice.
pub proof fn with_new_keeps_distinct(items: Seq<ProducerId>, item: ProducerId)
    requires
        items.no_duplicates(),
    ensures
        with_new(items, item).no_duplicates(),
        with_new(items, item).contains(item),
        items.is_prefix_of(with_new(items, item)),
{
    if !items.contains(item) {
        assert(items.push(item)[items.len() as int] == item);
    }
}

} // verus!
