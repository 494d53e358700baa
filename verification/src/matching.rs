//! Which values inhabit a type, and which unevaluated parts a slot of that type takes.

use crate::ast::{ExpressionPart, KLiteral};
use crate::ktype::{rank, ranks_below, Field, KKind, KType, TypeNode, TypeRegistry};
use crate::region::{Region, RegionView};
use crate::symbol::Symbol;
use crate::value::{Carried, Cell, Entry, KKey, KObject, ObjId, ObjectView};
use vstd::prelude::*;

verus! {

/// The type of a dict key.
pub open spec fn key_type(key: KKey) -> KType {
    match key {
        KKey::String(_) => KType::Str,
        KKey::Number(_) => KType::Number,
        KKey::Bool(_) => KType::Bool,
    }
}

/// The value of the first cell under `name`.
pub open spec fn cell_named(cells: Seq<Cell>, name: Symbol) -> Option<Carried>
    decreases cells.len(),
{
    if cells.len() == 0 {
        None
    } else if cells[0].name == name {
        Some(cells[0].value)
    } else {
        cell_named(cells.drop_first(), name)
    }
}

/// The type of the first field under `name`.
pub open spec fn field_named(fields: Seq<Field>, name: Symbol) -> Option<KType>
    decreases fields.len(),
{
    if fields.len() == 0 {
        None
    } else if fields[0].name == name {
        Some(fields[0].ktype)
    } else {
        field_named(fields.drop_first(), name)
    }
}

/// The value of the first cell under `name`.
pub fn record_field(cells: &Vec<Cell>, name: Symbol) -> (r: Option<Carried>)
    ensures
        r == cell_named(cells@, name),
{
    let mut i: usize = 0;
    proof {
        assert(cells@.skip(0) =~= cells@);
    }
    while i < cells.len()
        invariant
            i <= cells.len(),
            cell_named(cells@, name) == cell_named(cells@.skip(i as int), name),
        decreases cells.len() - i,
    {
        proof {
            assert(cells@.skip(i as int).drop_first() =~= cells@.skip(i as int + 1));
        }
        if cells[i].name == name {
            return Some(cells[i].value);
        }
        i = i + 1;
    }
    None
}

/// The type of the first field under `name`.
pub fn schema_field(fields: &Vec<Field>, name: Symbol) -> (r: Option<KType>)
    ensures
        r == field_named(fields@, name),
{
    let mut i: usize = 0;
    proof {
        assert(fields@.skip(0) =~= fields@);
    }
    while i < fields.len()
        invariant
            i <= fields.len(),
            field_named(fields@, name) == field_named(fields@.skip(i as int), name),
        decreases fields.len() - i,
    {
        proof {
            assert(fields@.skip(i as int).drop_first() =~= fields@.skip(i as int + 1));
        }
        if fields[i].name == name {
            return Some(fields[i].ktype);
        }
        i = i + 1;
    }
    None
}

impl TypeRegistry {
    /// Whether a slot of type `kt` takes the carried value.
    pub open spec fn accepts(&self, region: RegionView, kt: KType, carried: Carried) -> bool
        decreases rank(kt) + 1, 0nat,
    {
        match kt {
            KType::Any => !(carried is UnresolvedType),
            KType::OfKind(kind) => match carried {
                Carried::Type(held) => kind == KKind::ProperType || self.kind(held) == kind,
                _ => false,
            },
            KType::Node(at) => if at < self.nodes@.len() {
                match (self.nodes@[at as int], carried) {
                    (TypeNode::Union { members }, _) => self.any_accepts(
                        region,
                        members@,
                        rank(kt),
                        carried,
                    ),
                    (TypeNode::List { element }, Carried::Object(object)) => match region.object(
                        object,
                    ) {
                        ObjectView::List { items, .. } => self.accepts_all(
                            region,
                            element,
                            rank(kt),
                            items,
                        ),
                        _ => false,
                    },
                    (TypeNode::Dict { key, value }, Carried::Object(object)) => match region.object(
                        object,
                    ) {
                        ObjectView::Dict { entries, .. } => self.accepts_entries(
                            region,
                            key,
                            value,
                            rank(kt),
                            entries,
                        ),
                        _ => false,
                    },
                    (TypeNode::Record { fields }, Carried::Object(object)) => match region.object(
                        object,
                    ) {
                        ObjectView::Record { fields: cells, .. } => self.accepts_fields(
                            region,
                            fields@,
                            rank(kt),
                            cells,
                        ),
                        _ => false,
                    },
                    (
                        TypeNode::ConstructorApply { constructor, arguments },
                        Carried::Object(object),
                    ) => match region.object(object) {
                        ObjectView::Tagged { tag, value, identity } => identity == constructor
                            && match field_named(arguments@, tag) {
                            Some(expected) => rank(expected) < rank(kt) && self.accepts(
                                region,
                                expected,
                                Carried::Object(value),
                            ),
                            None => false,
                        },
                        other => other.ktype() == kt,
                    },
                    (_, Carried::Object(object)) => region.object(object).ktype() == kt,
                    _ => false,
                }
            } else {
                false
            },
            _ => match carried {
                Carried::Object(object) => region.object(object).ktype() == kt,
                _ => false,
            },
        }
    }

    /// Whether any of `members` takes the carried value.
    pub open spec fn any_accepts(
        &self,
        region: RegionView,
        members: Seq<KType>,
        below: nat,
        carried: Carried,
    ) -> bool
        decreases below, members.len(),
    {
        members.len() > 0 && (self.any_accepts(region, members.drop_last(), below, carried) || (rank(
            members.last(),
        ) < below && self.accepts(region, members.last(), carried)))
    }

    /// Whether `element` takes every one of `items`.
    pub open spec fn accepts_all(
        &self,
        region: RegionView,
        element: KType,
        below: nat,
        items: Seq<Carried>,
    ) -> bool
        decreases below, items.len(),
    {
        items.len() == 0 || (self.accepts_all(region, element, below, items.drop_last()) && rank(
            element,
        ) < below && self.accepts(region, element, items.last()))
    }

    /// Whether `key` and `value` take every entry.
    pub open spec fn accepts_entries(
        &self,
        region: RegionView,
        key: KType,
        value: KType,
        below: nat,
        entries: Seq<Entry>,
    ) -> bool
        decreases below, entries.len(),
    {
        entries.len() == 0 || (self.accepts_entries(
            region,
            key,
            value,
            below,
            entries.drop_last(),
        ) && (key == KType::Any || key == key_type(entries.last().key)) && rank(value) < below
            && self.accepts(region, value, entries.last().value))
    }

    /// Whether every declared field is present with a value that its type takes.
    pub open spec fn accepts_fields(
        &self,
        region: RegionView,
        fields: Seq<Field>,
        below: nat,
        cells: Seq<Cell>,
    ) -> bool
        decreases below, fields.len(),
    {
        fields.len() == 0 || (self.accepts_fields(region, fields.drop_last(), below, cells)
            && match cell_named(cells, fields.last().name) {
            Some(value) => rank(fields.last().ktype) < below && self.accepts(
                region,
                fields.last().ktype,
                value,
            ),
            None => false,
        })
    }

    /// Whether the value inhabits the type.
    pub open spec fn inhabits(&self, region: RegionView, kt: KType, object: ObjId) -> bool {
        self.accepts(region, kt, Carried::Object(object))
    }

    /// Whether a slot of type `kt` takes an unevaluated part by its shape alone.
    pub open spec fn takes_part(&self, kt: KType, part: ExpressionPart) -> bool
        decreases rank(kt) + 1, 0nat,
    {
        match kt {
            KType::Any => !(part is Keyword) && !(part is SigiledTypeExpr) && !(part is RecordType),
            KType::Node(at) => if at < self.nodes@.len() {
                match self.nodes@[at as int] {
                    TypeNode::Union { members } => self.any_takes_part(members@, rank(kt), part),
                    TypeNode::List { .. } => part is ListLiteral,
                    TypeNode::Dict { .. } => part is DictLiteral,
                    TypeNode::Record { .. } => part is RecordLiteral,
                    _ => false,
                }
            } else {
                false
            },
            _ => leaf_takes_part(kt, part),
        }
    }

    /// Whether any of `members` takes an unevaluated part by its shape alone.
    pub open spec fn any_takes_part(&self, members: Seq<KType>, below: nat, part: ExpressionPart) -> bool
        decreases below, members.len(),
    {
        members.len() > 0 && (self.any_takes_part(members.drop_last(), below, part) || (rank(
            members.last(),
        ) < below && self.takes_part(members.last(), part)))
    }

    /// The member of a slot's type that captures a part as it stands, without evaluating it.
    pub open spec fn capturing_member(&self, kt: KType, part: ExpressionPart) -> Option<KType> {
        match part {
            ExpressionPart::Identifier(_) => if self.has_member(kt, KType::Identifier) {
                Some(KType::Identifier)
            } else if self.has_member(kt, KType::NameToken) {
                Some(KType::NameToken)
            } else {
                None
            },
            ExpressionPart::Type(_) => if self.has_member(kt, KType::TypeNameToken) {
                Some(KType::TypeNameToken)
            } else if self.has_member(kt, KType::NameToken) {
                Some(KType::NameToken)
            } else {
                None
            },
            ExpressionPart::SigiledTypeExpr(_) => if self.has_member(kt, KType::SigiledTypeExpr) {
                Some(KType::SigiledTypeExpr)
            } else {
                None
            },
            ExpressionPart::RecordType(_) => if self.has_member(kt, KType::RecordType) {
                Some(KType::RecordType)
            } else {
                None
            },
            _ => None,
        }
    }
}

/// Which parts a leaf type takes by their shape alone.
pub open spec fn leaf_takes_part(kt: KType, part: ExpressionPart) -> bool {
    match (kt, part) {
        (KType::Number, ExpressionPart::Literal(KLiteral::Number(_))) => true,
        (KType::Str, ExpressionPart::Literal(KLiteral::Str(_))) => true,
        (KType::Bool, ExpressionPart::Literal(KLiteral::Bool(_))) => true,
        (KType::Null, ExpressionPart::Literal(KLiteral::Null)) => true,
        (KType::Identifier, ExpressionPart::Identifier(_)) => true,
        (KType::NameToken, ExpressionPart::Identifier(_)) => true,
        (KType::NameToken, ExpressionPart::Type(_)) => true,
        (KType::TypeNameToken, ExpressionPart::Type(_)) => true,
        (KType::OfKind(KKind::ProperType), ExpressionPart::Type(_)) => true,
        (KType::KExpression, ExpressionPart::Expression(_)) => true,
        (KType::KExpression, ExpressionPart::QuotedExpression(_)) => true,
        (KType::SigiledTypeExpr, ExpressionPart::SigiledTypeExpr(_)) => true,
        (KType::RecordType, ExpressionPart::RecordType(_)) => true,
        _ => false,
    }
}

/// Which parts a leaf type takes by their shape alone.
fn leaf_matches(kt: KType, part: ExpressionPart) -> (r: bool)
    ensures
        r == leaf_takes_part(kt, part),
{
    match (kt, part) {
        (KType::Number, ExpressionPart::Literal(KLiteral::Number(_))) => true,
        (KType::Str, ExpressionPart::Literal(KLiteral::Str(_))) => true,
        (KType::Bool, ExpressionPart::Literal(KLiteral::Bool(_))) => true,
        (KType::Null, ExpressionPart::Literal(KLiteral::Null)) => true,
        (KType::Identifier, ExpressionPart::Identifier(_)) => true,
        (KType::NameToken, ExpressionPart::Identifier(_)) => true,
        (KType::NameToken, ExpressionPart::Type(_)) => true,
        (KType::TypeNameToken, ExpressionPart::Type(_)) => true,
        (KType::OfKind(KKind::ProperType), ExpressionPart::Type(_)) => true,
        (KType::KExpression, ExpressionPart::Expression(_)) => true,
        (KType::KExpression, ExpressionPart::QuotedExpression(_)) => true,
        (KType::SigiledTypeExpr, ExpressionPart::SigiledTypeExpr(_)) => true,
        (KType::RecordType, ExpressionPart::RecordType(_)) => true,
        _ => false,
    }
}

impl TypeRegistry {
    /// Whether a slot of type `kt` takes the carried value.
    pub fn accepts_carried(&self, region: &Region, kt: KType, carried: Carried) -> (r: bool)
        ensures
            r == self.accepts(region@, kt, carried),
        decreases rank(kt) + 1, 0nat,
    {
        match kt {
            KType::Any => !matches!(carried, Carried::UnresolvedType(_)),
            KType::OfKind(kind) => match carried {
                Carried::Type(held) => matches!(kind, KKind::ProperType) || self.kind_of(held) == kind,
                _ => false,
            },
            KType::Node(at) => if at < self.nodes.len() {
                match (&self.nodes[at], carried) {
                    (TypeNode::Union { members }, _) => {
                        assert(members@.take(members@.len() as int) =~= members@);
                        self.any_member_accepts(region, members, members.len(), at, carried)
                    },
                    (TypeNode::List { element }, Carried::Object(object)) => match region.object(
                        object,
                    ) {
                        Some(KObject::List { items, .. }) => {
                            assert(items@.take(items@.len() as int) =~= items@);
                            self.element_accepts(region, *element, at, items, items.len())
                        },
                        _ => false,
                    },
                    (TypeNode::Dict { key, value }, Carried::Object(object)) => match region.object(
                        object,
                    ) {
                        Some(KObject::Dict { entries, .. }) => {
                            assert(entries@.take(entries@.len() as int) =~= entries@);
                            self.entries_accepted(region, *key, *value, at, entries, entries.len())
                        },
                        _ => false,
                    },
                    (TypeNode::Record { fields }, Carried::Object(object)) => match region.object(
                        object,
                    ) {
                        Some(KObject::Record { fields: cells, .. }) => {
                            assert(fields@.take(fields@.len() as int) =~= fields@);
                            self.fields_accepted(region, fields, fields.len(), at, cells)
                        },
                        _ => false,
                    },
                    (
                        TypeNode::ConstructorApply { constructor, arguments },
                        Carried::Object(object),
                    ) => match region.object(object) {
                        Some(KObject::Tagged { tag, value, identity }) => {
                            if *identity != *constructor {
                                false
                            } else {
                                match schema_field(arguments, *tag) {
                                    Some(expected) => ranks_below(expected, at)
                                        && self.accepts_carried(
                                        region,
                                        expected,
                                        Carried::Object(*value),
                                    ),
                                    None => false,
                                }
                            }
                        },
                        Some(other) => other.ktype() == kt,
                        None => false,
                    },
                    (_, Carried::Object(object)) => region.object_type(object) == kt,
                    _ => false,
                }
            } else {
                false
            },
            _ => match carried {
                Carried::Object(object) => region.object_type(object) == kt,
                _ => false,
            },
        }
    }

    fn any_member_accepts(
        &self,
        region: &Region,
        members: &Vec<KType>,
        count: usize,
        top: usize,
        carried: Carried,
    ) -> (r: bool)
        requires
            count <= members.len(),
        ensures
            r == self.any_accepts(region@, members@.take(count as int), top as nat + 1, carried),
        decreases top as nat + 1, count as nat,
    {
        if count == 0 {
            return false;
        }
        assert(members@.take(count as int).drop_last() =~= members@.take(count as int - 1));
        self.any_member_accepts(region, members, count - 1, top, carried) || (ranks_below(
            members[count - 1],
            top,
        ) && self.accepts_carried(region, members[count - 1], carried))
    }

    fn element_accepts(
        &self,
        region: &Region,
        element: KType,
        top: usize,
        items: &Vec<Carried>,
        count: usize,
    ) -> (r: bool)
        requires
            count <= items.len(),
        ensures
            r == self.accepts_all(region@, element, top as nat + 1, items@.take(count as int)),
        decreases top as nat + 1, count as nat,
    {
        if count == 0 {
            return true;
        }
        assert(items@.take(count as int).drop_last() =~= items@.take(count as int - 1));
        self.element_accepts(region, element, top, items, count - 1) && ranks_below(element, top)
            && self.accepts_carried(region, element, items[count - 1])
    }

    fn entries_accepted(
        &self,
        region: &Region,
        key: KType,
        value: KType,
        top: usize,
        entries: &Vec<Entry>,
        count: usize,
    ) -> (r: bool)
        requires
            count <= entries.len(),
        ensures
            r == self.accepts_entries(
                region@,
                key,
                value,
                top as nat + 1,
                entries@.take(count as int),
            ),
        decreases top as nat + 1, count as nat,
    {
        if count == 0 {
            return true;
        }
        assert(entries@.take(count as int).drop_last() =~= entries@.take(count as int - 1));
        let entry = entries[count - 1];
        let held = match entry.key {
            KKey::String(_) => KType::Str,
            KKey::Number(_) => KType::Number,
            KKey::Bool(_) => KType::Bool,
        };
        self.entries_accepted(region, key, value, top, entries, count - 1) && (matches!(
            key,
            KType::Any
        ) || key == held) && ranks_below(value, top) && self.accepts_carried(
            region,
            value,
            entry.value,
        )
    }

    fn fields_accepted(
        &self,
        region: &Region,
        fields: &Vec<Field>,
        count: usize,
        top: usize,
        cells: &Vec<Cell>,
    ) -> (r: bool)
        requires
            count <= fields.len(),
        ensures
            r == self.accepts_fields(region@, fields@.take(count as int), top as nat + 1, cells@),
        decreases top as nat + 1, count as nat,
    {
        if count == 0 {
            return true;
        }
        assert(fields@.take(count as int).drop_last() =~= fields@.take(count as int - 1));
        let field = fields[count - 1];
        if !self.fields_accepted(region, fields, count - 1, top, cells) {
            return false;
        }
        match record_field(cells, field.name) {
            Some(value) => ranks_below(field.ktype, top) && self.accepts_carried(
                region,
                field.ktype,
                value,
            ),
            None => false,
        }
    }

    /// Whether the value inhabits the type.
    pub fn matches_value(&self, region: &Region, kt: KType, object: ObjId) -> (r: bool)
        ensures
            r == self.inhabits(region@, kt, object),
    {
        self.accepts_carried(region, kt, Carried::Object(object))
    }

    /// Whether a slot of type `kt` takes an unevaluated part by its shape alone.
    pub fn matches_part(&self, kt: KType, part: ExpressionPart) -> (r: bool)
        ensures
            r == self.takes_part(kt, part),
        decreases rank(kt) + 1, 0nat,
    {
        match kt {
            KType::Any => !matches!(
                part,
                ExpressionPart::Keyword(_) | ExpressionPart::SigiledTypeExpr(_)
                    | ExpressionPart::RecordType(_)
            ),
            KType::Node(at) => if at < self.nodes.len() {
                match &self.nodes[at] {
                    TypeNode::Union { members } => {
                        assert(members@.take(members@.len() as int) =~= members@);
                        self.any_member_matches(members, members.len(), at, part)
                    },
                    TypeNode::List { .. } => matches!(part, ExpressionPart::ListLiteral(_)),
                    TypeNode::Dict { .. } => matches!(part, ExpressionPart::DictLiteral(_)),
                    TypeNode::Record { .. } => matches!(part, ExpressionPart::RecordLiteral(_)),
                    _ => false,
                }
            } else {
                false
            },
            _ => leaf_matches(kt, part),
        }
    }

    fn any_member_matches(
        &self,
        members: &Vec<KType>,
        count: usize,
        top: usize,
        part: ExpressionPart,
    ) -> (r: bool)
        requires
            count <= members.len(),
        ensures
            r == self.any_takes_part(members@.take(count as int), top as nat + 1, part),
        decreases top as nat + 1, count as nat,
    {
        if count == 0 {
            return false;
        }
        assert(members@.take(count as int).drop_last() =~= members@.take(count as int - 1));
        self.any_member_matches(members, count - 1, top, part) || (ranks_below(
            members[count - 1],
            top,
        ) && self.matches_part(members[count - 1], part))
    }

    /// The member of a slot's type that captures a part as it stands, without evaluating it.
    pub fn raw_capture_member(&self, kt: KType, part: ExpressionPart) -> (r: Option<KType>)
        ensures
            r == self.capturing_member(kt, part),
    {
        match part {
            ExpressionPart::Identifier(_) => if self.union_has_member(kt, KType::Identifier) {
                Some(KType::Identifier)
            } else if self.union_has_member(kt, KType::NameToken) {
                Some(KType::NameToken)
            } else {
                None
            },
            ExpressionPart::Type(_) => if self.union_has_member(kt, KType::TypeNameToken) {
                Some(KType::TypeNameToken)
            } else if self.union_has_member(kt, KType::NameToken) {
                Some(KType::NameToken)
            } else {
                None
            },
            ExpressionPart::SigiledTypeExpr(_) => if self.union_has_member(
                kt,
                KType::SigiledTypeExpr,
            ) {
                Some(KType::SigiledTypeExpr)
            } else {
                None
            },
            ExpressionPart::RecordType(_) => if self.union_has_member(kt, KType::RecordType) {
                Some(KType::RecordType)
            } else {
                None
            },
            _ => None,
        }
    }
}

} // verus!
