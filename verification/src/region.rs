//! The region: the grow-only store of expression nodes, literal contents and objects.
//!
//! Handles index into the region's tables. Allocation only ever appends, so a handle that means
//! something keeps its meaning; a handle that a region does not hold names an empty node, an empty
//! literal or the null object.

use crate::ast::{
    DictId, ExpressionPart, KeyElement, ListId, RecordId, Span, Spanned, WorkingPart,
};
use crate::symbol::Symbol;
use crate::value::{Carried, ExprId, KObject, ObjId, ObjectView};
use vstd::prelude::*;

verus! {

/// A key and a value of a dict literal.
#[derive(Clone, Copy, PartialEq, Eq, Structural, Debug)]
pub struct PairPart {
    pub key: ExpressionPart,
    pub value: ExpressionPart,
}

/// A name and a value of a record literal.
#[derive(Clone, Copy, PartialEq, Eq, Structural, Debug)]
pub struct FieldPart {
    pub name: Symbol,
    pub value: ExpressionPart,
}

/// Which channel a declared name binds in.
#[derive(Clone, Copy, PartialEq, Eq, Structural, Debug)]
pub enum BindKind {
    Value,
    Type,
}

/// What a binder form declares, as the parser recorded it.
pub struct BinderPlan {
    /// The slot that holds the declared name.
    pub name_slot: Option<usize>,
    /// The name that the form declares, with the channel it binds in.
    pub name: Option<(Symbol, BindKind)>,
    /// The keys of the overloads that the form registers.
    pub buckets: Vec<Vec<KeyElement>>,
    /// Which slots hold the form's own declaration chain.
    pub chain_slots: Vec<bool>,
}

/// A binder plan of the region.
#[derive(Clone, Copy, PartialEq, Eq, Structural, Debug)]
pub struct PlanId {
    pub at: usize,
}

/// A stamp of the region: which slots of a node reach a call unevaluated.
#[derive(Clone, Copy, PartialEq, Eq, Structural, Debug)]
pub struct StampId {
    pub at: usize,
}

/// What a node knows beside its parts.
#[derive(Clone, Copy, PartialEq, Eq, Structural, Debug)]
pub struct NodeMeta {
    pub span: Option<Span>,
    pub plan: Option<PlanId>,
    /// The slots that the parser keeps raw.
    pub raw: Option<StampId>,
}

/// An expression node.
pub struct Node {
    pub parts: Vec<Spanned>,
    pub meta: NodeMeta,
}

/// The content of a [`Node`].
pub struct NodeView {
    pub parts: Seq<Spanned>,
    pub meta: NodeMeta,
}

/// An object with whether it borrows from the region of another value.
pub struct Stored {
    pub object: KObject,
    pub borrows: bool,
}

/// The content of a [`Stored`].
pub struct StoredView {
    pub object: ObjectView,
    pub borrows: bool,
}

/// The store of nodes, literal contents and objects.
pub struct Region {
    pub nodes: Vec<Node>,
    pub lists: Vec<Vec<ExpressionPart>>,
    pub dicts: Vec<Vec<PairPart>>,
    pub records: Vec<Vec<FieldPart>>,
    pub plans: Vec<BinderPlan>,
    pub stamps: Vec<Vec<bool>>,
    pub objects: Vec<Stored>,
}

/// The content of a [`Region`].
#[verifier::ext_equal]
pub struct RegionView {
    pub nodes: Seq<NodeView>,
    pub lists: Seq<Seq<ExpressionPart>>,
    pub dicts: Seq<Seq<PairPart>>,
    pub records: Seq<Seq<FieldPart>>,
    pub plans: Seq<BinderPlan>,
    pub stamps: Seq<Seq<bool>>,
    pub objects: Seq<StoredView>,
}

/// Metadata of a node that no source stands behind.
pub open spec fn no_meta() -> NodeMeta {
    NodeMeta { span: None, plan: None, raw: None }
}

/// The group that a slot holds.
pub open spec fn group_in(slot: Spanned) -> Option<ExprId> {
    match slot.value {
        WorkingPart::Ast(ExpressionPart::Expression(child)) => Some(child),
        _ => None,
    }
}

/// Whether every group among `parts` is one of the first `bound` nodes.
pub open spec fn groups_below(parts: Seq<Spanned>, bound: nat) -> bool {
    forall|i: int|
        0 <= i < parts.len() ==> (group_in(#[trigger] parts[i]) matches Some(child) ==> child.at
            < bound)
}

/// Whether every group among `parts` is one of the first `bound` nodes.
fn holds_groups_below(parts: &Vec<Spanned>, bound: usize) -> (r: bool)
    ensures
        r == groups_below(parts@, bound as nat),
{
    let mut i: usize = 0;
    while i < parts.len()
        invariant
            i <= parts.len(),
            forall|k: int|
                0 <= k < i ==> (group_in(#[trigger] parts@[k]) matches Some(child) ==> child.at
                    < bound),
        decreases parts.len() - i,
    {
        if let WorkingPart::Ast(ExpressionPart::Expression(child)) = parts[i].value {
            if child.at >= bound {
                assert(group_in(parts@[i as int]) == Some(child));
                return false;
            }
        }
        i = i + 1;
    }
    true
}

impl View for Node {
    type V = NodeView;

    open spec fn view(&self) -> NodeView {
        NodeView { parts: self.parts@, meta: self.meta }
    }
}

impl View for Stored {
    type V = StoredView;

    open spec fn view(&self) -> StoredView {
        StoredView { object: self.object@, borrows: self.borrows }
    }
}

impl View for Region {
    type V = RegionView;

    open spec fn view(&self) -> RegionView {
        RegionView {
            nodes: self.nodes@.map_values(|node: Node| node@),
            lists: self.lists@.map_values(|list: Vec<ExpressionPart>| list@),
            dicts: self.dicts@.map_values(|dict: Vec<PairPart>| dict@),
            records: self.records@.map_values(|record: Vec<FieldPart>| record@),
            plans: self.plans@,
            stamps: self.stamps@.map_values(|stamp: Vec<bool>| stamp@),
            objects: self.objects@.map_values(|stored: Stored| stored@),
        }
    }
}

impl RegionView {
    /// The parts of a node.
    pub open spec fn parts(self, expr: ExprId) -> Seq<Spanned> {
        if expr.at < self.nodes.len() {
            self.nodes[expr.at as int].parts
        } else {
            Seq::empty()
        }
    }

    /// What a node knows beside its parts.
    pub open spec fn meta(self, expr: ExprId) -> NodeMeta {
        if expr.at < self.nodes.len() {
            self.nodes[expr.at as int].meta
        } else {
            no_meta()
        }
    }

    /// The items of a list literal.
    pub open spec fn list(self, list: ListId) -> Seq<ExpressionPart> {
        if list.at < self.lists.len() {
            self.lists[list.at as int]
        } else {
            Seq::empty()
        }
    }

    /// The pairs of a dict literal.
    pub open spec fn dict(self, dict: DictId) -> Seq<PairPart> {
        if dict.at < self.dicts.len() {
            self.dicts[dict.at as int]
        } else {
            Seq::empty()
        }
    }

    /// The fields of a record literal.
    pub open spec fn record(self, record: RecordId) -> Seq<FieldPart> {
        if record.at < self.records.len() {
            self.records[record.at as int]
        } else {
            Seq::empty()
        }
    }

    /// An object.
    pub open spec fn object(self, object: ObjId) -> ObjectView {
        if object.at < self.objects.len() {
            self.objects[object.at as int].object
        } else {
            ObjectView::Null
        }
    }

    /// Whether an object borrows from the region of another value.
    pub open spec fn object_borrows(self, object: ObjId) -> bool {
        object.at < self.objects.len() && self.objects[object.at as int].borrows
    }

    /// Whether a carried value borrows; types never do.
    pub open spec fn borrows(self, carried: Carried) -> bool {
        match carried {
            Carried::Object(object) => self.object_borrows(object),
            _ => false,
        }
    }

    /// Whether the stamp of a node keeps a slot raw.
    pub open spec fn keeps_raw(self, meta: NodeMeta, slot: int) -> bool {
        match meta.raw {
            Some(stamp) => stamp.at < self.stamps.len() && slot < self.stamps[stamp.at as int].len()
                && self.stamps[stamp.at as int][slot],
            None => false,
        }
    }

    /// The declared-name slot of a binder form.
    pub open spec fn name_slot(self, expr: ExprId) -> Option<usize> {
        match self.meta(expr).plan {
            Some(plan) => if plan.at < self.plans.len() {
                self.plans[plan.at as int].name_slot
            } else {
                None
            },
            None => None,
        }
    }

    /// Whether every node lies in front of the nodes that hold it as a group: no expression is a
    /// group of itself, at any depth.
    pub open spec fn nested_in_order(self) -> bool {
        forall|i: int|
            0 <= i < self.nodes.len() ==> groups_below((#[trigger] self.nodes[i]).parts, i as nat)
    }

    /// The region with one more node.
    pub open spec fn with_node(self, parts: Seq<Spanned>, meta: NodeMeta) -> RegionView {
        RegionView { nodes: self.nodes.push(NodeView { parts, meta }), ..self }
    }

    /// The region with one more list literal.
    pub open spec fn with_list(self, items: Seq<ExpressionPart>) -> RegionView {
        RegionView { lists: self.lists.push(items), ..self }
    }

    /// The region with one more object.
    pub open spec fn with_object(self, object: ObjectView, borrows: bool) -> RegionView {
        RegionView { objects: self.objects.push(StoredView { object, borrows }), ..self }
    }

    /// The handle that the next node gets.
    pub open spec fn next_node(self) -> ExprId {
        ExprId { at: self.nodes.len() as usize }
    }

    /// The handle that the next object gets.
    pub open spec fn next_object(self) -> ObjId {
        ObjId { at: self.objects.len() as usize }
    }

    /// Whether everything that `earlier` holds is held here under the same handles.
    pub open spec fn extends(self, earlier: RegionView) -> bool {
        &&& earlier.nodes.is_prefix_of(self.nodes)
        &&& earlier.lists.is_prefix_of(self.lists)
        &&& earlier.dicts.is_prefix_of(self.dicts)
        &&& earlier.records.is_prefix_of(self.records)
        &&& earlier.plans.is_prefix_of(self.plans)
        &&& earlier.stamps.is_prefix_of(self.stamps)
        &&& earlier.objects.is_prefix_of(self.objects)
    }
}

/// Copies a run of slots.
pub fn copy_slots(parts: &Vec<Spanned>) -> (r: Vec<Spanned>)
    ensures
        r@ == parts@,
{
    let mut r: Vec<Spanned> = Vec::new();
    let mut i: usize = 0;
    while i < parts.len()
        invariant
            i <= parts.len(),
            r@ == parts@.take(i as int),
        decreases parts.len() - i,
    {
        r.push(parts[i]);
        assert(parts@.take(i as int + 1) =~= parts@.take(i as int).push(parts@[i as int]));
        i = i + 1;
    }
    assert(parts@.take(i as int) =~= parts@);
    r
}

impl Region {
    /// A region that holds nothing.
    pub fn new() -> (r: Region)
        ensures
            r@.nodes.len() == 0,
            r@.lists.len() == 0,
            r@.dicts.len() == 0,
            r@.records.len() == 0,
            r@.plans.len() == 0,
            r@.stamps.len() == 0,
            r@.objects.len() == 0,
            r@.nested_in_order(),
    {
        Region {
            nodes: Vec::new(),
            lists: Vec::new(),
            dicts: Vec::new(),
            records: Vec::new(),
            plans: Vec::new(),
            stamps: Vec::new(),
            objects: Vec::new(),
        }
    }

    /// Whether every node lies in front of the nodes that hold it as a group.
    pub fn is_nested_in_order(&self) -> (r: bool)
        ensures
            r == self@.nested_in_order(),
    {
        let mut i: usize = 0;
        while i < self.nodes.len()
            invariant
                i <= self.nodes.len(),
                forall|k: int|
                    0 <= k < i ==> groups_below((#[trigger] self@.nodes[k]).parts, k as nat),
            decreases self.nodes.len() - i,
        {
            assert(self@.nodes[i as int].parts == self.nodes@[i as int].parts@);
            if !holds_groups_below(&self.nodes[i].parts, i) {
                return false;
            }
            i = i + 1;
        }
        true
    }

    /// The parts of a node, copied out.
    pub fn parts_of(&self, expr: ExprId) -> (r: Vec<Spanned>)
        ensures
            r@ == self@.parts(expr),
    {
        if expr.at < self.nodes.len() {
            copy_slots(&self.nodes[expr.at].parts)
        } else {
            Vec::new()
        }
    }

    /// What a node knows beside its parts.
    pub fn meta_of(&self, expr: ExprId) -> (r: NodeMeta)
        ensures
            r == self@.meta(expr),
    {
        if expr.at < self.nodes.len() {
            self.nodes[expr.at].meta
        } else {
            NodeMeta { span: None, plan: None, raw: None }
        }
    }

    /// Whether the stamp of a node keeps a slot raw.
    pub fn stays_raw(&self, meta: NodeMeta, slot: usize) -> (r: bool)
        ensures
            r == self@.keeps_raw(meta, slot as int),
    {
        match meta.raw {
            Some(stamp) => if stamp.at < self.stamps.len() && slot < self.stamps[stamp.at].len() {
                self.stamps[stamp.at][slot]
            } else {
                false
            },
            None => false,
        }
    }

    /// The declared-name slot of a binder form.
    pub fn binder_name_slot(&self, expr: ExprId) -> (r: Option<usize>)
        ensures
            r == self@.name_slot(expr),
    {
        match self.meta_of(expr).plan {
            Some(plan) => if plan.at < self.plans.len() {
                self.plans[plan.at].name_slot
            } else {
                None
            },
            None => None,
        }
    }

    /// The items of a list literal, copied out.
    pub fn list_of(&self, list: ListId) -> (r: Vec<ExpressionPart>)
        ensures
            r@ == self@.list(list),
    {
        let mut r: Vec<ExpressionPart> = Vec::new();
        if list.at < self.lists.len() {
            let items = &self.lists[list.at];
            let mut i: usize = 0;
            while i < items.len()
                invariant
                    i <= items.len(),
                    r@ == items@.take(i as int),
                decreases items.len() - i,
            {
                r.push(items[i]);
                assert(items@.take(i as int + 1) =~= items@.take(i as int).push(items@[i as int]));
                i = i + 1;
            }
            assert(items@.take(i as int) =~= items@);
        }
        r
    }

    /// The pairs of a dict literal, copied out.
    pub fn dict_of(&self, dict: DictId) -> (r: Vec<PairPart>)
        ensures
            r@ == self@.dict(dict),
    {
        let mut r: Vec<PairPart> = Vec::new();
        if dict.at < self.dicts.len() {
            let items = &self.dicts[dict.at];
            let mut i: usize = 0;
            while i < items.len()
                invariant
                    i <= items.len(),
                    r@ == items@.take(i as int),
                decreases items.len() - i,
            {
                r.push(items[i]);
                assert(items@.take(i as int + 1) =~= items@.take(i as int).push(items@[i as int]));
                i = i + 1;
            }
            assert(items@.take(i as int) =~= items@);
        }
        r
    }

    /// The fields of a record literal, copied out.
    pub fn record_of(&self, record: RecordId) -> (r: Vec<FieldPart>)
        ensures
            r@ == self@.record(record),
    {
        let mut r: Vec<FieldPart> = Vec::new();
        if record.at < self.records.len() {
            let items = &self.records[record.at];
            let mut i: usize = 0;
            while i < items.len()
                invariant
                    i <= items.len(),
                    r@ == items@.take(i as int),
                decreases items.len() - i,
            {
                r.push(items[i]);
                assert(items@.take(i as int + 1) =~= items@.take(i as int).push(items@[i as int]));
                i = i + 1;
            }
            assert(items@.take(i as int) =~= items@);
        }
        r
    }

    /// An object, when the region holds it.
    pub fn object(&self, object: ObjId) -> (r: Option<&KObject>)
        ensures
            match r {
                Some(found) => found@ == self@.object(object) && object.at < self@.objects.len(),
                None => object.at >= self@.objects.len(),
            },
    {
        if object.at < self.objects.len() {
            Some(&self.objects[object.at].object)
        } else {
            None
        }
    }

    /// The type of an object.
    pub fn object_type(&self, object: ObjId) -> (r: crate::ktype::KType)
        ensures
            r == self@.object(object).ktype(),
    {
        match self.object(object) {
            Some(found) => found.ktype(),
            None => crate::ktype::KType::Null,
        }
    }

    /// Whether a carried value borrows from the region of another value.
    pub fn has_reach_members(&self, carried: Carried) -> (r: bool)
        ensures
            r == self@.borrows(carried),
    {
        match carried {
            Carried::Object(object) => object.at < self.objects.len()
                && self.objects[object.at].borrows,
            _ => false,
        }
    }

    /// Appends a node.
    pub fn add_node(&mut self, parts: Vec<Spanned>, meta: NodeMeta) -> (r: ExprId)
        ensures
            r == old(self)@.next_node(),
            r.at == old(self)@.nodes.len(),
            final(self)@ == old(self)@.with_node(parts@, meta),
            old(self)@.nested_in_order() && groups_below(parts@, old(self)@.nodes.len())
                ==> final(self)@.nested_in_order(),
    {
        let at: usize = self.nodes.len();
        let ghost earlier = self@;
        self.nodes.push(Node { parts, meta });
        assert(self@ =~= earlier.with_node(parts@, meta));
        ExprId { at }
    }

    /// Appends a node with a single part.
    pub fn add_lone(&mut self, part: Spanned, meta: NodeMeta) -> (r: ExprId)
        ensures
            r == old(self)@.next_node(),
            r.at == old(self)@.nodes.len(),
            final(self)@ == old(self)@.with_node(seq![part], meta),
            old(self)@.nested_in_order() && groups_below(seq![part], old(self)@.nodes.len())
                ==> final(self)@.nested_in_order(),
    {
        let mut parts: Vec<Spanned> = Vec::new();
        parts.push(part);
        assert(parts@ =~= seq![part]);
        self.add_node(parts, meta)
    }

    /// Appends the contents of a list literal.
    pub fn add_list(&mut self, items: Vec<ExpressionPart>) -> (r: ListId)
        ensures
            r.at == old(self)@.lists.len(),
            final(self)@ == old(self)@.with_list(items@),
    {
        let at: usize = self.lists.len();
        let ghost earlier = self@;
        self.lists.push(items);
        assert(self@ =~= earlier.with_list(items@));
        ListId { at }
    }

    /// Appends the contents of a dict literal.
    pub fn add_dict(&mut self, pairs: Vec<PairPart>) -> (r: DictId)
        ensures
            r.at == old(self)@.dicts.len(),
            final(self)@ == (RegionView {
                dicts: old(self)@.dicts.push(pairs@),
                ..old(self)@
            }),
    {
        let at: usize = self.dicts.len();
        let ghost earlier = self@;
        self.dicts.push(pairs);
        assert(self@ =~= (RegionView { dicts: earlier.dicts.push(pairs@), ..earlier }));
        DictId { at }
    }

    /// Appends the contents of a record literal.
    pub fn add_record(&mut self, fields: Vec<FieldPart>) -> (r: RecordId)
        ensures
            r.at == old(self)@.records.len(),
            final(self)@ == (RegionView {
                records: old(self)@.records.push(fields@),
                ..old(self)@
            }),
    {
        let at: usize = self.records.len();
        let ghost earlier = self@;
        self.records.push(fields);
        assert(self@ =~= (RegionView { records: earlier.records.push(fields@), ..earlier }));
        RecordId { at }
    }

    /// Appends a stamp.
    pub fn add_stamp(&mut self, stamp: Vec<bool>) -> (r: StampId)
        ensures
            r.at == old(self)@.stamps.len(),
            final(self)@ == (RegionView {
                stamps: old(self)@.stamps.push(stamp@),
                ..old(self)@
            }),
    {
        let at: usize = self.stamps.len();
        let ghost earlier = self@;
        self.stamps.push(stamp);
        assert(self@ =~= (RegionView { stamps: earlier.stamps.push(stamp@), ..earlier }));
        StampId { at }
    }

    /// Appends a binder plan.
    pub fn add_plan(&mut self, plan: BinderPlan) -> (r: PlanId)
        ensures
            r.at == old(self)@.plans.len(),
            final(self)@ == (RegionView { plans: old(self)@.plans.push(plan), ..old(self)@ }),
    {
        let at: usize = self.plans.len();
        let ghost earlier = self@;
        self.plans.push(plan);
        assert(self@ =~= (RegionView { plans: earlier.plans.push(plan), ..earlier }));
        PlanId { at }
    }

    /// Appends an object.
    pub fn add_object(&mut self, object: KObject, borrows: bool) -> (r: ObjId)
        ensures
            r == old(self)@.next_object(),
            r.at == old(self)@.objects.len(),
            final(self)@ == old(self)@.with_object(object@, borrows),
    {
        let at: usize = self.objects.len();
        let ghost earlier = self@;
        self.objects.push(Stored { object, borrows });
        assert(self@ =~= earlier.with_object(object@, borrows));
        ObjId { at }
    }
}

/// A region grows in order as long as a new node holds only groups that are already there. That is
/// all it can hold when every handle was given out by the region.
pub proof fn growing_keeps_the_nesting(earlier: RegionView, parts: Seq<Spanned>, meta: NodeMeta)
    requires
        earlier.nested_in_order(),
    ensures
        groups_below(parts, earlier.nodes.len()) <==> earlier.with_node(
            parts,
            meta,
        ).nested_in_order(),
{
    let grown = earlier.with_node(parts, meta);
    assert(grown.nodes[earlier.nodes.len() as int].parts == parts);
    assert(forall|i: int| 0 <= i < earlier.nodes.len() ==> grown.nodes[i] == earlier.nodes[i]);
}

/// Appending a node keeps the meaning of every handle the region already gave out.
pub proof fn growing_keeps_nodes(earlier: RegionView, parts: Seq<Spanned>, meta: NodeMeta, expr: ExprId)
    requires
        expr.at < earlier.nodes.len(),
    ensures
        earlier.with_node(parts, meta).parts(expr) == earlier.parts(expr),
        earlier.with_node(parts, meta).meta(expr) == earlier.meta(expr),
        earlier.with_node(parts, meta).extends(earlier),
{
}

} // verus!
