//! Staging: the parts of an expression that have to be evaluated before the expression itself.

use crate::ast::{bare, bare_slot, ExpressionPart, Spanned, WorkingPart};
use crate::outcome::{own_dispatch, DepPlacement, DepRequest};
use crate::region::{no_meta, NodeMeta, Region, RegionView};
use crate::value::ExprId;
use vstd::prelude::*;

verus! {

/// How an eager part is evaluated.
#[derive(Clone, Copy, PartialEq, Eq, Structural, Debug)]
pub enum EagerShape {
    /// `(…)`: the inner expression is dispatched.
    Subexpression,
    /// `:(…)` or `:{…}`: the whole part is dispatched, marker and all.
    TypeExpression,
    ListLiteral,
    DictLiteral,
    RecordLiteral,
}

/// How a part is evaluated before its expression; a part that is not eager has no shape.
pub open spec fn eager_shape_of(part: ExpressionPart) -> Option<EagerShape> {
    match part {
        ExpressionPart::Expression(_) => Some(EagerShape::Subexpression),
        ExpressionPart::SigiledTypeExpr(_) => Some(EagerShape::TypeExpression),
        ExpressionPart::RecordType(_) => Some(EagerShape::TypeExpression),
        ExpressionPart::ListLiteral(_) => Some(EagerShape::ListLiteral),
        ExpressionPart::DictLiteral(_) => Some(EagerShape::DictLiteral),
        ExpressionPart::RecordLiteral(_) => Some(EagerShape::RecordLiteral),
        _ => None,
    }
}

/// How a part is evaluated before its expression.
pub fn eager_shape(part: ExpressionPart) -> (r: Option<EagerShape>)
    ensures
        r == eager_shape_of(part),
{
    match part {
        ExpressionPart::Expression(_) => Some(EagerShape::Subexpression),
        ExpressionPart::SigiledTypeExpr(_) | ExpressionPart::RecordType(_) => Some(
            EagerShape::TypeExpression,
        ),
        ExpressionPart::ListLiteral(_) => Some(EagerShape::ListLiteral),
        ExpressionPart::DictLiteral(_) => Some(EagerShape::DictLiteral),
        ExpressionPart::RecordLiteral(_) => Some(EagerShape::RecordLiteral),
        _ => None,
    }
}

/// Whether a part is evaluated before its expression.
pub fn is_eager_part(part: ExpressionPart) -> (r: bool)
    ensures
        r == (eager_shape_of(part) is Some),
{
    eager_shape(part).is_some()
}

/// Whether a slot is evaluated before its expression. A node that dispatch built is; a resolved
/// value and a hole are already past that.
pub open spec fn is_eager_slot(part: WorkingPart) -> bool {
    match part {
        WorkingPart::Expression(_) => true,
        WorkingPart::RecordType(_) => true,
        WorkingPart::Ast(ast) => eager_shape_of(ast) is Some,
        WorkingPart::Spliced { .. } => false,
        WorkingPart::StagedSlot => false,
    }
}

/// Whether a slot is evaluated before its expression.
pub fn is_eager_working_part(part: WorkingPart) -> (r: bool)
    ensures
        r == is_eager_slot(part),
{
    match part {
        WorkingPart::Expression(_) => true,
        WorkingPart::RecordType(_) => true,
        WorkingPart::Ast(ast) => is_eager_part(ast),
        WorkingPart::Spliced { .. } | WorkingPart::StagedSlot => false,
    }
}

/// The work that evaluates a part, and the region with the node that the work needs.
pub open spec fn staged_part(region: RegionView, part: ExpressionPart) -> Option<
    (DepRequest, RegionView),
> {
    match part {
        ExpressionPart::Expression(inner) => Some((own_dispatch(inner), region)),
        ExpressionPart::SigiledTypeExpr(_) | ExpressionPart::RecordType(_) => Some(
            (
                own_dispatch(region.next_node()),
                region.with_node(seq![bare_slot(WorkingPart::Ast(part))], no_meta()),
            ),
        ),
        ExpressionPart::ListLiteral(items) => Some((DepRequest::ListLit(items), region)),
        ExpressionPart::DictLiteral(pairs) => Some((DepRequest::DictLit(pairs), region)),
        ExpressionPart::RecordLiteral(fields) => Some((DepRequest::RecordLit(fields), region)),
        _ => None,
    }
}

/// The work that evaluates a slot, and the region with the node that the work needs.
pub open spec fn staged_slot(region: RegionView, part: WorkingPart) -> Option<
    (DepRequest, RegionView),
> {
    match part {
        WorkingPart::Ast(ast) => staged_part(region, ast),
        WorkingPart::Expression(inner) => Some((own_dispatch(inner), region)),
        WorkingPart::RecordType(_) => Some(
            (
                own_dispatch(region.next_node()),
                region.with_node(seq![bare_slot(part)], no_meta()),
            ),
        ),
        _ => None,
    }
}

/// Turns an eager part into the work that evaluates it; any other part is handed back.
pub fn stage_eager_part(region: &mut Region, part: ExpressionPart) -> (r: Result<
    DepRequest,
    ExpressionPart,
>)
    ensures
        match r {
            Ok(request) => staged_part(old(region)@, part) == Some((request, final(region)@)),
            Err(same) => staged_part(old(region)@, part) is None && same == part && final(region)@
                == old(region)@,
        },
        r is Ok <==> eager_shape_of(part) is Some,
{
    match part {
        ExpressionPart::Expression(inner) => Ok(
            DepRequest::Dispatch { expr: inner, placement: DepPlacement::OwnScope },
        ),
        ExpressionPart::SigiledTypeExpr(_) | ExpressionPart::RecordType(_) => {
            let expr = region.add_lone(
                bare(WorkingPart::Ast(part)),
                NodeMeta { span: None, plan: None, raw: None },
            );
            Ok(DepRequest::Dispatch { expr, placement: DepPlacement::OwnScope })
        },
        ExpressionPart::ListLiteral(items) => Ok(DepRequest::ListLit(items)),
        ExpressionPart::DictLiteral(pairs) => Ok(DepRequest::DictLit(pairs)),
        ExpressionPart::RecordLiteral(fields) => Ok(DepRequest::RecordLit(fields)),
        _ => Err(part),
    }
}

/// Turns an eager slot into the work that evaluates it; any other slot is handed back.
pub fn stage_eager_working_part(region: &mut Region, part: WorkingPart) -> (r: Result<
    DepRequest,
    WorkingPart,
>)
    ensures
        match r {
            Ok(request) => staged_slot(old(region)@, part) == Some((request, final(region)@)),
            Err(same) => staged_slot(old(region)@, part) is None && same == part && final(region)@
                == old(region)@,
        },
        r is Ok <==> is_eager_slot(part),
{
    match part {
        WorkingPart::Ast(ast) => match stage_eager_part(region, ast) {
            Ok(request) => Ok(request),
            Err(_) => Err(part),
        },
        WorkingPart::Expression(inner) => Ok(
            DepRequest::Dispatch { expr: inner, placement: DepPlacement::OwnScope },
        ),
        WorkingPart::RecordType(_) => {
            let expr = region.add_lone(bare(part), NodeMeta { span: None, plan: None, raw: None });
            Ok(DepRequest::Dispatch { expr, placement: DepPlacement::OwnScope })
        },
        _ => Err(part),
    }
}

/// The hole that a staged slot leaves behind.
pub open spec fn hole() -> Spanned {
    bare_slot(WorkingPart::StagedSlot)
}

/// The hole that a staged slot leaves behind.
pub fn staged_slot_placeholder() -> (r: Spanned)
    ensures
        r == hole(),
{
    bare(WorkingPart::StagedSlot)
}

/// Work that fills slots: one request per slot.
pub struct StagedSubs {
    pub part_indices: Vec<usize>,
    pub requests: Vec<DepRequest>,
}

impl StagedSubs {
    /// Nothing staged.
    pub fn new() -> (r: StagedSubs)
        ensures
            r.part_indices@.len() == 0,
            r.requests@.len() == 0,
    {
        StagedSubs { part_indices: Vec::new(), requests: Vec::new() }
    }

    /// Stages one request for the slot that its result fills.
    pub fn push(&mut self, slot: usize, request: DepRequest)
        ensures
            final(self).part_indices@ == old(self).part_indices@.push(slot),
            final(self).requests@ == old(self).requests@.push(request),
    {
        self.part_indices.push(slot);
        self.requests.push(request);
    }

    /// Whether nothing is staged.
    pub fn is_empty(&self) -> (r: bool)
        ensures
            r == (self.requests@.len() == 0),
    {
        self.requests.len() == 0
    }

    /// The staged slots in ascending order.
    pub fn slots(&self) -> (r: &Vec<usize>)
        ensures
            r@ == self.part_indices@,
    {
        &self.part_indices
    }
}

/// A walk over the slots of an expression that has come some way.
pub struct WalkView {
    pub region: RegionView,
    pub slots: Seq<usize>,
    pub requests: Seq<DepRequest>,
}

/// What a node built from another one knows: where its source is.
pub open spec fn synthesized(meta: NodeMeta) -> NodeMeta {
    NodeMeta { span: meta.span, plan: None, raw: None }
}

/// What a node built from another one knows.
pub fn synthesized_meta(meta: NodeMeta) -> (r: NodeMeta)
    ensures
        r == synthesized(meta),
{
    NodeMeta { span: meta.span, plan: None, raw: None }
}

/// What the walk does at one slot: a name that the pick takes the value of becomes a one-part
/// dispatch, an eager slot becomes the work that evaluates it, and any other slot stays. A slot
/// that the node's stamp keeps raw stays too.
pub open spec fn walk_slot(
    region: RegionView,
    part: Spanned,
    wrapped: bool,
    raw: bool,
    meta: NodeMeta,
) -> Option<(DepRequest, RegionView)> {
    if wrapped {
        Some(
            (
                own_dispatch(region.next_node()),
                region.with_node(seq![part], synthesized(meta)),
            ),
        )
    } else if raw {
        None
    } else {
        staged_slot(region, part.value)
    }
}

/// The walk over the first `upto` slots.
pub open spec fn walk(
    region: RegionView,
    parts: Seq<Spanned>,
    meta: NodeMeta,
    wrap_indices: Seq<usize>,
    upto: nat,
) -> WalkView
    decreases upto,
{
    if upto == 0 {
        WalkView { region, slots: Seq::empty(), requests: Seq::empty() }
    } else {
        let at = (upto - 1) as int;
        let earlier = walk(region, parts, meta, wrap_indices, at as nat);
        match walk_slot(
            earlier.region,
            parts[at],
            wrap_indices.contains(at as usize),
            region.keeps_raw(meta, at),
            meta,
        ) {
            Some((request, after)) => WalkView {
                region: after,
                slots: earlier.slots.push(at as usize),
                requests: earlier.requests.push(request),
            },
            None => earlier,
        }
    }
}

/// A run of parts with a hole at every one of `slots`.
pub open spec fn with_holes(parts: Seq<Spanned>, slots: Seq<usize>) -> Seq<Spanned> {
    Seq::new(
        parts.len(),
        |i: int|
            if slots.contains(i as usize) {
                hole()
            } else {
                parts[i]
            },
    )
}

/// What a walk over an expression's slots came to.
pub enum PartWalk {
    /// Nothing was staged; the expression stands as it is.
    Unchanged,
    /// `expr` is the expression with a hole at every staged slot.
    Respliced { expr: ExprId, staged: StagedSubs },
}

/// Whether `items` holds `wanted`.
pub fn holds_index(items: &Vec<usize>, wanted: usize) -> (r: bool)
    ensures
        r == items@.contains(wanted),
{
    let mut i: usize = 0;
    while i < items.len()
        invariant
            i <= items.len(),
            forall|k: int| 0 <= k < i ==> items@[k] != wanted,
        decreases items.len() - i,
    {
        if items[i] == wanted {
            return true;
        }
        i = i + 1;
    }
    false
}

/// A run of parts with a hole at every one of `slots`.
fn punch_holes(parts: &Vec<Spanned>, slots: &Vec<usize>) -> (r: Vec<Spanned>)
    ensures
        r@ == with_holes(parts@, slots@),
{
    let mut r: Vec<Spanned> = Vec::new();
    let mut i: usize = 0;
    while i < parts.len()
        invariant
            i <= parts.len(),
            r@ == with_holes(parts@, slots@).take(i as int),
        decreases parts.len() - i,
    {
        let next = if holds_index(slots, i) {
            staged_slot_placeholder()
        } else {
            parts[i]
        };
        r.push(next);
        assert(with_holes(parts@, slots@).take(i as int + 1) =~= with_holes(parts@, slots@).take(
            i as int,
        ).push(next));
        i = i + 1;
    }
    assert(with_holes(parts@, slots@).take(i as int) =~= with_holes(parts@, slots@));
    r
}

/// Stages every slot of `origin` that is eager and not kept raw, and every slot that
/// `wrap_indices` names.
pub fn stage_all_eager_parts(region: &mut Region, origin: ExprId, wrap_indices: &Vec<usize>) -> (r:
    PartWalk)
    ensures
        ({
            let parts = old(region)@.parts(origin);
            let meta = old(region)@.meta(origin);
            let walked = walk(old(region)@, parts, meta, wrap_indices@, parts.len());
            match r {
                PartWalk::Unchanged => walked.slots.len() == 0 && final(region)@ == old(region)@,
                PartWalk::Respliced { expr, staged } => {
                    &&& walked.slots.len() > 0
                    &&& staged.part_indices@ == walked.slots
                    &&& staged.requests@ == walked.requests
                    &&& expr == walked.region.next_node()
                    &&& final(region)@ == walked.region.with_node(
                        with_holes(parts, walked.slots),
                        meta,
                    )
                },
            }
        }),
{
    let parts = region.parts_of(origin);
    let meta = region.meta_of(origin);
    let mut staged = StagedSubs::new();
    let mut i: usize = 0;
    let ghost before = region@;
    while i < parts.len()
        invariant
            i <= parts.len(),
            parts@ == before.parts(origin),
            meta == before.meta(origin),
            region@ == walk(before, parts@, meta, wrap_indices@, i as nat).region,
            staged.part_indices@ == walk(before, parts@, meta, wrap_indices@, i as nat).slots,
            staged.requests@ == walk(before, parts@, meta, wrap_indices@, i as nat).requests,
            staged.part_indices@.len() == staged.requests@.len(),
            staged.part_indices@.len() == 0 ==> region@ == before,
            region@.stamps == before.stamps,
        decreases parts.len() - i,
    {
        if holds_index(wrap_indices, i) {
            let wrapped = region.add_lone(parts[i], synthesized_meta(meta));
            staged.push(
                i,
                DepRequest::Dispatch { expr: wrapped, placement: DepPlacement::OwnScope },
            );
        } else if !region.stays_raw(meta, i) {
            match stage_eager_working_part(region, parts[i].value) {
                Ok(request) => {
                    staged.push(i, request);
                },
                Err(_) => {},
            }
        }
        i = i + 1;
    }
    if staged.is_empty() {
        return PartWalk::Unchanged;
    }
    let run = punch_holes(&parts, staged.slots());
    let expr = region.add_node(run, meta);
    PartWalk::Respliced { expr, staged }
}

/// A walk stages one request per slot, in ascending slot order, and exactly the slots that are
/// named, or eager and not kept raw.
pub proof fn walk_stages_exactly_the_open_slots(
    region: RegionView,
    parts: Seq<Spanned>,
    meta: NodeMeta,
    wrap_indices: Seq<usize>,
    upto: nat,
)
    requires
        upto <= parts.len() <= usize::MAX,
    ensures
        ({
            let walked = walk(region, parts, meta, wrap_indices, upto);
            &&& walked.slots.len() == walked.requests.len()
            &&& forall|i: int, j: int|
                0 <= i < j < walked.slots.len() ==> walked.slots[i] < walked.slots[j]
            &&& forall|i: int|
                0 <= i < upto ==> (walked.slots.contains(i as usize) <==> (wrap_indices.contains(
                    i as usize,
                ) || is_eager_slot(#[trigger] parts[i].value) && !region.keeps_raw(meta, i)))
            &&& forall|k: int| 0 <= k < walked.slots.len() ==> walked.slots[k] < upto
        }),
    decreases upto,
{
    if upto > 0 {
        let at = (upto - 1) as int;
        walk_stages_exactly_the_open_slots(region, parts, meta, wrap_indices, at as nat);
        let earlier = walk(region, parts, meta, wrap_indices, at as nat);
        let walked = walk(region, parts, meta, wrap_indices, upto);
        assert forall|i: int| 0 <= i < upto implies (walked.slots.contains(i as usize) <==> (
        wrap_indices.contains(i as usize) || is_eager_slot(#[trigger] parts[i].value)
            && !region.keeps_raw(meta, i))) by {
            let step = walk_slot(
                earlier.region,
                parts[at],
                wrap_indices.contains(at as usize),
                region.keeps_raw(meta, at),
                meta,
            );
            if step is Some {
                assert(walked.slots == earlier.slots.push(at as usize));
                assert(walked.slots[earlier.slots.len() as int] == at as usize);
                if i < at {
                    if earlier.slots.contains(i as usize) {
                        let k = choose|k: int|
                            0 <= k < earlier.slots.len() && earlier.slots[k] == i as usize;
                        assert(walked.slots[k] == i as usize);
                    }
                    if walked.slots.contains(i as usize) {
                        let k = choose|k: int|
                            0 <= k < walked.slots.len() && walked.slots[k] == i as usize;
                        assert(k < earlier.slots.len());
                        assert(earlier.slots[k] == i as usize);
                    }
                }
            } else if i == at {
                assert(!earlier.slots.contains(at as usize));
            }
        }
    }
}

/// A hole stands exactly at the staged slots; every other slot is untouched.
pub proof fn holes_stand_at_staged_slots(parts: Seq<Spanned>, slots: Seq<usize>, i: int)
    requires
        0 <= i < parts.len(),
    ensures
        with_holes(parts, slots).len() == parts.len(),
        slots.contains(i as usize) ==> with_holes(parts, slots)[i] == hole(),
        !slots.contains(i as usize) ==> with_holes(parts, slots)[i] == parts[i],
{
}

} // verus!
