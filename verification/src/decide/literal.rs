//! List, dict and record literals: every cell is settled on the spot or waited for, and the
//! aggregate is assembled once all of them have landed.

use super::constructors::{any_borrows, paired, run_borrows};
use super::exec::{literal_object, to_kobject};
use super::resolve::{resolution_of, resolve_name, Resolution, TypeLeafChannels};
use super::staging::{stage_eager_part, staged_part};
use super::DecideCtx;
use crate::ast::{bare, bare_slot, ExpressionPart, WorkingPart};
use crate::error::{
    raised, ErrorKindView, ErrorView, FrameLabel, KError, KErrorKind, Message, MessageView,
    Subject, TraceFrame,
};
use crate::ktype::{KType, TypeRegistry};
use crate::outcome::{own_dispatch, Dep, DepPlacement, DepRequest};
use crate::region::{no_meta, FieldPart, NodeMeta, PairPart, Region, RegionView};
use crate::run::{run_items, storable, CellRun};
use crate::symbol::Symbol;
use crate::text::owned;
use crate::value::{Carried, Entry, KKey, KObject, ObjId, ObjectView};
use vstd::prelude::*;

verus! {

/// One cell of a literal: settled, or the next result that lands. Cells and dependencies are walked
/// in one order, so a cell that waits needs no index.
#[derive(Clone, Copy, PartialEq, Eq, Structural, Debug)]
pub enum Slot {
    Static(Carried),
    Dep,
}

/// One row of a literal; only the rows of a dict have a key.
#[derive(Clone, Copy, PartialEq, Eq, Structural, Debug)]
pub struct AggRow {
    pub key: Option<Slot>,
    pub value: Slot,
}

/// A literal whose cells are planned.
pub struct Aggregate {
    pub deps: Vec<Dep>,
    pub rows: Vec<AggRow>,
}

/// A planning that has come some way.
pub struct PlanView {
    pub region: RegionView,
    pub deps: Seq<Dep>,
    pub rows: Seq<AggRow>,
}

/// What a part that names no producer resolves to as it stands: a literal is its value, a keyword
/// its spelling.
pub open spec fn pure_object(part: ExpressionPart) -> ObjectView {
    match part {
        ExpressionPart::Literal(literal) => literal_object(literal),
        ExpressionPart::Keyword(symbol) => ObjectView::Str(symbol),
        _ => ObjectView::Null,
    }
}

/// What a part that names no producer resolves to as it stands.
pub fn resolve_region_pure(part: ExpressionPart) -> (r: KObject)
    ensures
        r@ == pure_object(part),
{
    match part {
        ExpressionPart::Literal(literal) => to_kobject(literal),
        ExpressionPart::Keyword(symbol) => KObject::Str(symbol),
        _ => KObject::Null,
    }
}

/// A cell whose part is dispatched on its own.
pub open spec fn dispatched_cell(region: RegionView, deps: Seq<Dep>, part: ExpressionPart) -> (
    Slot,
    RegionView,
    Seq<Dep>,
) {
    (
        Slot::Dep,
        region.with_node(seq![bare_slot(WorkingPart::Ast(part))], no_meta()),
        deps.push(Dep::Request(own_dispatch(region.next_node()))),
    )
}

/// How the cell of a bare name is filled: a value that has landed fills it, a binder under way is
/// waited for, and an unbound name is dispatched so that it fails as a lone name does.
pub open spec fn named_cell(
    ctx: &DecideCtx,
    types: &TypeRegistry,
    region: RegionView,
    deps: Seq<Dep>,
    part: ExpressionPart,
) -> (Slot, RegionView, Seq<Dep>) {
    match resolution_of(types, ctx.scope.levels@, part, ctx.chain, TypeLeafChannels::TypeChannel) {
        Resolution::Resolved(cell) => (Slot::Static(cell), region, deps),
        Resolution::Parked(source) => (Slot::Dep, region, deps.push(Dep::Producer(source))),
        Resolution::Unbound(_) => dispatched_cell(region, deps, part),
    }
}

/// How a cell is filled.
pub open spec fn planned_cell(
    ctx: &DecideCtx,
    types: &TypeRegistry,
    region: RegionView,
    deps: Seq<Dep>,
    part: ExpressionPart,
) -> (Slot, RegionView, Seq<Dep>) {
    match staged_part(region, part) {
        Some((request, grown)) => (Slot::Dep, grown, deps.push(Dep::Request(request))),
        None => match part {
            ExpressionPart::QuotedExpression(_) => dispatched_cell(region, deps, part),
            ExpressionPart::Identifier(_) => named_cell(ctx, types, region, deps, part),
            ExpressionPart::Type(_) => named_cell(ctx, types, region, deps, part),
            _ => (
                Slot::Static(Carried::Object(region.next_object())),
                region.with_object(pure_object(part), false),
                deps,
            ),
        },
    }
}

/// Dispatches the part of a cell on its own.
fn dispatch_cell(region: &mut Region, deps: &mut Vec<Dep>, part: ExpressionPart) -> (r: Slot)
    ensures
        (r, final(region)@, final(deps)@) == dispatched_cell(old(region)@, old(deps)@, part),
{
    let expr = region.add_lone(bare(WorkingPart::Ast(part)), NodeMeta { span: None, plan: None, raw: None });
    deps.push(Dep::Request(DepRequest::Dispatch { expr, placement: DepPlacement::OwnScope }));
    Slot::Dep
}

/// Plans the cell of a bare name.
pub fn resolve_aggregate_bare_name(
    ctx: &DecideCtx,
    types: &TypeRegistry,
    region: &mut Region,
    part: ExpressionPart,
    deps: &mut Vec<Dep>,
) -> (r: Slot)
    requires
        part is Identifier || part is Type,
    ensures
        (r, final(region)@, final(deps)@) == named_cell(
            ctx,
            types,
            old(region)@,
            old(deps)@,
            part,
        ),
{
    match resolve_name(ctx.scope, part, ctx.chain, types, TypeLeafChannels::TypeChannel) {
        Resolution::Resolved(cell) => Slot::Static(cell),
        Resolution::Parked(source) => {
            deps.push(Dep::Producer(source));
            Slot::Dep
        },
        Resolution::Unbound(_) => dispatch_cell(region, deps, part),
    }
}

/// Plans one cell of a literal.
pub fn classify_aggregate_part(
    ctx: &DecideCtx,
    types: &TypeRegistry,
    region: &mut Region,
    part: ExpressionPart,
    deps: &mut Vec<Dep>,
) -> (r: Slot)
    ensures
        (r, final(region)@, final(deps)@) == planned_cell(
            ctx,
            types,
            old(region)@,
            old(deps)@,
            part,
        ),
{
    match stage_eager_part(region, part) {
        Ok(request) => {
            deps.push(Dep::Request(request));
            return Slot::Dep;
        },
        Err(_) => {},
    }
    match part {
        ExpressionPart::QuotedExpression(_) => dispatch_cell(region, deps, part),
        ExpressionPart::Identifier(_) | ExpressionPart::Type(_) => resolve_aggregate_bare_name(
            ctx,
            types,
            region,
            part,
            deps,
        ),
        _ => {
            let object = region.add_object(resolve_region_pure(part), false);
            Slot::Static(Carried::Object(object))
        },
    }
}

/// The plan of the first items of a list.
pub open spec fn planned_list(
    ctx: &DecideCtx,
    types: &TypeRegistry,
    region: RegionView,
    items: Seq<ExpressionPart>,
) -> PlanView
    decreases items.len(),
{
    if items.len() == 0 {
        PlanView { region, deps: Seq::empty(), rows: Seq::empty() }
    } else {
        let earlier = planned_list(ctx, types, region, items.drop_last());
        let (value, grown, deps) = planned_cell(
            ctx,
            types,
            earlier.region,
            earlier.deps,
            items.last(),
        );
        PlanView { region: grown, deps, rows: earlier.rows.push(AggRow { key: None, value }) }
    }
}

/// Plans a list literal.
pub fn schedule_list_literal(
    ctx: &DecideCtx,
    types: &TypeRegistry,
    region: &mut Region,
    items: &Vec<ExpressionPart>,
) -> (r: Aggregate)
    ensures
        ({
            let all = planned_list(ctx, types, old(region)@, items@);
            r.deps@ == all.deps && r.rows@ == all.rows && final(region)@ == all.region
        }),
{
    let ghost before = region@;
    let mut deps: Vec<Dep> = Vec::new();
    let mut rows: Vec<AggRow> = Vec::new();
    let mut i: usize = 0;
    proof {
        assert(items@.take(0) =~= Seq::<ExpressionPart>::empty());
    }
    while i < items.len()
        invariant
            i <= items.len(),
            region@ == planned_list(ctx, types, before, items@.take(i as int)).region,
            deps@ == planned_list(ctx, types, before, items@.take(i as int)).deps,
            rows@ == planned_list(ctx, types, before, items@.take(i as int)).rows,
        decreases items.len() - i,
    {
        proof {
            assert(items@.take(i as int + 1).drop_last() =~= items@.take(i as int));
        }
        let value = classify_aggregate_part(ctx, types, region, items[i], &mut deps);
        rows.push(AggRow { key: None, value });
        i = i + 1;
    }
    assert(items@.take(i as int) =~= items@);
    Aggregate { deps, rows }
}

/// The plan of the first pairs of a dict; a key is planned before its value.
pub open spec fn planned_dict(
    ctx: &DecideCtx,
    types: &TypeRegistry,
    region: RegionView,
    pairs: Seq<PairPart>,
) -> PlanView
    decreases pairs.len(),
{
    if pairs.len() == 0 {
        PlanView { region, deps: Seq::empty(), rows: Seq::empty() }
    } else {
        let earlier = planned_dict(ctx, types, region, pairs.drop_last());
        let (key, keyed, first) = planned_cell(
            ctx,
            types,
            earlier.region,
            earlier.deps,
            pairs.last().key,
        );
        let (value, grown, deps) = planned_cell(ctx, types, keyed, first, pairs.last().value);
        PlanView { region: grown, deps, rows: earlier.rows.push(AggRow { key: Some(key), value }) }
    }
}

/// Plans a dict literal.
pub fn schedule_dict_literal(
    ctx: &DecideCtx,
    types: &TypeRegistry,
    region: &mut Region,
    pairs: &Vec<PairPart>,
) -> (r: Aggregate)
    ensures
        ({
            let all = planned_dict(ctx, types, old(region)@, pairs@);
            r.deps@ == all.deps && r.rows@ == all.rows && final(region)@ == all.region
        }),
{
    let ghost before = region@;
    let mut deps: Vec<Dep> = Vec::new();
    let mut rows: Vec<AggRow> = Vec::new();
    let mut i: usize = 0;
    proof {
        assert(pairs@.take(0) =~= Seq::<PairPart>::empty());
    }
    while i < pairs.len()
        invariant
            i <= pairs.len(),
            region@ == planned_dict(ctx, types, before, pairs@.take(i as int)).region,
            deps@ == planned_dict(ctx, types, before, pairs@.take(i as int)).deps,
            rows@ == planned_dict(ctx, types, before, pairs@.take(i as int)).rows,
        decreases pairs.len() - i,
    {
        proof {
            assert(pairs@.take(i as int + 1).drop_last() =~= pairs@.take(i as int));
        }
        let key = classify_aggregate_part(ctx, types, region, pairs[i].key, &mut deps);
        let value = classify_aggregate_part(ctx, types, region, pairs[i].value, &mut deps);
        rows.push(AggRow { key: Some(key), value });
        i = i + 1;
    }
    assert(pairs@.take(i as int) =~= pairs@);
    Aggregate { deps, rows }
}

/// The values of a record literal, in order.
pub open spec fn field_values(fields: Seq<FieldPart>) -> Seq<ExpressionPart> {
    fields.map_values(|field: FieldPart| field.value)
}

/// Plans a record literal: its values are planned as the items of a list are, its names stand as
/// they are.
pub fn schedule_record_literal(
    ctx: &DecideCtx,
    types: &TypeRegistry,
    region: &mut Region,
    fields: &Vec<FieldPart>,
) -> (r: Aggregate)
    ensures
        ({
            let all = planned_list(ctx, types, old(region)@, field_values(fields@));
            r.deps@ == all.deps && r.rows@ == all.rows && final(region)@ == all.region
        }),
{
    let mut values: Vec<ExpressionPart> = Vec::new();
    let mut i: usize = 0;
    let ghost all = field_values(fields@);
    while i < fields.len()
        invariant
            i <= fields.len(),
            all == field_values(fields@),
            values@ == all.take(i as int),
        decreases fields.len() - i,
    {
        values.push(fields[i].value);
        assert(all.take(i as int + 1) =~= all.take(i as int).push(all[i as int]));
        i = i + 1;
    }
    assert(all.take(i as int) =~= all);
    schedule_list_literal(ctx, types, region, &values)
}

/// The results of a literal's dependencies, taken in order.
pub struct ResultFeed<'a> {
    pub results: &'a Vec<Carried>,
    pub next: usize,
}

impl<'a> ResultFeed<'a> {
    /// A feed that starts with the first result.
    pub fn new(results: &'a Vec<Carried>) -> (r: ResultFeed<'a>)
        ensures
            r.results@ == results@,
            r.next == 0,
    {
        ResultFeed { results, next: 0 }
    }

    /// The next result.
    pub fn pop(&mut self) -> (r: Carried)
        requires
            old(self).next < old(self).results@.len(),
        ensures
            r == old(self).results@[old(self).next as int],
            final(self).results@ == old(self).results@,
            final(self).next == old(self).next + 1,
    {
        let r = self.results[self.next];
        assert(self.next < self.results.len());
        self.next = self.next + 1;
        r
    }
}

/// How many results a cell takes.
pub open spec fn takes(slot: Slot) -> nat {
    if slot is Dep {
        1
    } else {
        0
    }
}

/// How many results a row takes.
pub open spec fn row_takes(row: AggRow) -> nat {
    takes(row.value) + match row.key {
        Some(key) => takes(key),
        None => 0,
    }
}

/// How many results the rows take together.
pub open spec fn rows_take(rows: Seq<AggRow>) -> nat
    decreases rows.len(),
{
    if rows.len() == 0 {
        0
    } else {
        rows_take(rows.drop_last()) + row_takes(rows.last())
    }
}

/// The value of a cell, when the next result is the one at `next`.
pub open spec fn cell_value(slot: Slot, results: Seq<Carried>, next: nat) -> Carried {
    match slot {
        Slot::Static(carried) => carried,
        Slot::Dep => results[next as int],
    }
}

/// The value of a cell.
pub fn cell_carrier(slot: Slot, feed: &mut ResultFeed) -> (r: Carried)
    requires
        old(feed).next + takes(slot) <= old(feed).results@.len(),
    ensures
        r == cell_value(slot, old(feed).results@, old(feed).next as nat),
        final(feed).results@ == old(feed).results@,
        final(feed).next == old(feed).next + takes(slot),
{
    match slot {
        Slot::Static(carried) => carried,
        Slot::Dep => feed.pop(),
    }
}

/// Why a type is no dict key.
pub const TYPE_KEY: &'static str = "dict key must be a value, not a type";

/// Why a value that borrows is no dict key.
pub const BORROWING_KEY: &'static str =
    "dict key must be owned data, but its value borrows a region";

/// The text in front of a value that is no scalar and stands as a dict key.
pub const COMPOUND_KEY: &'static str = "dict key must be a string, a number or a bool, got ";

/// The key that a value stands for: only strings, numbers and bools are keys.
pub open spec fn carried_key(region: RegionView, carried: Carried) -> Result<KKey, ErrorKindView> {
    match carried {
        Carried::Object(object) => match region.object(object) {
            ObjectView::Str(text) => Ok(KKey::String(text)),
            ObjectView::Number(bits) => Ok(KKey::Number(bits)),
            ObjectView::Bool(b) => Ok(KKey::Bool(b)),
            _ => Err(
                ErrorKindView::ShapeError(
                    MessageView::Showing {
                        before: COMPOUND_KEY@,
                        shown: Subject::Value(carried),
                        after: ""@,
                    },
                ),
            ),
        },
        _ => Err(ErrorKindView::shape_error(TYPE_KEY@)),
    }
}

/// The key that a value stands for.
pub fn key_from_carried(region: &Region, carried: Carried) -> (r: Result<KKey, KErrorKind>)
    ensures
        match r {
            Ok(key) => carried_key(region@, carried) == Ok::<KKey, ErrorKindView>(key),
            Err(kind) => carried_key(region@, carried) == Err::<KKey, ErrorKindView>(kind@),
        },
{
    match carried {
        Carried::Object(object) => {
            if let Some(found) = region.object(object) {
                match found {
                    KObject::Str(text) => {
                        return Ok(KKey::String(*text));
                    },
                    KObject::Number(bits) => {
                        return Ok(KKey::Number(*bits));
                    },
                    KObject::Bool(b) => {
                        return Ok(KKey::Bool(*b));
                    },
                    _ => {},
                }
            }
            Err(
                KErrorKind::ShapeError(
                    Message::Showing {
                        before: owned(COMPOUND_KEY),
                        shown: Subject::Value(carried),
                        after: owned(""),
                    },
                ),
            )
        },
        _ => Err(KErrorKind::shape_error(owned(TYPE_KEY))),
    }
}

/// The key of a row: a value that borrows is refused whatever it is.
pub open spec fn scalar_key_of(region: RegionView, carried: Carried) -> Result<KKey, ErrorView> {
    if region.borrows(carried) {
        Err(dict_error(ErrorKindView::shape_error(BORROWING_KEY@)))
    } else {
        match carried_key(region, carried) {
            Ok(key) => Ok(key),
            Err(kind) => Err(dict_error(kind)),
        }
    }
}

/// The frame of a dict literal.
pub open spec fn dict_frame() -> TraceFrame {
    TraceFrame { label: FrameLabel::Dict, expr: None }
}

/// An error of a dict literal.
pub open spec fn dict_error(kind: ErrorKindView) -> ErrorView {
    raised(kind).framed(dict_frame())
}

/// The key of a row.
pub fn scalar_key(region: &Region, carried: Carried) -> (r: Result<KKey, KError>)
    ensures
        match r {
            Ok(key) => scalar_key_of(region@, carried) == Ok::<KKey, ErrorView>(key),
            Err(e) => scalar_key_of(region@, carried) == Err::<KKey, ErrorView>(e@),
        },
{
    let frame = TraceFrame { label: FrameLabel::Dict, expr: None };
    if region.has_reach_members(carried) {
        return Err(KError::new(KErrorKind::shape_error(owned(BORROWING_KEY))).with_frame(frame));
    }
    match key_from_carried(region, carried) {
        Ok(key) => Ok(key),
        Err(kind) => Err(KError::new(kind).with_frame(frame)),
    }
}

/// The rows of a literal with its results in place.
pub struct FilledView {
    pub keys: Seq<KKey>,
    pub cells: Seq<Carried>,
    pub error: Option<ErrorView>,
}

/// Puts the results into a run of rows; the first row with a bad key ends it.
pub open spec fn filled_rows(region: RegionView, rows: Seq<AggRow>, results: Seq<Carried>) -> FilledView
    decreases rows.len(),
{
    if rows.len() == 0 {
        FilledView { keys: Seq::empty(), cells: Seq::empty(), error: None }
    } else {
        let earlier = filled_rows(region, rows.drop_last(), results);
        let row = rows.last();
        let next = rows_take(rows.drop_last());
        if earlier.error is Some {
            earlier
        } else {
            match row.key {
                None => FilledView {
                    cells: earlier.cells.push(cell_value(row.value, results, next)),
                    ..earlier
                },
                Some(slot) => match scalar_key_of(region, cell_value(slot, results, next)) {
                    Err(e) => FilledView { error: Some(e), ..earlier },
                    Ok(key) => FilledView {
                        keys: earlier.keys.push(key),
                        cells: earlier.cells.push(
                            cell_value(row.value, results, next + takes(slot)),
                        ),
                        error: None,
                    },
                },
            }
        }
    }
}

proof fn bad_key_ends_filling(region: RegionView, rows: Seq<AggRow>, results: Seq<Carried>, upto: int)
    requires
        0 <= upto <= rows.len(),
        filled_rows(region, rows.take(upto), results).error is Some,
    ensures
        filled_rows(region, rows, results) == filled_rows(region, rows.take(upto), results),
    decreases rows.len() - upto,
{
    if upto == rows.len() {
        assert(rows.take(upto) =~= rows);
    } else {
        assert(rows.drop_last().take(upto) =~= rows.take(upto));
        bad_key_ends_filling(region, rows.drop_last(), results, upto);
    }
}

proof fn rows_take_grows(rows: Seq<AggRow>, upto: int)
    requires
        0 <= upto <= rows.len(),
    ensures
        rows_take(rows.take(upto)) <= rows_take(rows),
    decreases rows.len() - upto,
{
    if upto == rows.len() {
        assert(rows.take(upto) =~= rows);
    } else {
        assert(rows.drop_last().take(upto) =~= rows.take(upto));
        rows_take_grows(rows.drop_last(), upto);
    }
}

/// Puts the results into the rows of a literal: the keys and the cells, in order.
pub fn fill_rows(region: &Region, rows: &Vec<AggRow>, results: &Vec<Carried>) -> (r: Result<
    (Vec<KKey>, Vec<Carried>),
    KError,
>)
    requires
        rows_take(rows@) <= results@.len(),
    ensures
        ({
            let all = filled_rows(region@, rows@, results@);
            match r {
                Ok((keys, cells)) => all.error is None && keys@ == all.keys && cells@ == all.cells,
                Err(e) => all.error == Some(e@),
            }
        }),
{
    let mut keys: Vec<KKey> = Vec::new();
    let mut cells: Vec<Carried> = Vec::new();
    let mut feed = ResultFeed::new(results);
    let mut i: usize = 0;
    proof {
        assert(rows@.take(0) =~= Seq::<AggRow>::empty());
    }
    while i < rows.len()
        invariant
            i <= rows.len(),
            rows_take(rows@) <= results@.len(),
            feed.results@ == results@,
            feed.next == rows_take(rows@.take(i as int)),
            filled_rows(region@, rows@.take(i as int), results@).error is None,
            keys@ == filled_rows(region@, rows@.take(i as int), results@).keys,
            cells@ == filled_rows(region@, rows@.take(i as int), results@).cells,
        decreases rows.len() - i,
    {
        proof {
            assert(rows@.take(i as int + 1).drop_last() =~= rows@.take(i as int));
            rows_take_grows(rows@, i as int + 1);
        }
        let row = rows[i];
        if let Some(slot) = row.key {
            let carried = cell_carrier(slot, &mut feed);
            match scalar_key(region, carried) {
                Ok(key) => {
                    keys.push(key);
                },
                Err(e) => {
                    proof {
                        bad_key_ends_filling(region@, rows@, results@, i as int + 1);
                    }
                    return Err(e);
                },
            }
        }
        cells.push(cell_carrier(row.value, &mut feed));
        i = i + 1;
    }
    assert(rows@.take(i as int) =~= rows@);
    Ok((keys, cells))
}

/// What the cells of a literal are assembled into.
pub enum Assembly {
    List,
    Dict,
    /// A record with these field names.
    Record(Vec<Symbol>),
}

/// The content of an [`Assembly`].
pub enum AssemblyView {
    List,
    Dict,
    Record(Seq<Symbol>),
}

impl View for Assembly {
    type V = AssemblyView;

    open spec fn view(&self) -> AssemblyView {
        match *self {
            Assembly::List => AssemblyView::List,
            Assembly::Dict => AssemblyView::Dict,
            Assembly::Record(names) => AssemblyView::Record(names@),
        }
    }
}

/// `entries` with `key` bound to `value`: a key that is there already keeps its place and takes the
/// new value.
pub open spec fn with_entry(entries: Seq<Entry>, key: KKey, value: Carried) -> Seq<Entry>
    decreases entries.len(),
{
    if entries.len() == 0 {
        seq![Entry { key, value }]
    } else if entries.last().key == key {
        entries.drop_last().push(Entry { key, value })
    } else if has_key(entries.drop_last(), key) {
        with_entry(entries.drop_last(), key, value).push(entries.last())
    } else {
        entries.push(Entry { key, value })
    }
}

/// Whether a key is bound.
pub open spec fn has_key(entries: Seq<Entry>, key: KKey) -> bool {
    exists|i: int| 0 <= i < entries.len() && (#[trigger] entries[i]).key == key
}

/// The entries of a dict with the given keys and values; of two values under one key the later one
/// stays.
pub open spec fn entries_of(keys: Seq<KKey>, cells: Seq<Carried>, upto: nat) -> Seq<Entry>
    decreases upto,
{
    if upto == 0 {
        Seq::empty()
    } else {
        let at = (upto - 1) as int;
        with_entry(entries_of(keys, cells, at as nat), keys[at], cells[at])
    }
}

/// Whether no key occurs twice.
pub open spec fn distinct_keys(entries: Seq<Entry>) -> bool {
    forall|i: int, j: int|
        0 <= i < j < entries.len() ==> (#[trigger] entries[i]).key != (#[trigger] entries[j]).key
}

/// Binding a key keeps the others as they are.
proof fn with_entry_at(entries: Seq<Entry>, key: KKey, value: Carried)
    requires
        distinct_keys(entries),
    ensures
        ({
            let bound = with_entry(entries, key, value);
            &&& distinct_keys(bound)
            &&& has_key(entries, key) ==> bound.len() == entries.len() && forall|i: int|
                0 <= i < entries.len() ==> (#[trigger] bound[i]) == if entries[i].key == key {
                    Entry { key, value }
                } else {
                    entries[i]
                }
            &&& !has_key(entries, key) ==> bound == entries.push(Entry { key, value })
        }),
    decreases entries.len(),
{
    if entries.len() > 0 {
        let rest = entries.drop_last();
        with_entry_at(rest, key, value);
        let bound = with_entry(entries, key, value);
        if entries.last().key == key {
            assert(entries[entries.len() - 1].key == key);
        } else if has_key(rest, key) {
            let k = choose|k: int| 0 <= k < rest.len() && (#[trigger] rest[k]).key == key;
            assert(entries[k].key == key);
            assert forall|i: int, j: int| 0 <= i < j < bound.len() implies (#[trigger] bound[i]).key
                != (#[trigger] bound[j]).key by {
                assert(entries[i].key != entries[j].key);
            }
        } else {
            if has_key(entries, key) {
                let k = choose|k: int|
                    0 <= k < entries.len() && (#[trigger] entries[k]).key == key;
                assert(rest[k].key == key);
            }
            assert(bound =~= entries.push(Entry { key, value }));
        }
    } else {
        assert(entries =~= Seq::<Entry>::empty());
        assert(seq![Entry { key, value }] =~= entries.push(Entry { key, value }));
    }
}

/// Binds a key.
fn put_entry(entries: &mut Vec<Entry>, key: KKey, value: Carried)
    requires
        distinct_keys(old(entries)@),
    ensures
        final(entries)@ == with_entry(old(entries)@, key, value),
        distinct_keys(final(entries)@),
{
    let ghost before = entries@;
    proof {
        with_entry_at(before, key, value);
    }
    let mut i: usize = 0;
    while i < entries.len()
        invariant
            i <= entries.len(),
            entries@ == before,
            distinct_keys(before),
            before == old(entries)@,
            forall|k: int| 0 <= k < i ==> (#[trigger] before[k]).key != key,
        decreases entries.len() - i,
    {
        if entries[i].key == key {
            entries.set(i, Entry { key, value });
            proof {
                assert(before[i as int].key == key);
                with_entry_at(before, key, value);
                assert forall|k: int| 0 <= k < before.len() implies entries@[k] == with_entry(
                    before,
                    key,
                    value,
                )[k] by {
                    if k != i {
                        assert(before[k].key != key);
                    }
                }
                assert(entries@ =~= with_entry(before, key, value));
            }
            return;
        }
        i = i + 1;
    }
    entries.push(Entry { key, value });
    proof {
        assert(!has_key(before, key));
        with_entry_at(before, key, value);
    }
}

/// The entries of a dict with the given keys and values.
fn collect_entries(keys: &Vec<KKey>, run: &CellRun) -> (r: Vec<Entry>)
    requires
        keys@.len() == run_items(*run).len(),
    ensures
        r@ == entries_of(keys@, run_items(*run), keys@.len()),
{
    let mut r: Vec<Entry> = Vec::new();
    let mut i: usize = 0;
    while i < keys.len()
        invariant
            i <= keys.len(),
            keys@.len() == run_items(*run).len(),
            distinct_keys(r@),
            r@ == entries_of(keys@, run_items(*run), i as nat),
        decreases keys.len() - i,
    {
        put_entry(&mut r, keys[i], run.at(i));
        i = i + 1;
    }
    r
}

/// The aggregate that cells make up, under the type `own`.
pub open spec fn assembled(
    assembly: AssemblyView,
    keys: Seq<KKey>,
    cells: Seq<Carried>,
    own: KType,
) -> ObjectView {
    match assembly {
        AssemblyView::List => ObjectView::List { items: cells, ktype: own },
        AssemblyView::Dict => ObjectView::Dict {
            entries: entries_of(keys, cells, keys.len()),
            ktype: own,
        },
        AssemblyView::Record(names) => ObjectView::Record {
            fields: paired(names, cells),
            ktype: own,
        },
    }
}

/// Copies a run of values out.
fn run_values(run: &CellRun) -> (r: Vec<Carried>)
    ensures
        r@ == run_items(*run),
{
    let mut r: Vec<Carried> = Vec::new();
    let count: usize = run.count();
    let mut i: usize = 0;
    while i < count
        invariant
            i <= count,
            count == run_items(*run).len(),
            r@ == run_items(*run).take(i as int),
        decreases count - i,
    {
        r.push(run.at(i));
        assert(run_items(*run).take(i as int + 1) =~= run_items(*run).take(i as int).push(
            run_items(*run)[i as int],
        ));
        i = i + 1;
    }
    assert(run_items(*run).take(i as int) =~= run_items(*run));
    r
}

/// Whether the rows fit what they are assembled into: every row of a dict has a key and no other
/// row has, a record has a name for every row, and every waiting cell has its result.
pub open spec fn assemblable(
    assembly: AssemblyView,
    rows: Seq<AggRow>,
    results: Seq<Carried>,
) -> bool {
    &&& rows_take(rows) <= results.len()
    &&& storable(rows.len())
    &&& forall|i: int|
        0 <= i < rows.len() ==> ((#[trigger] rows[i]).key is Some <==> assembly is Dict)
    &&& assembly matches AssemblyView::Record(names) ==> names.len() == rows.len()
}

/// What a literal comes to once its cells have landed.
pub open spec fn aggregate_landed(
    region: RegionView,
    assembly: AssemblyView,
    rows: Seq<AggRow>,
    results: Seq<Carried>,
    own: KType,
) -> (Result<Carried, ErrorView>, RegionView) {
    let filled = filled_rows(region, rows, results);
    match filled.error {
        Some(e) => (Err(e), region),
        None => (
            Ok(Carried::Object(region.next_object())),
            region.with_object(
                assembled(assembly, filled.keys, filled.cells, own),
                any_borrows(region, filled.cells),
            ),
        ),
    }
}

proof fn filled_lengths(region: RegionView, rows: Seq<AggRow>, results: Seq<Carried>, keyed: bool)
    requires
        forall|i: int| 0 <= i < rows.len() ==> ((#[trigger] rows[i]).key is Some <==> keyed),
        filled_rows(region, rows, results).error is None,
    ensures
        filled_rows(region, rows, results).cells.len() == rows.len(),
        filled_rows(region, rows, results).keys.len() == if keyed {
            rows.len()
        } else {
            0
        },
    decreases rows.len(),
{
    if rows.len() > 0 {
        assert(rows[rows.len() - 1].key is Some <==> keyed);
        assert forall|i: int| 0 <= i < rows.drop_last().len() implies ((
        #[trigger] rows.drop_last()[i]).key is Some <==> keyed) by {
            assert(rows.drop_last()[i] == rows[i]);
        }
        filled_lengths(region, rows.drop_last(), results, keyed);
    }
}

/// Assembles an aggregate out of its keys and cells. `own` is the type that it carries.
pub fn assemble(
    region: &mut Region,
    assembly: &Assembly,
    keys: &Vec<KKey>,
    cells: &Vec<Carried>,
    own: KType,
) -> (r: ObjId)
    requires
        storable(cells@.len()),
        assembly@ is Dict ==> keys@.len() == cells@.len(),
        assembly@ matches AssemblyView::Record(names) ==> names.len() == cells@.len(),
    ensures
        r == old(region)@.next_object(),
        final(region)@ == old(region)@.with_object(
            assembled(assembly@, keys@, cells@, own),
            any_borrows(old(region)@, cells@),
        ),
{
    let borrows = run_borrows(region, cells);
    let run = CellRun::gather(cells);
    let object = match assembly {
        Assembly::List => KObject::List { items: run_values(&run), ktype: own },
        Assembly::Dict => KObject::Dict { entries: collect_entries(keys, &run), ktype: own },
        Assembly::Record(names) => KObject::Record {
            fields: super::constructors::pair_cells(names, &run),
            ktype: own,
        },
    };
    region.add_object(object, borrows)
}

/// Assembles a literal whose cells have landed. A bad key is refused before anything is built.
/// `own` is the type that the aggregate carries.
pub fn finish_aggregate(
    region: &mut Region,
    assembly: &Assembly,
    rows: &Vec<AggRow>,
    results: &Vec<Carried>,
    own: KType,
) -> (r: Result<Carried, KError>)
    requires
        assemblable(assembly@, rows@, results@),
    ensures
        (crate::outcome::result_view(r), final(region)@) == aggregate_landed(
            old(region)@,
            assembly@,
            rows@,
            results@,
            own,
        ),
{
    match fill_rows(region, rows, results) {
        Ok((keys, cells)) => {
            proof {
                filled_lengths(region@, rows@, results@, assembly@ is Dict);
            }
            let built = assemble(region, assembly, &keys, &cells, own);
            Ok(Carried::Object(built))
        },
        Err(e) => Err(e),
    }
}

/// The plan of a list takes exactly one result per dependency.
pub proof fn list_plans_take_what_they_wait_for(
    ctx: &DecideCtx,
    types: &TypeRegistry,
    region: RegionView,
    items: Seq<ExpressionPart>,
)
    ensures
        ({
            let all = planned_list(ctx, types, region, items);
            rows_take(all.rows) == all.deps.len() && all.rows.len() == items.len()
        }),
    decreases items.len(),
{
    if items.len() > 0 {
        list_plans_take_what_they_wait_for(ctx, types, region, items.drop_last());
        let earlier = planned_list(ctx, types, region, items.drop_last());
        let all = planned_list(ctx, types, region, items);
        assert(all.rows.drop_last() =~= earlier.rows);
    }
}

/// The plan of a dict takes exactly one result per dependency.
pub proof fn dict_plans_take_what_they_wait_for(
    ctx: &DecideCtx,
    types: &TypeRegistry,
    region: RegionView,
    pairs: Seq<PairPart>,
)
    ensures
        ({
            let all = planned_dict(ctx, types, region, pairs);
            rows_take(all.rows) == all.deps.len() && all.rows.len() == pairs.len()
        }),
    decreases pairs.len(),
{
    if pairs.len() > 0 {
        dict_plans_take_what_they_wait_for(ctx, types, region, pairs.drop_last());
        let earlier = planned_dict(ctx, types, region, pairs.drop_last());
        let all = planned_dict(ctx, types, region, pairs);
        assert(all.rows.drop_last() =~= earlier.rows);
    }
}

/// No key of a dict literal occurs twice.
pub proof fn dict_keys_are_distinct(keys: Seq<KKey>, cells: Seq<Carried>, upto: nat)
    ensures
        distinct_keys(entries_of(keys, cells, upto)),
    decreases upto,
{
    if upto > 0 {
        let at = (upto - 1) as nat;
        dict_keys_are_distinct(keys, cells, at);
        with_entry_at(entries_of(keys, cells, at), keys[at as int], cells[at as int]);
    }
}

} // verus!
