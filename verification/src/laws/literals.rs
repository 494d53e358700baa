//! Laws of aggregate literals: every item of a literal ends up in its own place of the value, be it
//! known at once, found by its name or evaluated first.

use crate::ast::{ExpressionPart, KLiteral, WorkingPart};
use crate::decide::literal::{
    aggregate_landed, entries_of, filled_rows, planned_cell, planned_dict, planned_list, rows_take,
    scalar_key_of, with_entry, AggRow, AssemblyView, Slot,
};
use crate::decide::resolve::Resolution;
use crate::decide::DecideCtx;
use crate::error::ErrorView;
use crate::ktype::{KType, TypeRegistry};
use crate::laws::types::sealed;
use crate::outcome::{Dep, DepPlacement, DepRequest};
use crate::region::{PairPart, RegionView};
use crate::scope::{value_in, NameLookup};
use crate::symbol::Symbol;
use crate::value::{Carried, Entry, KKey, ObjectView};
use vstd::prelude::*;

verus! {

/// Whether a dependency evaluates an expression made of this part alone.
pub open spec fn evaluates_alone(region: RegionView, part: ExpressionPart, dep: Dep) -> bool {
    dep matches Dep::Request(
        DepRequest::Dispatch { expr, placement: DepPlacement::OwnScope },
    ) && expr.at < region.nodes.len() && region.parts(expr).len() == 1
        && region.parts(expr)[0].value == WorkingPart::Ast(part)
}

/// Whether a name that resolves as `found` is taken at once, waited for, or evaluated where it is
/// unbound.
pub open spec fn follows(
    region: RegionView,
    part: ExpressionPart,
    found: Resolution,
    slot: Slot,
    dep: Dep,
) -> bool {
    match found {
        Resolution::Resolved(cell) => slot == Slot::Static(cell),
        Resolution::Parked(source) => slot is Dep && dep == Dep::Producer(source),
        Resolution::Unbound(_) => slot is Dep && evaluates_alone(region, part, dep),
    }
}

/// Whether a part of a literal is planned for what it is: a name for what it means, a scalar for its
/// object, and anything else for the work that evaluates it. `dep` is the dependency that a slot
/// waits for where it waits.
pub open spec fn plans_part(
    ctx: &DecideCtx,
    types: &TypeRegistry,
    region: RegionView,
    part: ExpressionPart,
    slot: Slot,
    dep: Dep,
) -> bool {
    match part {
        ExpressionPart::Identifier(name) => follows(
            region,
            part,
            match value_in(ctx.scope.levels@, name, ctx.chain) {
                Some(NameLookup::Bound(cell)) => Resolution::Resolved(cell),
                Some(NameLookup::Parked(source)) => Resolution::Parked(source),
                None => Resolution::Unbound(name),
            },
            slot,
            dep,
        ),
        ExpressionPart::Type(name) => follows(
            region,
            part,
            sealed(types, ctx.scope.levels@, name, ctx.chain),
            slot,
            dep,
        ),
        ExpressionPart::Literal(literal) => slot matches Slot::Static(Carried::Object(id)) && id.at
            < region.objects.len() && region.object(id) == match literal {
            KLiteral::Number(bits) => ObjectView::Number(bits),
            KLiteral::Str(text) => ObjectView::Str(text),
            KLiteral::Bool(b) => ObjectView::Bool(b),
            KLiteral::Null => ObjectView::Null,
        },
        ExpressionPart::Keyword(symbol) => slot matches Slot::Static(Carried::Object(id)) && id.at
            < region.objects.len() && region.object(id) == ObjectView::Str(symbol),
        ExpressionPart::Expression(inner) => slot is Dep && dep == Dep::Request(
            DepRequest::Dispatch { expr: inner, placement: DepPlacement::OwnScope },
        ),
        ExpressionPart::ListLiteral(list) => slot is Dep && dep == Dep::Request(
            DepRequest::ListLit(list),
        ),
        ExpressionPart::DictLiteral(dict) => slot is Dep && dep == Dep::Request(
            DepRequest::DictLit(dict),
        ),
        ExpressionPart::RecordLiteral(record) => slot is Dep && dep == Dep::Request(
            DepRequest::RecordLit(record),
        ),
        ExpressionPart::QuotedExpression(_) | ExpressionPart::SigiledTypeExpr(
            _,
        ) | ExpressionPart::RecordType(_) => slot is Dep && evaluates_alone(region, part, dep),
    }
}

/// Whether everything that `before` holds is held by `after` under the same handles.
pub open spec fn keeps(before: RegionView, after: RegionView) -> bool {
    &&& before.nodes.len() <= after.nodes.len()
    &&& before.objects.len() <= after.objects.len()
    &&& forall|i: int| 0 <= i < before.nodes.len() ==> #[trigger] after.nodes[i] == before.nodes[i]
    &&& forall|i: int|
        0 <= i < before.objects.len() ==> #[trigger] after.objects[i] == before.objects[i]
}

proof fn plan_stays(
    ctx: &DecideCtx,
    types: &TypeRegistry,
    before: RegionView,
    after: RegionView,
    part: ExpressionPart,
    slot: Slot,
    dep: Dep,
)
    requires
        plans_part(ctx, types, before, part, slot, dep),
        keeps(before, after),
    ensures
        plans_part(ctx, types, after, part, slot, dep),
{
    if let Slot::Static(Carried::Object(id)) = slot {
        if id.at < before.objects.len() {
            assert(after.objects[id.at as int] == before.objects[id.at as int]);
        }
    }
    if let Dep::Request(DepRequest::Dispatch { expr, .. }) = dep {
        if expr.at < before.nodes.len() {
            assert(after.nodes[expr.at as int] == before.nodes[expr.at as int]);
        }
    }
}

proof fn part_is_planned(
    ctx: &DecideCtx,
    types: &TypeRegistry,
    region: RegionView,
    deps: Seq<Dep>,
    part: ExpressionPart,
)
    requires
        region.nodes.len() < usize::MAX,
        region.objects.len() < usize::MAX,
    ensures
        ({
            let (slot, grown, after) = planned_cell(ctx, types, region, deps, part);
            &&& keeps(region, grown)
            &&& grown.nodes.len() <= region.nodes.len() + 1
            &&& grown.objects.len() <= region.objects.len() + 1
            &&& slot is Dep ==> after.len() == deps.len() + 1
            &&& slot is Static ==> after.len() == deps.len()
            &&& forall|i: int| 0 <= i < deps.len() ==> #[trigger] after[i] == deps[i]
            &&& plans_part(ctx, types, grown, part, slot, after[deps.len() as int])
        }),
{
}

/// How many results the first `i` rows of a plan take.
pub open spec fn taken_before(rows: Seq<AggRow>, i: int) -> int
    decreases i,
{
    if i <= 0 {
        0
    } else {
        taken_before(rows, i - 1) + (if rows[i - 1].key == Some(Slot::Dep) {
            1int
        } else {
            0
        }) + (if rows[i - 1].value is Dep {
            1int
        } else {
            0
        })
    }
}

proof fn taken_is_counted(rows: Seq<AggRow>, i: int)
    requires
        0 <= i <= rows.len(),
    ensures
        taken_before(rows, i) == rows_take(rows.take(i)),
    decreases i,
{
    if i > 0 {
        taken_is_counted(rows, i - 1);
        assert(rows.take(i).drop_last() =~= rows.take(i - 1));
    }
}

proof fn taken_ignores_later(rows: Seq<AggRow>, more: Seq<AggRow>, i: int)
    requires
        0 <= i <= rows.len() <= more.len(),
        forall|j: int| 0 <= j < rows.len() ==> #[trigger] more[j] == rows[j],
    ensures
        taken_before(rows, i) == taken_before(more, i),
    decreases i,
{
    if i > 0 {
        taken_ignores_later(rows, more, i - 1);
        assert(more[i - 1] == rows[i - 1]);
    }
}

/// The plan of a list has one row per item, in order, each planned for its own item and waiting for
/// its own dependency.
pub proof fn lists_plan_each_item_in_its_place(
    ctx: &DecideCtx,
    types: &TypeRegistry,
    region: RegionView,
    items: Seq<ExpressionPart>,
)
    requires
        region.nodes.len() + items.len() <= usize::MAX,
        region.objects.len() + items.len() <= usize::MAX,
    ensures
        ({
            let plan = planned_list(ctx, types, region, items);
            &&& keeps(region, plan.region)
            &&& plan.region.nodes.len() <= region.nodes.len() + items.len()
            &&& plan.region.objects.len() <= region.objects.len() + items.len()
            &&& plan.rows.len() == items.len()
            &&& plan.deps.len() == taken_before(plan.rows, items.len() as int)
            &&& forall|i: int|
                0 <= i < items.len() ==> (#[trigger] plan.rows[i]).key is None && plans_part(
                    ctx,
                    types,
                    plan.region,
                    items[i],
                    plan.rows[i].value,
                    plan.deps[taken_before(plan.rows, i)],
                ) && 0 <= taken_before(plan.rows, i) <= plan.deps.len()
        }),
    decreases items.len(),
{
    if items.len() > 0 {
        let rest = items.drop_last();
        lists_plan_each_item_in_its_place(ctx, types, region, rest);
        let earlier = planned_list(ctx, types, region, rest);
        let plan = planned_list(ctx, types, region, items);
        part_is_planned(ctx, types, earlier.region, earlier.deps, items.last());
        let last = items.len() - 1;
        taken_ignores_later(earlier.rows, plan.rows, last);
        assert forall|i: int| 0 <= i < items.len() implies (#[trigger] plan.rows[i]).key is None
            && plans_part(
            ctx,
            types,
            plan.region,
            items[i],
            plan.rows[i].value,
            plan.deps[taken_before(plan.rows, i)],
        ) && 0 <= taken_before(plan.rows, i) <= plan.deps.len() by {
            if i < last {
                assert(plan.rows[i] == earlier.rows[i]);
                assert(items[i] == rest[i]);
                taken_ignores_later(earlier.rows, plan.rows, i);
                let at = taken_before(earlier.rows, i);
                plan_stays(
                    ctx,
                    types,
                    earlier.region,
                    plan.region,
                    items[i],
                    earlier.rows[i].value,
                    earlier.deps[at],
                );
                if at < earlier.deps.len() {
                    assert(plan.deps[at] == earlier.deps[at]);
                } else {
                    static_takes_nothing(earlier.rows, i);
                    assert(plan.rows[i].value is Static);
                    static_plan_ignores_dep(
                        ctx,
                        types,
                        plan.region,
                        items[i],
                        plan.rows[i].value,
                        earlier.deps[at],
                        plan.deps[at],
                    );
                }
            }
        }
    }
}

proof fn static_plan_ignores_dep(
    ctx: &DecideCtx,
    types: &TypeRegistry,
    region: RegionView,
    part: ExpressionPart,
    slot: Slot,
    dep: Dep,
    other: Dep,
)
    requires
        plans_part(ctx, types, region, part, slot, dep),
        slot is Static,
    ensures
        plans_part(ctx, types, region, part, slot, other),
{
}

proof fn static_takes_nothing(rows: Seq<AggRow>, i: int)
    requires
        0 <= i < rows.len(),
    ensures
        taken_before(rows, i) + (if rows[i].value is Dep {
            1int
        } else {
            0
        }) <= taken_before(rows, rows.len() as int),
    decreases rows.len() - i,
{
    taken_grows(rows, i + 1, rows.len() as int);
}

proof fn taken_grows(rows: Seq<AggRow>, i: int, j: int)
    requires
        0 <= i <= j,
    ensures
        0 <= taken_before(rows, i) <= taken_before(rows, j),
    decreases j,
{
    if j > 0 {
        if i < j {
            taken_grows(rows, i, j - 1);
        } else {
            taken_grows(rows, i - 1, j - 1);
        }
    }
}

/// The plan of a dict has one row per pair, in order; of each the key is planned before the value.
pub proof fn dicts_plan_each_pair_in_its_place(
    ctx: &DecideCtx,
    types: &TypeRegistry,
    region: RegionView,
    pairs: Seq<PairPart>,
)
    requires
        region.nodes.len() + 2 * pairs.len() <= usize::MAX,
        region.objects.len() + 2 * pairs.len() <= usize::MAX,
    ensures
        ({
            let plan = planned_dict(ctx, types, region, pairs);
            &&& keeps(region, plan.region)
            &&& plan.region.nodes.len() <= region.nodes.len() + 2 * pairs.len()
            &&& plan.region.objects.len() <= region.objects.len() + 2 * pairs.len()
            &&& plan.rows.len() == pairs.len()
            &&& plan.deps.len() == taken_before(plan.rows, pairs.len() as int)
            &&& forall|i: int|
                0 <= i < pairs.len() ==> {
                    let row = #[trigger] plan.rows[i];
                    let at = taken_before(plan.rows, i);
                    &&& row.key is Some
                    &&& plans_part(
                        ctx,
                        types,
                        plan.region,
                        pairs[i].key,
                        row.key->0,
                        plan.deps[at],
                    )
                    &&& plans_part(
                        ctx,
                        types,
                        plan.region,
                        pairs[i].value,
                        row.value,
                        plan.deps[if row.key->0 is Dep {
                            at + 1
                        } else {
                            at
                        }],
                    )
                }
        }),
    decreases pairs.len(),
{
    if pairs.len() > 0 {
        let rest = pairs.drop_last();
        dicts_plan_each_pair_in_its_place(ctx, types, region, rest);
        let earlier = planned_dict(ctx, types, region, rest);
        let plan = planned_dict(ctx, types, region, pairs);
        part_is_planned(ctx, types, earlier.region, earlier.deps, pairs.last().key);
        let (key, keyed, first) = planned_cell(
            ctx,
            types,
            earlier.region,
            earlier.deps,
            pairs.last().key,
        );
        part_is_planned(ctx, types, keyed, first, pairs.last().value);
        let last = pairs.len() - 1;
        taken_ignores_later(earlier.rows, plan.rows, last);
        assert(keeps(region, plan.region));
        assert forall|i: int| 0 <= i < pairs.len() implies ({
            let row = #[trigger] plan.rows[i];
            let at = taken_before(plan.rows, i);
            &&& row.key is Some
            &&& plans_part(ctx, types, plan.region, pairs[i].key, row.key->0, plan.deps[at])
            &&& plans_part(
                ctx,
                types,
                plan.region,
                pairs[i].value,
                row.value,
                plan.deps[if row.key->0 is Dep {
                    at + 1
                } else {
                    at
                }],
            )
        }) by {
            let at = taken_before(plan.rows, i);
            if i < last {
                assert(plan.rows[i] == earlier.rows[i]);
                assert(pairs[i] == rest[i]);
                taken_ignores_later(earlier.rows, plan.rows, i);
                taken_grows(earlier.rows, i, earlier.rows.len() as int);
                taken_grows(earlier.rows, i + 1, earlier.rows.len() as int);
                let row = earlier.rows[i];
                let next = if row.key->0 is Dep {
                    at + 1
                } else {
                    at
                };
                plan_stays(
                    ctx,
                    types,
                    earlier.region,
                    plan.region,
                    pairs[i].key,
                    row.key->0,
                    earlier.deps[at],
                );
                plan_stays(
                    ctx,
                    types,
                    earlier.region,
                    plan.region,
                    pairs[i].value,
                    row.value,
                    earlier.deps[next],
                );
                if row.key->0 is Dep {
                    assert(first[at] == earlier.deps[at]);
                    assert(plan.deps[at] == first[at]);
                } else {
                    static_plan_ignores_dep(
                        ctx,
                        types,
                        plan.region,
                        pairs[i].key,
                        row.key->0,
                        earlier.deps[at],
                        plan.deps[at],
                    );
                }
                if row.value is Dep {
                    assert(first[next] == earlier.deps[next]);
                    assert(plan.deps[next] == first[next]);
                } else {
                    static_plan_ignores_dep(
                        ctx,
                        types,
                        plan.region,
                        pairs[i].value,
                        row.value,
                        earlier.deps[next],
                        plan.deps[next],
                    );
                }
            } else {
                plan_stays(
                    ctx,
                    types,
                    keyed,
                    plan.region,
                    pairs[i].key,
                    key,
                    first[earlier.deps.len() as int],
                );
                if key is Dep {
                    assert(plan.deps[at] == first[at]);
                } else {
                    static_plan_ignores_dep(
                        ctx,
                        types,
                        plan.region,
                        pairs[i].key,
                        key,
                        first[earlier.deps.len() as int],
                        plan.deps[at],
                    );
                }
            }
        }
    }
}

/// What a slot holds once the results are in: what was known at once, or the result at its place.
pub open spec fn landed(slot: Slot, results: Seq<Carried>, at: int) -> Carried {
    match slot {
        Slot::Static(cell) => cell,
        Slot::Dep => results[at],
    }
}

/// The place of the result that the value of row `i` takes.
pub open spec fn value_at(rows: Seq<AggRow>, i: int) -> int {
    taken_before(rows, i) + if rows[i].key == Some(Slot::Dep) {
        1int
    } else {
        0
    }
}

proof fn rows_are_filled(region: RegionView, rows: Seq<AggRow>, results: Seq<Carried>)
    ensures
        ({
            let filled = filled_rows(region, rows, results);
            &&& filled.error is None ==> filled.cells.len() == rows.len()
            &&& filled.error is None ==> forall|i: int|
                0 <= i < rows.len() ==> #[trigger] filled.cells[i] == landed(
                    rows[i].value,
                    results,
                    value_at(rows, i),
                )
            &&& filled.error is None && (forall|i: int|
                0 <= i < rows.len() ==> (#[trigger] rows[i]).key is Some) ==> filled.keys.len()
                == rows.len() && forall|i: int|
                0 <= i < rows.len() ==> scalar_key_of(
                    region,
                    landed(rows[i].key->0, results, taken_before(rows, i)),
                ) == Ok::<KKey, ErrorView>(#[trigger] filled.keys[i])
            &&& filled.error matches Some(error) ==> exists|i: int|
                {
                    &&& 0 <= i < rows.len()
                    &&& (#[trigger] rows[i]).key is Some
                    &&& scalar_key_of(
                        region,
                        landed(rows[i].key->0, results, taken_before(rows, i)),
                    ) == Err::<KKey, ErrorView>(error)
                }
        }),
    decreases rows.len(),
{
    if rows.len() > 0 {
        let rest = rows.drop_last();
        let last = rows.len() - 1;
        rows_are_filled(region, rest, results);
        let earlier = filled_rows(region, rest, results);
        let filled = filled_rows(region, rows, results);
        taken_is_counted(rows, last);
        assert(rows.take(last) =~= rest);
        assert forall|i: int| 0 <= i < last implies taken_before(rest, i) == taken_before(
            rows,
            i,
        ) by {
            taken_ignores_later(rest, rows, i);
        }
        if earlier.error is Some {
            let i = choose|i: int|
                {
                    &&& 0 <= i < rest.len()
                    &&& (#[trigger] rest[i]).key is Some
                    &&& scalar_key_of(
                        region,
                        landed(rest[i].key->0, results, taken_before(rest, i)),
                    ) == Err::<KKey, ErrorView>(earlier.error->0)
                };
            assert(rows[i] == rest[i]);
            taken_ignores_later(rest, rows, i);
        } else if filled.error is Some {
            assert(rows[last].key is Some);
        } else {
            assert forall|i: int| 0 <= i < rows.len() implies #[trigger] filled.cells[i] == landed(
                rows[i].value,
                results,
                value_at(rows, i),
            ) by {
                if i < last {
                    assert(filled.cells[i] == earlier.cells[i]);
                    assert(rows[i] == rest[i]);
                    taken_ignores_later(rest, rows, i);
                }
            }
            if forall|i: int| 0 <= i < rows.len() ==> (#[trigger] rows[i]).key is Some {
                assert forall|i: int| 0 <= i < rest.len() implies (#[trigger] rest[i]).key
                    is Some by {
                    assert(rows[i] == rest[i]);
                }
                assert(rows[last].key is Some);
                assert forall|i: int| 0 <= i < rows.len() implies scalar_key_of(
                    region,
                    landed(rows[i].key->0, results, taken_before(rows, i)),
                ) == Ok::<KKey, ErrorView>(#[trigger] filled.keys[i]) by {
                    if i < last {
                        assert(filled.keys[i] == earlier.keys[i]);
                        assert(rows[i] == rest[i]);
                        taken_ignores_later(rest, rows, i);
                    }
                }
            }
        }
    }
}

/// Whether `carried` is the object that was stored last, and nothing before it changed.
pub open spec fn stored_last(before: RegionView, after: RegionView, carried: Carried) -> bool {
    carried matches Carried::Object(id) && id.at == before.objects.len() && keeps(before, after)
        && after.objects.len() == before.objects.len() + 1
}

/// A landed list holds, at the place of each row, what that row came to.
pub proof fn lists_hold_each_item_in_its_place(
    region: RegionView,
    rows: Seq<AggRow>,
    results: Seq<Carried>,
    own: KType,
)
    requires
        region.objects.len() < usize::MAX,
        forall|i: int| 0 <= i < rows.len() ==> (#[trigger] rows[i]).key is None,
    ensures
        ({
            let (result, after) = aggregate_landed(
                region,
                AssemblyView::List,
                rows,
                results,
                own,
            );
            &&& result is Ok
            &&& stored_last(region, after, result->Ok_0)
            &&& after.object(result->Ok_0->Object_0) matches ObjectView::List { items, ktype }
                && ktype == own && items.len() == rows.len() && forall|i: int|
                0 <= i < rows.len() ==> #[trigger] items[i] == landed(
                    rows[i].value,
                    results,
                    taken_before(rows, i),
                )
        }),
{
    rows_are_filled(region, rows, results);
}

/// A landed record holds, under the name at the place of each row, what that row came to.
pub proof fn records_hold_each_field_under_its_name(
    region: RegionView,
    names: Seq<Symbol>,
    rows: Seq<AggRow>,
    results: Seq<Carried>,
    own: KType,
)
    requires
        region.objects.len() < usize::MAX,
        names.len() == rows.len(),
        forall|i: int| 0 <= i < rows.len() ==> (#[trigger] rows[i]).key is None,
    ensures
        ({
            let (result, after) = aggregate_landed(
                region,
                AssemblyView::Record(names),
                rows,
                results,
                own,
            );
            &&& result is Ok
            &&& stored_last(region, after, result->Ok_0)
            &&& after.object(result->Ok_0->Object_0) matches ObjectView::Record { fields, ktype }
                && ktype == own && fields.len() == rows.len() && forall|i: int|
                0 <= i < rows.len() ==> (#[trigger] fields[i]).name == names[i] && fields[i].value
                    == landed(rows[i].value, results, taken_before(rows, i))
        }),
{
    rows_are_filled(region, rows, results);
}

/// Whether `entries` hold exactly one entry per distinct key among the first `upto`, with the value
/// that stands with that key last.
pub open spec fn maps_keys_to_last(
    entries: Seq<Entry>,
    keys: Seq<KKey>,
    cells: Seq<Carried>,
    upto: nat,
) -> bool {
    &&& forall|a: int, b: int|
        0 <= a < b < entries.len() ==> (#[trigger] entries[a]).key != (#[trigger] entries[b]).key
    &&& forall|e: int|
        0 <= e < entries.len() ==> #[trigger] holds_last(entries[e], keys, cells, upto)
    &&& forall|i: int| 0 <= i < upto ==> #[trigger] has_entry(entries, keys[i])
}

/// Whether an entry holds the value that stands with its key last among the first `upto`.
pub open spec fn holds_last(
    entry: Entry,
    keys: Seq<KKey>,
    cells: Seq<Carried>,
    upto: nat,
) -> bool {
    exists|i: int| #[trigger]
        is_last_with_key(keys, upto, i, entry.key) && entry.value == cells[i]
}

/// Whether some entry is under `key`.
pub open spec fn has_entry(entries: Seq<Entry>, key: KKey) -> bool {
    exists|e: int| 0 <= e < entries.len() && (#[trigger] entries[e]).key == key
}

/// Whether place `i` is the last of the first `upto` that holds `key`.
pub open spec fn is_last_with_key(keys: Seq<KKey>, upto: nat, i: int, key: KKey) -> bool {
    &&& 0 <= i < upto
    &&& keys[i] == key
    &&& forall|j: int| i < j < upto ==> #[trigger] keys[j] != key
}

proof fn entry_is_put(entries: Seq<Entry>, key: KKey, value: Carried)
    requires
        forall|a: int, b: int|
            0 <= a < b < entries.len() ==> (#[trigger] entries[a]).key != (
            #[trigger] entries[b]).key,
    ensures
        ({
            let after = with_entry(entries, key, value);
            let known = exists|e: int| 0 <= e < entries.len() && (#[trigger] entries[e]).key == key;
            &&& known ==> after.len() == entries.len()
            &&& !known ==> after.len() == entries.len() + 1 && after.last() == (Entry {
                key,
                value,
            })
            &&& forall|e: int|
                0 <= e < entries.len() ==> (#[trigger] after[e]).key == entries[e].key
                    && after[e].value == if entries[e].key == key {
                    value
                } else {
                    entries[e].value
                }
        }),
    decreases entries.len(),
{
    if entries.len() > 0 {
        let rest = entries.drop_last();
        let last = entries.len() - 1;
        assert(entries[last] == entries.last());
        assert forall|a: int, b: int| 0 <= a < b < rest.len() implies (#[trigger] rest[a]).key != (
        #[trigger] rest[b]).key by {
            assert(entries[a].key != entries[b].key);
        }
        entry_is_put(rest, key, value);
        let after = with_entry(entries, key, value);
        if entries.last().key == key {
            assert forall|e: int| 0 <= e < entries.len() implies (#[trigger] after[e]).key
                == entries[e].key && after[e].value == if entries[e].key == key {
                value
            } else {
                entries[e].value
            } by {
                if e < last {
                    assert(entries[e].key != entries[last].key);
                }
            }
        } else if crate::decide::literal::has_key(rest, key) {
            let k = choose|k: int| 0 <= k < rest.len() && (#[trigger] rest[k]).key == key;
            assert(entries[k].key == key);
            let inner = with_entry(rest, key, value);
            assert forall|e: int| 0 <= e < entries.len() implies (#[trigger] after[e]).key
                == entries[e].key && after[e].value == if entries[e].key == key {
                value
            } else {
                entries[e].value
            } by {
                if e < last {
                    assert(after[e] == inner[e]);
                    assert(entries[e] == rest[e]);
                }
            }
        } else {
            assert forall|e: int| 0 <= e < entries.len() implies (#[trigger] entries[e]).key
                != key by {
                if e < last {
                    assert(rest[e] == entries[e]);
                }
            }
        }
    }
}

/// Entries that are put one after the other map each key to what was put under it last.
pub proof fn entries_map_keys_to_last(keys: Seq<KKey>, cells: Seq<Carried>, upto: nat)
    requires
        upto <= keys.len(),
        upto <= cells.len(),
    ensures
        maps_keys_to_last(entries_of(keys, cells, upto), keys, cells, upto),
    decreases upto,
{
    if upto > 0 {
        let at = (upto - 1) as int;
        entries_map_keys_to_last(keys, cells, at as nat);
        let earlier = entries_of(keys, cells, at as nat);
        let entries = entries_of(keys, cells, upto);
        entry_is_put(earlier, keys[at], cells[at]);
        assert(is_last_with_key(keys, upto, at, keys[at]));
        assert forall|e: int| 0 <= e < entries.len() implies #[trigger] holds_last(
            entries[e],
            keys,
            cells,
            upto,
        ) by {
            if entries[e].key != keys[at] {
                assert(e < earlier.len());
                assert(entries[e].key == earlier[e].key);
                assert(holds_last(earlier[e], keys, cells, at as nat));
                let i = choose|i: int| #[trigger]
                    is_last_with_key(keys, at as nat, i, earlier[e].key) && earlier[e].value
                        == cells[i];
                assert(is_last_with_key(keys, upto, i, entries[e].key));
            } else {
                if e < earlier.len() {
                    assert(entries[e].key == earlier[e].key);
                }
                assert(is_last_with_key(keys, upto, at, entries[e].key));
            }
        }
        assert forall|i: int| 0 <= i < upto implies #[trigger] has_entry(entries, keys[i]) by {
            if i < at {
                assert(has_entry(earlier, keys[i]));
                let e = choose|e: int|
                    0 <= e < earlier.len() && (#[trigger] earlier[e]).key == keys[i];
                assert(entries[e].key == earlier[e].key);
            } else if has_entry(earlier, keys[at]) {
                let e = choose|e: int|
                    0 <= e < earlier.len() && (#[trigger] earlier[e]).key == keys[at];
                assert(entries[e].key == keys[at]);
            } else {
                assert(entries[earlier.len() as int].key == keys[at]);
            }
        }
        assert forall|a: int, b: int| 0 <= a < b < entries.len() implies (
        #[trigger] entries[a]).key != (#[trigger] entries[b]).key by {
            assert(entries[a].key == earlier[a].key);
            if b < earlier.len() {
                assert(entries[b].key == earlier[b].key);
            } else {
                assert(earlier[a].key != keys[at]);
            }
        }
    }
}

/// Whether the key of row `i` came to the scalar `key`.
pub open spec fn keyed_by(
    region: RegionView,
    rows: Seq<AggRow>,
    results: Seq<Carried>,
    i: int,
    key: KKey,
) -> bool {
    let cell = landed(rows[i].key->0, results, taken_before(rows, i));
    &&& !region.borrows(cell)
    &&& cell matches Carried::Object(id) && match region.object(id) {
        ObjectView::Str(text) => key == KKey::String(text),
        ObjectView::Number(bits) => key == KKey::Number(bits),
        ObjectView::Bool(b) => key == KKey::Bool(b),
        _ => false,
    }
}

/// A dict is landed exactly when every key came to a scalar of its own. It then maps each key to
/// the value that stands with that key last, once.
pub proof fn dicts_map_each_key_to_its_last_value(
    region: RegionView,
    rows: Seq<AggRow>,
    results: Seq<Carried>,
    own: KType,
)
    requires
        region.objects.len() < usize::MAX,
        forall|i: int| 0 <= i < rows.len() ==> (#[trigger] rows[i]).key is Some,
    ensures
        ({
            let (result, after) = aggregate_landed(
                region,
                AssemblyView::Dict,
                rows,
                results,
                own,
            );
            &&& result is Err ==> after == region && result->Err_0.kind is ShapeError
                && result->Err_0.frames.len() == 1 && result->Err_0.frames[0].label is Dict
                && exists|i: int|
                0 <= i < rows.len() && (#[trigger] rows[i]).key is Some && forall|key: KKey|
                    !#[trigger] keyed_by(region, rows, results, i, key)
            &&& result is Ok ==> {
                &&& stored_last(region, after, result->Ok_0)
                &&& after.object(result->Ok_0->Object_0) matches ObjectView::Dict {
                    entries,
                    ktype,
                } && ktype == own && exists|keys: Seq<KKey>, cells: Seq<Carried>|
                    {
                        &&& keys.len() == rows.len()
                        &&& cells.len() == rows.len()
                        &&& forall|i: int|
                            0 <= i < rows.len() ==> keyed_by(
                                region,
                                rows,
                                results,
                                i,
                                #[trigger] keys[i],
                            )
                        &&& forall|i: int|
                            0 <= i < rows.len() ==> #[trigger] cells[i] == landed(
                                rows[i].value,
                                results,
                                value_at(rows, i),
                            )
                        &&& #[trigger] maps_keys_to_last(entries, keys, cells, rows.len())
                    }
            }
        }),
{
    rows_are_filled(region, rows, results);
    let filled = filled_rows(region, rows, results);
    if filled.error is None {
        entries_map_keys_to_last(filled.keys, filled.cells, rows.len());
        assert forall|i: int| 0 <= i < rows.len() implies keyed_by(
            region,
            rows,
            results,
            i,
            #[trigger] filled.keys[i],
        ) by {}
        let (result, after) = aggregate_landed(region, AssemblyView::Dict, rows, results, own);
        assert(filled.keys.len() == rows.len());
        assert(stored_last(region, after, result->Ok_0));
        assert(after.object(result->Ok_0->Object_0) is Dict);
        let entries = after.object(result->Ok_0->Object_0)->entries;
        assert(maps_keys_to_last(entries, filled.keys, filled.cells, rows.len()));
    } else {
        let error = filled.error->0;
        let i = choose|i: int|
            {
                &&& 0 <= i < rows.len()
                &&& (#[trigger] rows[i]).key is Some
                &&& scalar_key_of(
                    region,
                    landed(rows[i].key->0, results, taken_before(rows, i)),
                ) == Err::<KKey, ErrorView>(error)
            };
        assert forall|key: KKey| !#[trigger] keyed_by(region, rows, results, i, key) by {}
        assert(rows[i].key is Some);
        assert(error.kind is ShapeError);
        assert(error.frames.len() == 1);
        assert(error.frames[0].label is Dict);
    }
}

} // verus!
