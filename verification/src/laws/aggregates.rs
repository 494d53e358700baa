//! Laws of aggregate literals as slots build them: every item is planned for what it is, points at
//! the very dependency that it waits for, and ends up in its own place of the value.

use crate::ast::{ExpressionPart, KLiteral, WorkingPart};
use crate::decide::literal::AssemblyView;
use crate::decide::resolve::Resolution;
use crate::dispatch::bare_name::{NameView, Standings};
use crate::dispatch::literal::{
    aggregate_landed, filled_rows, planned_cell, planned_dict, planned_list, AggRow, DepsView,
    Slot,
};
use crate::ktype::{KType, TypeRegistry};
use crate::laws::literals::{entries_map_keys_to_last, keeps, maps_keys_to_last, stored_last};
use crate::laws::slots::claimed;
use crate::laws::types::sealed;
use crate::outcome::{DepPlacement, DepRequest};
use crate::region::{PairPart, RegionView};
use crate::scope::{value_in, LexicalFrame, NameLookup, ScopeLevel};
use crate::symbol::Symbol;
use crate::value::{Carried, KKey, ObjectView};
use vstd::prelude::*;

verus! {

/// Whether a slot waits for a request that evaluates an expression made of this part alone.
pub open spec fn evaluated_alone(
    region: RegionView,
    deps: DepsView,
    part: ExpressionPart,
    slot: Slot,
) -> bool {
    slot matches Slot::Owned(at) && at < deps.owned.len() && (
    deps.owned[at as int] matches DepRequest::Dispatch {
        expr,
        placement: DepPlacement::OwnScope,
    } && expr.at < region.nodes.len() && region.parts(expr).len() == 1
        && region.parts(expr)[0].value == WorkingPart::Ast(part))
}

/// Whether a slot waits for exactly this request.
pub open spec fn waits_for_request(deps: DepsView, slot: Slot, request: DepRequest) -> bool {
    slot matches Slot::Owned(at) && at < deps.owned.len() && deps.owned[at as int] == request
}

/// Whether a name that means `meant` is taken at once, waited for, or evaluated where it cannot be
/// taken.
pub open spec fn follows(
    region: RegionView,
    deps: DepsView,
    part: ExpressionPart,
    meant: NameView,
    slot: Slot,
) -> bool {
    match meant {
        NameView::Resolved(cell) => slot == Slot::Static(cell),
        NameView::Parked(source) => slot matches Slot::Park(at) && at < deps.parks.len()
            && deps.parks[at as int] == source,
        _ => evaluated_alone(region, deps, part, slot),
    }
}

/// Whether a part of a literal is planned for what it is, and points at its own dependency where it
/// waits.
pub open spec fn plans_part(
    types: &TypeRegistry,
    levels: Seq<ScopeLevel>,
    lexical: Option<&LexicalFrame>,
    standings: &Standings,
    region: RegionView,
    deps: DepsView,
    part: ExpressionPart,
    slot: Slot,
) -> bool {
    match part {
        ExpressionPart::Identifier(name) => follows(
            region,
            deps,
            part,
            match value_in(levels, name, lexical) {
                Some(NameLookup::Bound(cell)) => NameView::Resolved(cell),
                Some(NameLookup::Parked(source)) => claimed(standings, name, source),
                None => NameView::Unbound(name),
            },
            slot,
        ),
        ExpressionPart::Type(name) => follows(
            region,
            deps,
            part,
            match sealed(types, levels, name, lexical) {
                Resolution::Resolved(cell) => NameView::Resolved(cell),
                Resolution::Parked(source) => claimed(standings, name, source),
                Resolution::Unbound(missing) => NameView::Unbound(missing),
            },
            slot,
        ),
        ExpressionPart::Literal(literal) => slot matches Slot::Static(Carried::Object(id)) && id.at
            < region.objects.len() && region.object(id) == match literal {
            KLiteral::Number(bits) => ObjectView::Number(bits),
            KLiteral::Str(text) => ObjectView::Str(text),
            KLiteral::Bool(b) => ObjectView::Bool(b),
            KLiteral::Null => ObjectView::Null,
        },
        ExpressionPart::Keyword(symbol) => slot matches Slot::Static(Carried::Object(id)) && id.at
            < region.objects.len() && region.object(id) == ObjectView::Str(symbol),
        ExpressionPart::Expression(inner) => waits_for_request(
            deps,
            slot,
            DepRequest::Dispatch { expr: inner, placement: DepPlacement::OwnScope },
        ),
        ExpressionPart::ListLiteral(list) => waits_for_request(
            deps,
            slot,
            DepRequest::ListLit(list),
        ),
        ExpressionPart::DictLiteral(dict) => waits_for_request(
            deps,
            slot,
            DepRequest::DictLit(dict),
        ),
        ExpressionPart::RecordLiteral(record) => waits_for_request(
            deps,
            slot,
            DepRequest::RecordLit(record),
        ),
        ExpressionPart::QuotedExpression(_) | ExpressionPart::SigiledTypeExpr(
            _,
        ) | ExpressionPart::RecordType(_) => evaluated_alone(region, deps, part, slot),
    }
}

/// Whether the dependencies of `before` stand in `after` at their own places.
pub open spec fn keeps_deps(before: DepsView, after: DepsView) -> bool {
    &&& before.parks.len() <= after.parks.len()
    &&& before.owned.len() <= after.owned.len()
    &&& forall|i: int| 0 <= i < before.parks.len() ==> #[trigger] after.parks[i] == before.parks[i]
    &&& forall|i: int| 0 <= i < before.owned.len() ==> #[trigger] after.owned[i] == before.owned[i]
}

proof fn plan_stays(
    types: &TypeRegistry,
    levels: Seq<ScopeLevel>,
    lexical: Option<&LexicalFrame>,
    standings: &Standings,
    before: RegionView,
    after: RegionView,
    deps: DepsView,
    more: DepsView,
    part: ExpressionPart,
    slot: Slot,
)
    requires
        plans_part(types, levels, lexical, standings, before, deps, part, slot),
        keeps(before, after),
        keeps_deps(deps, more),
    ensures
        plans_part(types, levels, lexical, standings, after, more, part, slot),
{
    match slot {
        Slot::Static(Carried::Object(id)) => {
            if id.at < before.objects.len() {
                assert(after.objects[id.at as int] == before.objects[id.at as int]);
            }
        },
        Slot::Owned(at) => {
            if at < deps.owned.len() {
                assert(more.owned[at as int] == deps.owned[at as int]);
                if let DepRequest::Dispatch { expr, .. } = deps.owned[at as int] {
                    if expr.at < before.nodes.len() {
                        assert(after.nodes[expr.at as int] == before.nodes[expr.at as int]);
                    }
                }
            }
        },
        Slot::Park(at) => {
            if at < deps.parks.len() {
                assert(more.parks[at as int] == deps.parks[at as int]);
            }
        },
        _ => {},
    }
}

proof fn part_is_planned(
    types: &TypeRegistry,
    levels: Seq<ScopeLevel>,
    lexical: Option<&LexicalFrame>,
    standings: &Standings,
    region: RegionView,
    deps: DepsView,
    part: ExpressionPart,
)
    requires
        region.nodes.len() < usize::MAX,
        region.objects.len() < usize::MAX,
        deps.parks.len() < usize::MAX,
        deps.owned.len() < usize::MAX,
    ensures
        ({
            let (slot, grown, more) = planned_cell(
                types,
                levels,
                lexical,
                standings,
                region,
                deps,
                part,
            );
            &&& keeps(region, grown)
            &&& keeps_deps(deps, more)
            &&& grown.nodes.len() <= region.nodes.len() + 1
            &&& grown.objects.len() <= region.objects.len() + 1
            &&& more.parks.len() <= deps.parks.len() + 1
            &&& more.owned.len() <= deps.owned.len() + 1
            &&& plans_part(types, levels, lexical, standings, grown, more, part, slot)
        }),
{
}

/// The plan of a list has one row per item, in order, each planned for its own item and pointing at
/// its own dependency.
pub proof fn slots_plan_each_item_in_its_place(
    types: &TypeRegistry,
    levels: Seq<ScopeLevel>,
    lexical: Option<&LexicalFrame>,
    standings: &Standings,
    region: RegionView,
    items: Seq<ExpressionPart>,
)
    requires
        region.nodes.len() + items.len() <= usize::MAX,
        region.objects.len() + items.len() <= usize::MAX,
    ensures
        ({
            let plan = planned_list(types, levels, lexical, standings, region, items);
            &&& keeps(region, plan.region)
            &&& plan.region.nodes.len() <= region.nodes.len() + items.len()
            &&& plan.region.objects.len() <= region.objects.len() + items.len()
            &&& plan.deps.parks.len() <= items.len()
            &&& plan.deps.owned.len() <= items.len()
            &&& plan.rows.len() == items.len()
            &&& forall|i: int|
                0 <= i < items.len() ==> (#[trigger] plan.rows[i]).key is None && plans_part(
                    types,
                    levels,
                    lexical,
                    standings,
                    plan.region,
                    plan.deps,
                    items[i],
                    plan.rows[i].value,
                )
        }),
    decreases items.len(),
{
    if items.len() > 0 {
        let rest = items.drop_last();
        slots_plan_each_item_in_its_place(types, levels, lexical, standings, region, rest);
        let earlier = planned_list(types, levels, lexical, standings, region, rest);
        let plan = planned_list(types, levels, lexical, standings, region, items);
        part_is_planned(
            types,
            levels,
            lexical,
            standings,
            earlier.region,
            earlier.deps,
            items.last(),
        );
        let last = items.len() - 1;
        assert forall|i: int| 0 <= i < items.len() implies (#[trigger] plan.rows[i]).key is None
            && plans_part(
            types,
            levels,
            lexical,
            standings,
            plan.region,
            plan.deps,
            items[i],
            plan.rows[i].value,
        ) by {
            if i < last {
                assert(plan.rows[i] == earlier.rows[i]);
                assert(items[i] == rest[i]);
                plan_stays(
                    types,
                    levels,
                    lexical,
                    standings,
                    earlier.region,
                    plan.region,
                    earlier.deps,
                    plan.deps,
                    items[i],
                    earlier.rows[i].value,
                );
            }
        }
    }
}

/// The plan of a dict has one row per pair, in order, whose key and value are each planned for what
/// they are.
pub proof fn slots_plan_each_pair_in_its_place(
    types: &TypeRegistry,
    levels: Seq<ScopeLevel>,
    lexical: Option<&LexicalFrame>,
    standings: &Standings,
    region: RegionView,
    pairs: Seq<PairPart>,
)
    requires
        region.nodes.len() + 2 * pairs.len() <= usize::MAX,
        region.objects.len() + 2 * pairs.len() <= usize::MAX,
    ensures
        ({
            let plan = planned_dict(types, levels, lexical, standings, region, pairs);
            &&& keeps(region, plan.region)
            &&& plan.region.nodes.len() <= region.nodes.len() + 2 * pairs.len()
            &&& plan.region.objects.len() <= region.objects.len() + 2 * pairs.len()
            &&& plan.deps.parks.len() <= 2 * pairs.len()
            &&& plan.deps.owned.len() <= 2 * pairs.len()
            &&& plan.rows.len() == pairs.len()
            &&& forall|i: int|
                0 <= i < pairs.len() ==> (#[trigger] plan.rows[i]).key is Some && plans_part(
                    types,
                    levels,
                    lexical,
                    standings,
                    plan.region,
                    plan.deps,
                    pairs[i].key,
                    plan.rows[i].key->0,
                ) && plans_part(
                    types,
                    levels,
                    lexical,
                    standings,
                    plan.region,
                    plan.deps,
                    pairs[i].value,
                    plan.rows[i].value,
                )
        }),
    decreases pairs.len(),
{
    if pairs.len() > 0 {
        let rest = pairs.drop_last();
        slots_plan_each_pair_in_its_place(types, levels, lexical, standings, region, rest);
        let earlier = planned_dict(types, levels, lexical, standings, region, rest);
        let plan = planned_dict(types, levels, lexical, standings, region, pairs);
        let pair = pairs.last();
        part_is_planned(
            types,
            levels,
            lexical,
            standings,
            earlier.region,
            earlier.deps,
            pair.key,
        );
        let (key, keyed, first) = planned_cell(
            types,
            levels,
            lexical,
            standings,
            earlier.region,
            earlier.deps,
            pair.key,
        );
        part_is_planned(types, levels, lexical, standings, keyed, first, pair.value);
        plan_stays(
            types,
            levels,
            lexical,
            standings,
            keyed,
            plan.region,
            first,
            plan.deps,
            pair.key,
            key,
        );
        let last = pairs.len() - 1;
        assert(pairs[last] == pair);
        assert(keeps(earlier.region, plan.region));
        assert(keeps_deps(earlier.deps, plan.deps));
        assert forall|i: int| 0 <= i < pairs.len() implies (#[trigger] plan.rows[i]).key is Some
            && plans_part(
            types,
            levels,
            lexical,
            standings,
            plan.region,
            plan.deps,
            pairs[i].key,
            plan.rows[i].key->0,
        ) && plans_part(
            types,
            levels,
            lexical,
            standings,
            plan.region,
            plan.deps,
            pairs[i].value,
            plan.rows[i].value,
        ) by {
            if i < last {
                assert(plan.rows[i] == earlier.rows[i]);
                assert(pairs[i] == rest[i]);
                let row = earlier.rows[i];
                plan_stays(
                    types,
                    levels,
                    lexical,
                    standings,
                    earlier.region,
                    plan.region,
                    earlier.deps,
                    plan.deps,
                    pairs[i].key,
                    row.key->0,
                );
                plan_stays(
                    types,
                    levels,
                    lexical,
                    standings,
                    earlier.region,
                    plan.region,
                    earlier.deps,
                    plan.deps,
                    pairs[i].value,
                    row.value,
                );
            }
        }
    }
}

/// What a slot holds once the results are in: what was known at once, or the result it points at.
pub open spec fn landed(slot: Slot, parked: Seq<Carried>, owned: Seq<Carried>) -> Carried {
    match slot {
        Slot::Static(cell) => cell,
        Slot::Park(at) => parked[at as int],
        Slot::Owned(at) => owned[at as int],
    }
}

/// Whether a value is the scalar `key`.
pub open spec fn is_key(region: RegionView, cell: Carried, key: KKey) -> bool {
    cell matches Carried::Object(id) && match region.object(id) {
        ObjectView::Str(text) => key == KKey::String(text),
        ObjectView::Number(bits) => key == KKey::Number(bits),
        ObjectView::Bool(b) => key == KKey::Bool(b),
        _ => false,
    }
}

proof fn rows_are_filled(
    region: RegionView,
    rows: Seq<AggRow>,
    parked: Seq<Carried>,
    owned: Seq<Carried>,
)
    ensures
        ({
            let filled = filled_rows(region, rows, parked, owned);
            &&& filled.error is None ==> filled.cells.len() == rows.len()
            &&& filled.error is None ==> forall|i: int|
                0 <= i < rows.len() ==> #[trigger] filled.cells[i] == landed(
                    rows[i].value,
                    parked,
                    owned,
                )
            &&& filled.error is None && (forall|i: int|
                0 <= i < rows.len() ==> (#[trigger] rows[i]).key is Some) ==> filled.keys.len()
                == rows.len() && forall|i: int|
                0 <= i < rows.len() ==> is_key(
                    region,
                    landed(rows[i].key->0, parked, owned),
                    #[trigger] filled.keys[i],
                )
            &&& filled.error is Some ==> filled.error->0.kind is ShapeError && exists|i: int|
                {
                    &&& 0 <= i < rows.len()
                    &&& (#[trigger] rows[i]).key is Some
                    &&& forall|key: KKey|
                        !#[trigger] is_key(region, landed(rows[i].key->0, parked, owned), key)
                }
        }),
    decreases rows.len(),
{
    if rows.len() > 0 {
        let rest = rows.drop_last();
        let last = rows.len() - 1;
        rows_are_filled(region, rest, parked, owned);
        let earlier = filled_rows(region, rest, parked, owned);
        let filled = filled_rows(region, rows, parked, owned);
        assert(rows[last] == rows.last());
        if earlier.error is Some {
            let i = choose|i: int|
                {
                    &&& 0 <= i < rest.len()
                    &&& (#[trigger] rest[i]).key is Some
                    &&& forall|key: KKey|
                        !#[trigger] is_key(region, landed(rest[i].key->0, parked, owned), key)
                };
            assert(rows[i] == rest[i]);
        } else if filled.error is Some {
            assert(rows[last].key is Some);
            assert(forall|key: KKey|
                !#[trigger] is_key(region, landed(rows[last].key->0, parked, owned), key));
        } else {
            assert forall|i: int| 0 <= i < rows.len() implies #[trigger] filled.cells[i] == landed(
                rows[i].value,
                parked,
                owned,
            ) by {
                if i < last {
                    assert(filled.cells[i] == earlier.cells[i]);
                    assert(rows[i] == rest[i]);
                }
            }
            if forall|i: int| 0 <= i < rows.len() ==> (#[trigger] rows[i]).key is Some {
                assert forall|i: int| 0 <= i < rest.len() implies (#[trigger] rest[i]).key
                    is Some by {
                    assert(rows[i] == rest[i]);
                }
                assert(rows[last].key is Some);
                assert forall|i: int| 0 <= i < rows.len() implies is_key(
                    region,
                    landed(rows[i].key->0, parked, owned),
                    #[trigger] filled.keys[i],
                ) by {
                    if i < last {
                        assert(filled.keys[i] == earlier.keys[i]);
                        assert(rows[i] == rest[i]);
                    }
                }
            }
        }
    }
}

/// A landed list holds, at the place of each row, what that row came to.
pub proof fn slots_hold_each_item_in_its_place(
    region: RegionView,
    rows: Seq<AggRow>,
    parked: Seq<Carried>,
    owned: Seq<Carried>,
    own: KType,
)
    requires
        region.objects.len() < usize::MAX,
        forall|i: int| 0 <= i < rows.len() ==> (#[trigger] rows[i]).key is None,
    ensures
        ({
            let (result, after) = aggregate_landed(
                region,
                AssemblyView::List,
                rows,
                parked,
                owned,
                own,
            );
            &&& result is Ok
            &&& stored_last(region, after, result->Ok_0)
            &&& after.object(result->Ok_0->Object_0) matches ObjectView::List { items, ktype }
                && ktype == own && items.len() == rows.len() && forall|i: int|
                0 <= i < rows.len() ==> #[trigger] items[i] == landed(rows[i].value, parked, owned)
        }),
{
    rows_are_filled(region, rows, parked, owned);
}

/// A landed record holds, under the name at the place of each row, what that row came to.
pub proof fn slots_hold_each_field_under_its_name(
    region: RegionView,
    names: Seq<Symbol>,
    rows: Seq<AggRow>,
    parked: Seq<Carried>,
    owned: Seq<Carried>,
    own: KType,
)
    requires
        region.objects.len() < usize::MAX,
        names.len() == rows.len(),
        forall|i: int| 0 <= i < rows.len() ==> (#[trigger] rows[i]).key is None,
    ensures
        ({
            let (result, after) = aggregate_landed(
                region,
                AssemblyView::Record(names),
                rows,
                parked,
                owned,
                own,
            );
            &&& result is Ok
            &&& stored_last(region, after, result->Ok_0)
            &&& after.object(result->Ok_0->Object_0) matches ObjectView::Record { fields, ktype }
                && ktype == own && fields.len() == rows.len() && forall|i: int|
                0 <= i < rows.len() ==> (#[trigger] fields[i]).name == names[i] && fields[i].value
                    == landed(rows[i].value, parked, owned)
        }),
{
    rows_are_filled(region, rows, parked, owned);
}

/// A dict is landed exactly when every key came to a scalar. It then maps each key to the value that
/// stands with that key last, once.
pub proof fn slots_map_each_key_to_its_last_value(
    region: RegionView,
    rows: Seq<AggRow>,
    parked: Seq<Carried>,
    owned: Seq<Carried>,
    own: KType,
)
    requires
        region.objects.len() < usize::MAX,
        forall|i: int| 0 <= i < rows.len() ==> (#[trigger] rows[i]).key is Some,
    ensures
        ({
            let (result, after) = aggregate_landed(
                region,
                AssemblyView::Dict,
                rows,
                parked,
                owned,
                own,
            );
            &&& result is Err ==> after == region && result->Err_0.kind is ShapeError && exists|
                i: int,
            |
                0 <= i < rows.len() && (#[trigger] rows[i]).key is Some && forall|key: KKey|
                    !#[trigger] is_key(region, landed(rows[i].key->0, parked, owned), key)
            &&& result is Ok ==> {
                &&& stored_last(region, after, result->Ok_0)
                &&& after.object(result->Ok_0->Object_0) matches ObjectView::Dict {
                    entries,
                    ktype,
                } && ktype == own && exists|keys: Seq<KKey>, cells: Seq<Carried>|
                    {
                        &&& keys.len() == rows.len()
                        &&& cells.len() == rows.len()
                        &&& forall|i: int|
                            0 <= i < rows.len() ==> is_key(
                                region,
                                landed(rows[i].key->0, parked, owned),
                                #[trigger] keys[i],
                            )
                        &&& forall|i: int|
                            0 <= i < rows.len() ==> #[trigger] cells[i] == landed(
                                rows[i].value,
                                parked,
                                owned,
                            )
                        &&& #[trigger] maps_keys_to_last(entries, keys, cells, rows.len())
                    }
            }
        }),
{
    rows_are_filled(region, rows, parked, owned);
    let filled = filled_rows(region, rows, parked, owned);
    if filled.error is None {
        entries_map_keys_to_last(filled.keys, filled.cells, rows.len());
        let (result, after) = aggregate_landed(
            region,
            AssemblyView::Dict,
            rows,
            parked,
            owned,
            own,
        );
        assert(after.object(result->Ok_0->Object_0) is Dict);
        let entries = after.object(result->Ok_0->Object_0)->entries;
        assert(maps_keys_to_last(entries, filled.keys, filled.cells, rows.len()));
    }
}

} // verus!
