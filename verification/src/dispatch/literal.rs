//! List, dict and record literals whose cells say where their result is: settled on the spot, one
//! of the slots that the literal parks on, or one of the slots that it owns.

use super::bare_name::{bare_carrier, resolve_bare_carrier, BareCarrier, Standings};
use crate::ast::{bare, bare_slot, ExpressionPart, WorkingPart};
use crate::decide::constructors::any_borrows;
use crate::decide::literal::{
    assemble, assembled, carried_key, dict_error, key_from_carried, pure_object,
    resolve_region_pure, Assembly, AssemblyView, FilledView,
};
use crate::decide::staging::{stage_eager_part, staged_part};
use crate::error::{ErrorView, FrameLabel, KError, TraceFrame};
use crate::ktype::{KType, TypeRegistry};
use crate::outcome::{own_dispatch, DepPlacement, DepRequest};
use crate::region::{no_meta, NodeMeta, PairPart, Region, RegionView};
use crate::run::storable;
use crate::scope::{LexicalFrame, Scope, ScopeLevel};
use crate::value::{Carried, KKey, ProducerId};
use vstd::prelude::*;

verus! {

/// One cell of a literal.
#[derive(Clone, Copy, PartialEq, Eq, Structural, Debug)]
pub enum Slot {
    Static(Carried),
    /// The result of a slot that is parked on, by its place among those.
    Park(usize),
    /// The result of a slot that is owned, by its place among those.
    Owned(usize),
}

/// One row of a literal; only the rows of a dict have a key.
#[derive(Clone, Copy, PartialEq, Eq, Structural, Debug)]
pub struct AggRow {
    pub key: Option<Slot>,
    pub value: Slot,
}

/// What a literal waits for.
pub struct LiteralDeps {
    pub parks: Vec<ProducerId>,
    pub owned: Vec<DepRequest>,
}

/// The content of a [`LiteralDeps`].
#[verifier::ext_equal]
pub struct DepsView {
    pub parks: Seq<ProducerId>,
    pub owned: Seq<DepRequest>,
}

impl View for LiteralDeps {
    type V = DepsView;

    open spec fn view(&self) -> DepsView {
        DepsView { parks: self.parks@, owned: self.owned@ }
    }
}

/// Nothing to wait for.
pub open spec fn no_deps() -> DepsView {
    DepsView { parks: Seq::empty(), owned: Seq::empty() }
}

impl LiteralDeps {
    /// Nothing to wait for.
    pub fn new() -> (r: LiteralDeps)
        ensures
            r@ == no_deps(),
    {
        let r = LiteralDeps { parks: Vec::new(), owned: Vec::new() };
        assert(r@ =~= no_deps());
        r
    }
}

/// A cell that owns its work.
pub open spec fn owned_cell(deps: DepsView, request: DepRequest) -> (Slot, DepsView) {
    (
        Slot::Owned(deps.owned.len() as usize),
        DepsView { owned: deps.owned.push(request), ..deps },
    )
}

/// A cell that parks on a binder.
pub open spec fn parked_cell(deps: DepsView, source: ProducerId) -> (Slot, DepsView) {
    (
        Slot::Park(deps.parks.len() as usize),
        DepsView { parks: deps.parks.push(source), ..deps },
    )
}

impl LiteralDeps {
    /// Adds work that the literal owns.
    fn own(&mut self, request: DepRequest) -> (r: Slot)
        ensures
            (r, final(self)@) == owned_cell(old(self)@, request),
    {
        let ghost before = self@;
        let at: usize = self.owned.len();
        self.owned.push(request);
        assert(self@ =~= (DepsView { owned: before.owned.push(request), ..before }));
        Slot::Owned(at)
    }

    /// Adds a binder that the literal parks on.
    fn park_on(&mut self, source: ProducerId) -> (r: Slot)
        ensures
            (r, final(self)@) == parked_cell(old(self)@, source),
    {
        let ghost before = self@;
        let at: usize = self.parks.len();
        self.parks.push(source);
        assert(self@ =~= (DepsView { parks: before.parks.push(source), ..before }));
        Slot::Park(at)
    }
}

/// A cell whose part is dispatched on its own.
pub open spec fn dispatched_cell(region: RegionView, deps: DepsView, part: ExpressionPart) -> (
    Slot,
    RegionView,
    DepsView,
) {
    let (slot, grown) = owned_cell(deps, own_dispatch(region.next_node()));
    (slot, region.with_node(seq![bare_slot(WorkingPart::Ast(part))], no_meta()), grown)
}

/// Dispatches the part of a cell on its own.
fn dispatch_cell(region: &mut Region, deps: &mut LiteralDeps, part: ExpressionPart) -> (r: Slot)
    ensures
        (r, final(region)@, final(deps)@) == dispatched_cell(old(region)@, old(deps)@, part),
{
    let expr = region.add_lone(bare(WorkingPart::Ast(part)), NodeMeta { span: None, plan: None, raw: None });
    deps.own(DepRequest::Dispatch { expr, placement: DepPlacement::OwnScope })
}

/// How the cell of a bare name is filled. A name that is unbound, or whose binder failed, is
/// dispatched so that it fails as a lone name does.
pub open spec fn named_cell(
    types: &TypeRegistry,
    levels: Seq<ScopeLevel>,
    lexical: Option<&LexicalFrame>,
    standings: &Standings,
    region: RegionView,
    deps: DepsView,
    part: ExpressionPart,
) -> (Slot, RegionView, DepsView) {
    match bare_carrier(types, levels, part, lexical, standings) {
        Ok(BareCarrier::Sealed(cell)) => (Slot::Static(cell), region, deps),
        Ok(BareCarrier::Parked(source)) => {
            let (slot, grown) = parked_cell(deps, source);
            (slot, region, grown)
        },
        _ => dispatched_cell(region, deps, part),
    }
}

/// Plans the cell of a bare name.
pub fn resolve_aggregate_bare_name(
    scope: &Scope,
    lexical: Option<&LexicalFrame>,
    standings: &Standings,
    types: &TypeRegistry,
    region: &mut Region,
    part: ExpressionPart,
    deps: &mut LiteralDeps,
) -> (r: Slot)
    requires
        part is Identifier || part is Type,
    ensures
        (r, final(region)@, final(deps)@) == named_cell(
            types,
            scope.levels@,
            lexical,
            standings,
            old(region)@,
            old(deps)@,
            part,
        ),
{
    match resolve_bare_carrier(scope, part, standings, lexical, types) {
        Ok(BareCarrier::Sealed(cell)) => Slot::Static(cell),
        Ok(BareCarrier::Parked(source)) => deps.park_on(source),
        _ => dispatch_cell(region, deps, part),
    }
}

/// How a cell is filled.
pub open spec fn planned_cell(
    types: &TypeRegistry,
    levels: Seq<ScopeLevel>,
    lexical: Option<&LexicalFrame>,
    standings: &Standings,
    region: RegionView,
    deps: DepsView,
    part: ExpressionPart,
) -> (Slot, RegionView, DepsView) {
    match staged_part(region, part) {
        Some((request, grown)) => {
            let (slot, added) = owned_cell(deps, request);
            (slot, grown, added)
        },
        None => match part {
            ExpressionPart::QuotedExpression(_) => dispatched_cell(region, deps, part),
            ExpressionPart::Identifier(_) | ExpressionPart::Type(_) => named_cell(
                types,
                levels,
                lexical,
                standings,
                region,
                deps,
                part,
            ),
            _ => (
                Slot::Static(Carried::Object(region.next_object())),
                region.with_object(pure_object(part), false),
                deps,
            ),
        },
    }
}

/// Plans one cell of a literal.
pub fn classify_aggregate_part(
    scope: &Scope,
    lexical: Option<&LexicalFrame>,
    standings: &Standings,
    types: &TypeRegistry,
    region: &mut Region,
    part: ExpressionPart,
    deps: &mut LiteralDeps,
) -> (r: Slot)
    ensures
        (r, final(region)@, final(deps)@) == planned_cell(
            types,
            scope.levels@,
            lexical,
            standings,
            old(region)@,
            old(deps)@,
            part,
        ),
{
    match stage_eager_part(region, part) {
        Ok(request) => {
            return deps.own(request);
        },
        Err(_) => {},
    }
    match part {
        ExpressionPart::QuotedExpression(_) => dispatch_cell(region, deps, part),
        ExpressionPart::Identifier(_) | ExpressionPart::Type(_) => resolve_aggregate_bare_name(
            scope,
            lexical,
            standings,
            types,
            region,
            part,
            deps,
        ),
        _ => {
            let object = region.add_object(resolve_region_pure(part), false);
            Slot::Static(Carried::Object(object))
        },
    }
}

/// A planning that has come some way.
pub struct PlanView {
    pub region: RegionView,
    pub deps: DepsView,
    pub rows: Seq<AggRow>,
}

/// A literal whose cells are planned.
pub struct Aggregate {
    pub deps: LiteralDeps,
    pub rows: Vec<AggRow>,
}

/// The plan of the first items of a list, or of the values of a record.
pub open spec fn planned_list(
    types: &TypeRegistry,
    levels: Seq<ScopeLevel>,
    lexical: Option<&LexicalFrame>,
    standings: &Standings,
    region: RegionView,
    items: Seq<ExpressionPart>,
) -> PlanView
    decreases items.len(),
{
    if items.len() == 0 {
        PlanView { region, deps: no_deps(), rows: Seq::empty() }
    } else {
        let earlier = planned_list(types, levels, lexical, standings, region, items.drop_last());
        let (value, grown, deps) = planned_cell(
            types,
            levels,
            lexical,
            standings,
            earlier.region,
            earlier.deps,
            items.last(),
        );
        PlanView { region: grown, deps, rows: earlier.rows.push(AggRow { key: None, value }) }
    }
}

/// Plans the items of a list, or the values of a record.
pub fn schedule_list_literal(
    scope: &Scope,
    lexical: Option<&LexicalFrame>,
    standings: &Standings,
    types: &TypeRegistry,
    region: &mut Region,
    items: &Vec<ExpressionPart>,
) -> (r: Aggregate)
    ensures
        ({
            let all = planned_list(
                types,
                scope.levels@,
                lexical,
                standings,
                old(region)@,
                items@,
            );
            r.deps@ == all.deps && r.rows@ == all.rows && final(region)@ == all.region
        }),
{
    let ghost before = region@;
    let ghost levels = scope.levels@;
    let mut deps = LiteralDeps::new();
    let mut rows: Vec<AggRow> = Vec::new();
    let mut i: usize = 0;
    proof {
        assert(items@.take(0) =~= Seq::<ExpressionPart>::empty());
    }
    while i < items.len()
        invariant
            i <= items.len(),
            levels == scope.levels@,
            ({
                let all = planned_list(
                    types,
                    levels,
                    lexical,
                    standings,
                    before,
                    items@.take(i as int),
                );
                region@ == all.region && deps@ == all.deps && rows@ == all.rows
            }),
        decreases items.len() - i,
    {
        proof {
            assert(items@.take(i as int + 1).drop_last() =~= items@.take(i as int));
        }
        let value = classify_aggregate_part(
            scope,
            lexical,
            standings,
            types,
            region,
            items[i],
            &mut deps,
        );
        rows.push(AggRow { key: None, value });
        i = i + 1;
    }
    assert(items@.take(i as int) =~= items@);
    Aggregate { deps, rows }
}

/// The plan of the first pairs of a dict; a key is planned before its value.
pub open spec fn planned_dict(
    types: &TypeRegistry,
    levels: Seq<ScopeLevel>,
    lexical: Option<&LexicalFrame>,
    standings: &Standings,
    region: RegionView,
    pairs: Seq<PairPart>,
) -> PlanView
    decreases pairs.len(),
{
    if pairs.len() == 0 {
        PlanView { region, deps: no_deps(), rows: Seq::empty() }
    } else {
        let earlier = planned_dict(types, levels, lexical, standings, region, pairs.drop_last());
        let (key, keyed, first) = planned_cell(
            types,
            levels,
            lexical,
            standings,
            earlier.region,
            earlier.deps,
            pairs.last().key,
        );
        let (value, grown, deps) = planned_cell(
            types,
            levels,
            lexical,
            standings,
            keyed,
            first,
            pairs.last().value,
        );
        PlanView { region: grown, deps, rows: earlier.rows.push(AggRow { key: Some(key), value }) }
    }
}

/// Plans a dict literal.
pub fn schedule_dict_literal(
    scope: &Scope,
    lexical: Option<&LexicalFrame>,
    standings: &Standings,
    types: &TypeRegistry,
    region: &mut Region,
    pairs: &Vec<PairPart>,
) -> (r: Aggregate)
    ensures
        ({
            let all = planned_dict(
                types,
                scope.levels@,
                lexical,
                standings,
                old(region)@,
                pairs@,
            );
            r.deps@ == all.deps && r.rows@ == all.rows && final(region)@ == all.region
        }),
{
    let ghost before = region@;
    let ghost levels = scope.levels@;
    let mut deps = LiteralDeps::new();
    let mut rows: Vec<AggRow> = Vec::new();
    let mut i: usize = 0;
    proof {
        assert(pairs@.take(0) =~= Seq::<PairPart>::empty());
    }
    while i < pairs.len()
        invariant
            i <= pairs.len(),
            levels == scope.levels@,
            ({
                let all = planned_dict(
                    types,
                    levels,
                    lexical,
                    standings,
                    before,
                    pairs@.take(i as int),
                );
                region@ == all.region && deps@ == all.deps && rows@ == all.rows
            }),
        decreases pairs.len() - i,
    {
        proof {
            assert(pairs@.take(i as int + 1).drop_last() =~= pairs@.take(i as int));
        }
        let key = classify_aggregate_part(
            scope,
            lexical,
            standings,
            types,
            region,
            pairs[i].key,
            &mut deps,
        );
        let value = classify_aggregate_part(
            scope,
            lexical,
            standings,
            types,
            region,
            pairs[i].value,
            &mut deps,
        );
        rows.push(AggRow { key: Some(key), value });
        i = i + 1;
    }
    assert(pairs@.take(i as int) =~= pairs@);
    Aggregate { deps, rows }
}

/// Whether the result of a cell is there.
pub open spec fn fillable(slot: Slot, parks: nat, owned: nat) -> bool {
    match slot {
        Slot::Static(_) => true,
        Slot::Park(at) => at < parks,
        Slot::Owned(at) => at < owned,
    }
}

/// Whether the results of a row are there.
pub open spec fn row_fillable(row: AggRow, parks: nat, owned: nat) -> bool {
    fillable(row.value, parks, owned) && match row.key {
        Some(key) => fillable(key, parks, owned),
        None => true,
    }
}

/// The value of a cell.
pub open spec fn cell_value(slot: Slot, parked: Seq<Carried>, owned: Seq<Carried>) -> Carried {
    match slot {
        Slot::Static(carried) => carried,
        Slot::Park(at) => parked[at as int],
        Slot::Owned(at) => owned[at as int],
    }
}

/// The value of a cell.
pub fn cell_carrier(slot: Slot, parked: &Vec<Carried>, owned: &Vec<Carried>) -> (r: Carried)
    requires
        fillable(slot, parked@.len(), owned@.len()),
    ensures
        r == cell_value(slot, parked@, owned@),
{
    match slot {
        Slot::Static(carried) => carried,
        Slot::Park(at) => parked[at],
        Slot::Owned(at) => owned[at],
    }
}

/// The key of a row.
pub open spec fn scalar_key_of(region: RegionView, carried: Carried) -> Result<KKey, ErrorView> {
    match carried_key(region, carried) {
        Ok(key) => Ok(key),
        Err(kind) => Err(dict_error(kind)),
    }
}

/// The key of a row.
pub fn scalar_key(region: &Region, slot: Slot, parked: &Vec<Carried>, owned: &Vec<Carried>) -> (r:
    Result<KKey, KError>)
    requires
        fillable(slot, parked@.len(), owned@.len()),
    ensures
        match r {
            Ok(key) => scalar_key_of(region@, cell_value(slot, parked@, owned@)) == Ok::<
                KKey,
                ErrorView,
            >(key),
            Err(e) => scalar_key_of(region@, cell_value(slot, parked@, owned@)) == Err::<
                KKey,
                ErrorView,
            >(e@),
        },
{
    match key_from_carried(region, cell_carrier(slot, parked, owned)) {
        Ok(key) => Ok(key),
        Err(kind) => Err(
            KError::new(kind).with_frame(TraceFrame { label: FrameLabel::Dict, expr: None }),
        ),
    }
}

/// Puts the results into a run of rows; the first row with a bad key ends it.
pub open spec fn filled_rows(
    region: RegionView,
    rows: Seq<AggRow>,
    parked: Seq<Carried>,
    owned: Seq<Carried>,
) -> FilledView
    decreases rows.len(),
{
    if rows.len() == 0 {
        FilledView { keys: Seq::empty(), cells: Seq::empty(), error: None }
    } else {
        let earlier = filled_rows(region, rows.drop_last(), parked, owned);
        let row = rows.last();
        let value = cell_value(row.value, parked, owned);
        if earlier.error is Some {
            earlier
        } else {
            match row.key {
                None => FilledView { cells: earlier.cells.push(value), ..earlier },
                Some(slot) => match scalar_key_of(region, cell_value(slot, parked, owned)) {
                    Err(e) => FilledView { error: Some(e), ..earlier },
                    Ok(key) => FilledView {
                        keys: earlier.keys.push(key),
                        cells: earlier.cells.push(value),
                        error: None,
                    },
                },
            }
        }
    }
}

proof fn bad_key_ends_filling(
    region: RegionView,
    rows: Seq<AggRow>,
    parked: Seq<Carried>,
    owned: Seq<Carried>,
    upto: int,
)
    requires
        0 <= upto <= rows.len(),
        filled_rows(region, rows.take(upto), parked, owned).error is Some,
    ensures
        filled_rows(region, rows, parked, owned) == filled_rows(
            region,
            rows.take(upto),
            parked,
            owned,
        ),
    decreases rows.len() - upto,
{
    if upto == rows.len() {
        assert(rows.take(upto) =~= rows);
    } else {
        assert(rows.drop_last().take(upto) =~= rows.take(upto));
        bad_key_ends_filling(region, rows.drop_last(), parked, owned, upto);
    }
}

/// Puts the results into the rows of a literal: the keys and the cells, in order.
pub fn fill_rows(
    region: &Region,
    rows: &Vec<AggRow>,
    parked: &Vec<Carried>,
    owned: &Vec<Carried>,
) -> (r: Result<(Vec<KKey>, Vec<Carried>), KError>)
    requires
        forall|i: int|
            0 <= i < rows@.len() ==> row_fillable(
                #[trigger] rows@[i],
                parked@.len(),
                owned@.len(),
            ),
    ensures
        ({
            let all = filled_rows(region@, rows@, parked@, owned@);
            match r {
                Ok((keys, cells)) => all.error is None && keys@ == all.keys && cells@ == all.cells,
                Err(e) => all.error == Some(e@),
            }
        }),
{
    let mut keys: Vec<KKey> = Vec::new();
    let mut cells: Vec<Carried> = Vec::new();
    let mut i: usize = 0;
    proof {
        assert(rows@.take(0) =~= Seq::<AggRow>::empty());
    }
    while i < rows.len()
        invariant
            i <= rows.len(),
            forall|k: int|
                0 <= k < rows@.len() ==> row_fillable(
                    #[trigger] rows@[k],
                    parked@.len(),
                    owned@.len(),
                ),
            filled_rows(region@, rows@.take(i as int), parked@, owned@).error is None,
            keys@ == filled_rows(region@, rows@.take(i as int), parked@, owned@).keys,
            cells@ == filled_rows(region@, rows@.take(i as int), parked@, owned@).cells,
        decreases rows.len() - i,
    {
        proof {
            assert(rows@.take(i as int + 1).drop_last() =~= rows@.take(i as int));
            assert(row_fillable(rows@[i as int], parked@.len(), owned@.len()));
        }
        let row = rows[i];
        if let Some(slot) = row.key {
            match scalar_key(region, slot, parked, owned) {
                Ok(key) => {
                    keys.push(key);
                },
                Err(e) => {
                    proof {
                        bad_key_ends_filling(region@, rows@, parked@, owned@, i as int + 1);
                    }
                    return Err(e);
                },
            }
        }
        cells.push(cell_carrier(row.value, parked, owned));
        i = i + 1;
    }
    assert(rows@.take(i as int) =~= rows@);
    Ok((keys, cells))
}

proof fn filled_lengths(
    region: RegionView,
    rows: Seq<AggRow>,
    parked: Seq<Carried>,
    owned: Seq<Carried>,
    keyed: bool,
)
    requires
        forall|i: int| 0 <= i < rows.len() ==> ((#[trigger] rows[i]).key is Some <==> keyed),
        filled_rows(region, rows, parked, owned).error is None,
    ensures
        filled_rows(region, rows, parked, owned).cells.len() == rows.len(),
        filled_rows(region, rows, parked, owned).keys.len() == if keyed {
            rows.len()
        } else {
            0
        },
    decreases rows.len(),
{
    if rows.len() > 0 {
        assert(rows[rows.len() - 1].key is Some <==> keyed);
        assert forall|i: int| 0 <= i < rows.drop_last().len() implies ((
        #[trigger] rows.drop_last()[i]).key is Some <==> keyed) by {
            assert(rows.drop_last()[i] == rows[i]);
        }
        filled_lengths(region, rows.drop_last(), parked, owned, keyed);
    }
}

/// Whether the rows fit what they are assembled into: every row of a dict has a key and no other
/// row has, a record has a name for every row, and every cell that waits has its result.
pub open spec fn assemblable(
    assembly: AssemblyView,
    rows: Seq<AggRow>,
    parks: nat,
    owned: nat,
) -> bool {
    &&& storable(rows.len())
    &&& forall|i: int|
        0 <= i < rows.len() ==> row_fillable(#[trigger] rows[i], parks, owned) && (rows[i].key is Some
            <==> assembly is Dict)
    &&& assembly matches AssemblyView::Record(names) ==> names.len() == rows.len()
}

/// What a literal comes to once its cells have landed.
pub open spec fn aggregate_landed(
    region: RegionView,
    assembly: AssemblyView,
    rows: Seq<AggRow>,
    parked: Seq<Carried>,
    owned: Seq<Carried>,
    own: KType,
) -> (Result<Carried, ErrorView>, RegionView) {
    let filled = filled_rows(region, rows, parked, owned);
    match filled.error {
        Some(e) => (Err(e), region),
        None => (
            Ok(Carried::Object(region.next_object())),
            region.with_object(
                assembled(assembly, filled.keys, filled.cells, own),
                any_borrows(region, filled.cells),
            ),
        ),
    }
}

/// Assembles a literal whose cells have landed. A bad key is refused before anything is built.
pub fn finish_aggregate(
    region: &mut Region,
    assembly: &Assembly,
    rows: &Vec<AggRow>,
    parked: &Vec<Carried>,
    owned: &Vec<Carried>,
    own: KType,
) -> (r: Result<Carried, KError>)
    requires
        assemblable(assembly@, rows@, parked@.len(), owned@.len()),
    ensures
        (crate::outcome::result_view(r), final(region)@) == aggregate_landed(
            old(region)@,
            assembly@,
            rows@,
            parked@,
            owned@,
            own,
        ),
{
    match fill_rows(region, rows, parked, owned) {
        Ok((keys, cells)) => {
            proof {
                filled_lengths(region@, rows@, parked@, owned@, assembly@ is Dict);
            }
            let built = assemble(region, assembly, &keys, &cells, own);
            Ok(Carried::Object(built))
        },
        Err(e) => Err(e),
    }
}

/// Every cell that a plan leaves waiting points at something that the plan waits for. Growing the
/// dependencies keeps that so.
pub proof fn list_plans_point_at_what_they_wait_for(
    types: &TypeRegistry,
    levels: Seq<ScopeLevel>,
    lexical: Option<&LexicalFrame>,
    standings: &Standings,
    region: RegionView,
    items: Seq<ExpressionPart>,
)
    requires
        items.len() <= usize::MAX,
    ensures
        ({
            let all = planned_list(types, levels, lexical, standings, region, items);
            &&& all.rows.len() == items.len()
            &&& all.deps.parks.len() + all.deps.owned.len() <= items.len()
            &&& forall|i: int|
                0 <= i < all.rows.len() ==> row_fillable(
                    #[trigger] all.rows[i],
                    all.deps.parks.len(),
                    all.deps.owned.len(),
                )
        }),
    decreases items.len(),
{
    if items.len() > 0 {
        list_plans_point_at_what_they_wait_for(
            types,
            levels,
            lexical,
            standings,
            region,
            items.drop_last(),
        );
        let earlier = planned_list(types, levels, lexical, standings, region, items.drop_last());
        let all = planned_list(types, levels, lexical, standings, region, items);
        assert forall|i: int| 0 <= i < all.rows.len() implies row_fillable(
            #[trigger] all.rows[i],
            all.deps.parks.len(),
            all.deps.owned.len(),
        ) by {
            if i < earlier.rows.len() {
                assert(all.rows[i] == earlier.rows[i]);
                assert(row_fillable(
                    earlier.rows[i],
                    earlier.deps.parks.len(),
                    earlier.deps.owned.len(),
                ));
            }
        }
    }
}

} // verus!
