//! Submission of statements that may declare more than one thing: a binder form claims its own
//! names and those of the declarations that stand in its own declaration slots.

use super::harness::{Bodies, BodyEntry};
use crate::ast::{ExpressionPart, Spanned, WorkingPart};
use crate::decide::submit::{
    first_bucket_edge, stamp_claims, type_claims, value_claims,
};
use crate::error::{raised, ErrorKindView, ErrorView, KError, KErrorKind};
use crate::region::{group_in, groups_below, PlanId, Region, RegionView};
use crate::scope::{
    first_match, first_match_step, overload_claim, OverloadEntry, OverloadView, ScopeLevel,
    TypeEntry, ValueEntry,
};
use crate::value::{ExprId, ProducerId};
use vstd::prelude::*;

verus! {

/// Where an expression is submitted.
#[derive(Clone, Copy, PartialEq, Eq, Structural, Debug)]
pub enum SubmitContext {
    /// As a statement of the program or of a block: what it declares is claimed.
    Statement,
    /// As work that another expression waits for. A declaration is refused there, unless the
    /// statement around it has claimed what it declares.
    SubDispatch { binder_covered: bool },
}

/// What a new slot starts with.
pub enum SubmittedWork {
    Dispatch(ExprId),
    Fail(KError),
}

/// The content of a [`SubmittedWork`].
pub enum SubmittedWorkView {
    Dispatch(ExprId),
    Fail(ErrorView),
}

/// What a submission comes to: the work of the new slot, and what the slot claims.
pub struct Submission {
    pub work: SubmittedWork,
    pub installs: Vec<PlanId>,
}

/// The content of a [`Submission`].
#[verifier::ext_equal]
pub struct SubmissionView {
    pub work: SubmittedWorkView,
    pub installs: Seq<PlanId>,
}

impl View for Submission {
    type V = SubmissionView;

    open spec fn view(&self) -> SubmissionView {
        SubmissionView {
            work: match self.work {
                SubmittedWork::Dispatch(expr) => SubmittedWorkView::Dispatch(expr),
                SubmittedWork::Fail(error) => SubmittedWorkView::Fail(error@),
            },
            installs: self.installs@,
        }
    }
}

impl Bodies {
    /// Whether an expression is a block of statements.
    pub open spec fn is_block(&self, expr: ExprId) -> bool {
        first_match(self.entries@, |e: BodyEntry| e.body == expr) is Some
    }

    /// Whether an expression is a block of statements.
    pub fn is_statement_block(&self, expr: ExprId) -> (r: bool)
        ensures
            r == self.is_block(expr),
    {
        let ghost wanted = |e: BodyEntry| e.body == expr;
        let mut i: usize = 0;
        proof {
            assert(self.entries@.skip(0) =~= self.entries@);
        }
        while i < self.entries.len()
            invariant
                i <= self.entries.len(),
                wanted == (|e: BodyEntry| e.body == expr),
                first_match(self.entries@, wanted) == first_match(
                    self.entries@.skip(i as int),
                    wanted,
                ),
            decreases self.entries.len() - i,
        {
            proof {
                first_match_step(self.entries@, wanted, i as int);
            }
            if self.entries[i].body == expr {
                return true;
            }
            i = i + 1;
        }
        false
    }
}

/// The group that makes up the whole expression.
pub open spec fn lone_group(parts: Seq<Spanned>) -> Option<ExprId> {
    if parts.len() == 1 {
        match parts[0].value {
            WorkingPart::Ast(ExpressionPart::Expression(child)) => Some(child),
            _ => None,
        }
    } else {
        None
    }
}

impl RegionView {
    /// Whether a slot belongs to the declaration chain of a plan.
    pub open spec fn in_chain(self, plan: PlanId, slot: int) -> bool {
        plan.at < self.plans.len() && slot < self.plans[plan.at as int].chain_slots@.len()
            && self.plans[plan.at as int].chain_slots@[slot]
    }
}

/// The declaration that stands in a slot of a declaration chain.
pub open spec fn chained_child(
    region: RegionView,
    bodies: &Bodies,
    expr: ExprId,
    plan: PlanId,
    slot: int,
) -> Option<ExprId> {
    match region.parts(expr)[slot].value {
        WorkingPart::Ast(ExpressionPart::Expression(child)) => if region.in_chain(plan, slot)
            && !bodies.is_block(child) {
            Some(child)
        } else {
            None
        },
        _ => None,
    }
}

/// Everything that a statement declares, the outermost declaration first. A redundant group is the
/// statement inside it.
pub open spec fn binder_installs(region: RegionView, bodies: &Bodies, expr: ExprId) -> Seq<PlanId>
    decreases expr.at, 1nat, 0nat,
    when region.nested_in_order()
    via installs_go_inwards
{
    match lone_group(region.parts(expr)) {
        Some(child) => binder_installs(region, bodies, child),
        None => match region.meta(expr).plan {
            Some(plan) => seq![plan] + chained_installs(
                region,
                bodies,
                expr,
                plan,
                region.parts(expr).len(),
            ),
            None => Seq::empty(),
        },
    }
}

/// What the first `count` slots of a binder form declare.
pub open spec fn chained_installs(
    region: RegionView,
    bodies: &Bodies,
    expr: ExprId,
    plan: PlanId,
    count: nat,
) -> Seq<PlanId>
    decreases expr.at, 0nat, count,
    when region.nested_in_order() && count <= region.parts(expr).len()
    via chains_go_inwards
{
    if count == 0 {
        Seq::empty()
    } else {
        let earlier = chained_installs(region, bodies, expr, plan, (count - 1) as nat);
        match chained_child(region, bodies, expr, plan, count - 1) {
            Some(child) => earlier + binder_installs(region, bodies, child),
            None => earlier,
        }
    }
}

#[via_fn]
proof fn installs_go_inwards(region: RegionView, bodies: &Bodies, expr: ExprId) {
    if let Some(child) = lone_group(region.parts(expr)) {
        groups_lie_in_front(region, expr, 0);
    }
}

#[via_fn]
proof fn chains_go_inwards(
    region: RegionView,
    bodies: &Bodies,
    expr: ExprId,
    plan: PlanId,
    count: nat,
) {
    if count > 0 {
        groups_lie_in_front(region, expr, count - 1);
    }
}

proof fn groups_lie_in_front(region: RegionView, expr: ExprId, slot: int)
    requires
        region.nested_in_order(),
        0 <= slot < region.parts(expr).len(),
    ensures
        group_in(region.parts(expr)[slot]) matches Some(child) ==> child.at < expr.at,
{
    assert(groups_below(region.nodes[expr.at as int].parts, expr.at as nat));
}

/// Whether a slot belongs to the declaration chain of a plan.
fn slot_in_chain(region: &Region, plan: PlanId, slot: usize) -> (r: bool)
    ensures
        r == region@.in_chain(plan, slot as int),
{
    if plan.at < region.plans.len() && slot < region.plans[plan.at].chain_slots.len() {
        region.plans[plan.at].chain_slots[slot]
    } else {
        false
    }
}

/// Adds everything that a statement declares.
fn collect_installs(region: &Region, bodies: &Bodies, expr: ExprId, installs: &mut Vec<PlanId>)
    requires
        region@.nested_in_order(),
    ensures
        final(installs)@ == old(installs)@ + binder_installs(region@, bodies, expr),
    decreases expr.at,
{
    let ghost before = installs@;
    let parts = region.parts_of(expr);
    if parts.len() == 1 {
        if let WorkingPart::Ast(ExpressionPart::Expression(child)) = parts[0].value {
            proof {
                groups_lie_in_front(region@, expr, 0);
            }
            collect_installs(region, bodies, child, installs);
            assert(installs@ =~= before + binder_installs(region@, bodies, expr));
            return ;
        }
    }
    match region.meta_of(expr).plan {
        Some(plan) => {
            installs.push(plan);
            let mut i: usize = 0;
            assert(installs@ =~= before + (seq![plan] + chained_installs(
                region@,
                bodies,
                expr,
                plan,
                0,
            )));
            while i < parts.len()
                invariant
                    i <= parts.len(),
                    parts@ == region@.parts(expr),
                    region@.nested_in_order(),
                    installs@ == before + (seq![plan] + chained_installs(
                        region@,
                        bodies,
                        expr,
                        plan,
                        i as nat,
                    )),
                decreases parts.len() - i,
            {
                let ghost earlier = chained_installs(region@, bodies, expr, plan, i as nat);
                if let WorkingPart::Ast(ExpressionPart::Expression(child)) = parts[i].value {
                    if slot_in_chain(region, plan, i) && !bodies.is_statement_block(child) {
                        proof {
                            groups_lie_in_front(region@, expr, i as int);
                        }
                        collect_installs(region, bodies, child, installs);
                        proof {
                            let own = binder_installs(region@, bodies, child);
                            assert((before + (seq![plan] + earlier)) + own =~= before + (seq![plan]
                                + (earlier + own)));
                        }
                    }
                }
                i = i + 1;
            }
        },
        None => {
            assert(installs@ =~= before + Seq::<PlanId>::empty());
        },
    }
}

/// Everything that a statement declares.
pub fn statement_binder_installs(region: &Region, bodies: &Bodies, expr: ExprId) -> (r: Vec<PlanId>)
    requires
        region@.nested_in_order(),
    ensures
        r@ == binder_installs(region@, bodies, expr),
{
    let mut installs: Vec<PlanId> = Vec::new();
    collect_installs(region, bodies, expr, &mut installs);
    assert(installs@ =~= binder_installs(region@, bodies, expr));
    installs
}

/// What submitting an expression comes to.
pub open spec fn submitted(
    region: RegionView,
    bodies: &Bodies,
    expr: ExprId,
    context: SubmitContext,
) -> SubmissionView {
    let installs = binder_installs(region, bodies, expr);
    match context {
        SubmitContext::Statement => SubmissionView {
            work: SubmittedWorkView::Dispatch(expr),
            installs,
        },
        SubmitContext::SubDispatch { binder_covered } => SubmissionView {
            work: if !binder_covered && installs.len() > 0 {
                SubmittedWorkView::Fail(
                    raised(ErrorKindView::NestedBinder { expr, suggest_flat: false }),
                )
            } else {
                SubmittedWorkView::Dispatch(expr)
            },
            installs: Seq::empty(),
        },
    }
}

/// Submits an expression. A declaration that is neither a statement nor covered by one fails
/// instead of running.
pub fn submit_expression(region: &Region, bodies: &Bodies, expr: ExprId, context: SubmitContext) -> (r:
    Submission)
    requires
        region@.nested_in_order(),
    ensures
        r@ == submitted(region@, bodies, expr, context),
{
    let installs = statement_binder_installs(region, bodies, expr);
    match context {
        SubmitContext::Statement => Submission { work: SubmittedWork::Dispatch(expr), installs },
        SubmitContext::SubDispatch { binder_covered } => {
            let none: Vec<PlanId> = Vec::new();
            assert(none@ =~= Seq::<PlanId>::empty());
            if !binder_covered && installs.len() > 0 {
                let error = KError::new(KErrorKind::NestedBinder { expr, suggest_flat: false });
                Submission { work: SubmittedWork::Fail(error), installs: none }
            } else {
                Submission { work: SubmittedWork::Dispatch(expr), installs: none }
            }
        },
    }
}

/// The same binder for every claim of a plan.
pub open spec fn same_edge(source: ProducerId, count: nat) -> Seq<ProducerId> {
    Seq::new(count, |i: int| source)
}

/// The value claims that a run of plans makes.
pub open spec fn all_value_claims(
    region: RegionView,
    installs: Seq<PlanId>,
    index: usize,
    source: ProducerId,
) -> Seq<ValueEntry>
    decreases installs.len(),
{
    if installs.len() == 0 {
        Seq::empty()
    } else {
        all_value_claims(region, installs.drop_last(), index, source) + value_claims(
            region.plan_name(installs.last()),
            index,
            same_edge(source, region.claim_count(installs.last())),
        )
    }
}

/// The type claims that a run of plans makes.
pub open spec fn all_type_claims(
    region: RegionView,
    installs: Seq<PlanId>,
    index: usize,
    source: ProducerId,
) -> Seq<TypeEntry>
    decreases installs.len(),
{
    if installs.len() == 0 {
        Seq::empty()
    } else {
        all_type_claims(region, installs.drop_last(), index, source) + type_claims(
            region.plan_name(installs.last()),
            index,
            same_edge(source, region.claim_count(installs.last())),
        )
    }
}

/// The overload claims that a run of plans makes.
pub open spec fn all_overload_claims(
    region: RegionView,
    installs: Seq<PlanId>,
    index: usize,
    source: ProducerId,
) -> Seq<OverloadView>
    decreases installs.len(),
{
    if installs.len() == 0 {
        Seq::empty()
    } else {
        all_overload_claims(region, installs.drop_last(), index, source) + Seq::new(
            region.plan_buckets(installs.last()).len(),
            |k: int| overload_claim(region.plan_buckets(installs.last())[k], index, source),
        )
    }
}

/// The content of a run of overloads.
pub open spec fn overload_views(overloads: Seq<OverloadEntry>) -> Seq<OverloadView> {
    overloads.map_values(|entry: OverloadEntry| entry@)
}

/// How many claims a plan makes.
fn count_claims(region: &Region, plan: PlanId) -> (r: Option<usize>)
    ensures
        match r {
            Some(count) => count == region@.claim_count(plan),
            None => region@.claim_count(plan) > usize::MAX,
        },
{
    if plan.at < region.plans.len() {
        let own = &region.plans[plan.at];
        if own.name.is_some() {
            own.buckets.len().checked_add(1)
        } else {
            Some(own.buckets.len())
        }
    } else {
        Some(0)
    }
}

/// Claims everything that a statement declares for the slot behind `source`. All claims stand at
/// the statement's own position.
pub fn stamp_installs(
    level: &mut ScopeLevel,
    region: &Region,
    installs: &Vec<PlanId>,
    index: usize,
    source: ProducerId,
)
    requires
        forall|i: int|
            0 <= i < installs@.len() ==> region@.claim_count(#[trigger] installs@[i]) <= usize::MAX,
    ensures
        final(level).id == old(level).id,
        final(level).operators@ == old(level).operators@,
        final(level).window == old(level).window,
        final(level).values@ == old(level).values@ + all_value_claims(
            region@,
            installs@,
            index,
            source,
        ),
        final(level).types@ == old(level).types@ + all_type_claims(
            region@,
            installs@,
            index,
            source,
        ),
        overload_views(final(level).overloads@) == overload_views(old(level).overloads@)
            + all_overload_claims(region@, installs@, index, source),
{
    let mut i: usize = 0;
    proof {
        assert(installs@.take(0) =~= Seq::<PlanId>::empty());
        assert(level.values@ + Seq::<ValueEntry>::empty() =~= level.values@);
        assert(level.types@ + Seq::<TypeEntry>::empty() =~= level.types@);
        assert(overload_views(level.overloads@) + Seq::<OverloadView>::empty() =~= overload_views(
            level.overloads@,
        ));
    }
    while i < installs.len()
        invariant
            i <= installs.len(),
            forall|k: int|
                0 <= k < installs@.len() ==> region@.claim_count(#[trigger] installs@[k])
                    <= usize::MAX,
            level.id == old(level).id,
            level.operators@ == old(level).operators@,
            level.window == old(level).window,
            level.values@ == old(level).values@ + all_value_claims(
                region@,
                installs@.take(i as int),
                index,
                source,
            ),
            level.types@ == old(level).types@ + all_type_claims(
                region@,
                installs@.take(i as int),
                index,
                source,
            ),
            overload_views(level.overloads@) == overload_views(old(level).overloads@)
                + all_overload_claims(region@, installs@.take(i as int), index, source),
        decreases installs.len() - i,
    {
        let plan = installs[i];
        let ghost before = level.overloads@;
        let ghost values = level.values@;
        let ghost types = level.types@;
        let mut edges: Vec<ProducerId> = Vec::new();
        let count: usize = match count_claims(region, plan) {
            Some(own) => own,
            None => vstd::pervasive::unreached(),
        };
        while edges.len() < count
            invariant
                edges.len() <= count,
                edges@ == same_edge(source, edges@.len()),
            decreases count - edges.len(),
        {
            let ghost earlier = edges@;
            edges.push(source);
            assert(edges@ =~= same_edge(source, earlier.len() + 1));
        }
        stamp_claims(level, region, plan, index, &edges);
        proof {
            let run = installs@.take(i as int + 1);
            assert(run.drop_last() =~= installs@.take(i as int));
            assert(run.last() == plan);
            let own = Seq::new(
                region@.plan_buckets(plan).len(),
                |k: int| overload_claim(region@.plan_buckets(plan)[k], index, source),
            );
            assert(overload_views(level.overloads@) =~= overload_views(before) + own) by {
                assert forall|k: int| 0 <= k < level.overloads@.len() implies #[trigger] overload_views(
                    level.overloads@,
                )[k] == (overload_views(before) + own)[k] by {
                    if k < before.len() {
                        assert(level.overloads@.take(before.len() as int)[k] == before[k]);
                    } else {
                        let j = k - before.len();
                        assert(level.overloads@[before.len() + j]@ == overload_claim(
                            region@.plan_buckets(plan)[j],
                            index,
                            edges@[first_bucket_edge(region@.plan_name(plan)) + j],
                        ));
                    }
                }
            }
            assert(level.values@ =~= old(level).values@ + all_value_claims(
                region@,
                run,
                index,
                source,
            ));
            assert(level.types@ =~= old(level).types@ + all_type_claims(
                region@,
                run,
                index,
                source,
            ));
            assert(overload_views(level.overloads@) =~= overload_views(old(level).overloads@)
                + all_overload_claims(region@, run, index, source));
        }
        i = i + 1;
    }
    assert(installs@.take(i as int) =~= installs@);
}

/// Nothing that is submitted as work for another expression claims a name, and a declaration there
/// runs only where the statement around it has claimed what it declares.
pub proof fn only_statements_claim(
    region: RegionView,
    bodies: &Bodies,
    expr: ExprId,
    binder_covered: bool,
)
    ensures
        submitted(
            region,
            bodies,
            expr,
            SubmitContext::SubDispatch { binder_covered },
        ).installs.len() == 0,
        submitted(region, bodies, expr, SubmitContext::SubDispatch { binder_covered }).work is Fail
            <==> !binder_covered && submitted(
            region,
            bodies,
            expr,
            SubmitContext::Statement,
        ).installs.len() > 0,
{
}

} // verus!
