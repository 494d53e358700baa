//! Submission: turning an expression into the work of a new slot. A statement that declares
//! something claims what it declares before it runs, so that later siblings wait for it.

use crate::ast::{ExpressionPart, KeyElement, WorkingPart};
use crate::error::{raised, ErrorKindView, KError, KErrorKind};
use crate::outcome::{decide_error, Work, WorkView};
use crate::region::{BindKind, BinderPlan, PlanId, Region, RegionView};
use crate::scope::{overload_claim, type_claim, value_claim, ScopeLevel, TypeEntry, ValueEntry};
use crate::symbol::Symbol;
use crate::value::{ExprId, ProducerId};
use vstd::prelude::*;

verus! {

/// Where an expression is submitted.
#[derive(Clone, Copy, PartialEq, Eq, Structural, Debug)]
pub enum SubmitContext {
    /// As a statement of the program or of a block.
    Statement,
    /// As work that another expression waits for. No name is introduced there.
    SubDispatch,
}

/// What a submission comes to: the work of the new slot, and what the slot claims.
pub struct Submission {
    pub work: Work,
    pub installs: Option<PlanId>,
}

/// The content of a [`Submission`].
pub struct SubmissionView {
    pub work: WorkView,
    pub installs: Option<PlanId>,
}

impl View for Submission {
    type V = SubmissionView;

    open spec fn view(&self) -> SubmissionView {
        SubmissionView { work: self.work@, installs: self.installs }
    }
}

/// The plan of the statement that an expression is: a redundant group is the statement inside it.
pub open spec fn binder_plan(region: RegionView, expr: ExprId) -> Option<PlanId> {
    let parts = region.parts(expr);
    if parts.len() == 1 {
        match parts[0].value {
            WorkingPart::Ast(ExpressionPart::Expression(child)) => region.meta(child).plan,
            _ => region.meta(expr).plan,
        }
    } else {
        region.meta(expr).plan
    }
}

/// The plan of the statement that an expression is.
pub fn statement_binder_plan(region: &Region, expr: ExprId) -> (r: Option<PlanId>)
    ensures
        r == binder_plan(region@, expr),
{
    let parts = region.parts_of(expr);
    if parts.len() == 1 {
        if let WorkingPart::Ast(ExpressionPart::Expression(child)) = parts[0].value {
            return region.meta_of(child).plan;
        }
    }
    region.meta_of(expr).plan
}

impl RegionView {
    /// The keys of the overloads that a plan registers.
    pub open spec fn plan_buckets(self, plan: PlanId) -> Seq<Seq<KeyElement>> {
        if plan.at < self.plans.len() {
            self.plans[plan.at as int].buckets@.map_values(|key: Vec<KeyElement>| key@)
        } else {
            Seq::empty()
        }
    }

    /// The name that a plan declares.
    pub open spec fn plan_name(self, plan: PlanId) -> Option<(Symbol, BindKind)> {
        if plan.at < self.plans.len() {
            self.plans[plan.at as int].name
        } else {
            None
        }
    }

    /// How many claims a plan makes.
    pub open spec fn claim_count(self, plan: PlanId) -> nat {
        self.plan_buckets(plan).len() + if self.plan_name(plan) is Some {
            1nat
        } else {
            0nat
        }
    }
}

/// What submitting an expression comes to.
pub open spec fn submitted(region: RegionView, expr: ExprId, context: SubmitContext) -> SubmissionView {
    match (context, binder_plan(region, expr)) {
        (SubmitContext::SubDispatch, Some(plan)) => SubmissionView {
            work: WorkView::Fail(
                raised(
                    ErrorKindView::NestedBinder {
                        expr,
                        suggest_flat: region.plan_buckets(plan).len() > 0,
                    },
                ),
            ),
            installs: None,
        },
        (SubmitContext::SubDispatch, None) => SubmissionView {
            work: WorkView::Dispatch(expr),
            installs: None,
        },
        (SubmitContext::Statement, plan) => SubmissionView {
            work: WorkView::Dispatch(expr),
            installs: plan,
        },
    }
}

/// How many overloads a plan registers.
fn bucket_count(region: &Region, plan: PlanId) -> (r: usize)
    ensures
        r == region@.plan_buckets(plan).len(),
{
    if plan.at < region.plans.len() {
        region.plans[plan.at].buckets.len()
    } else {
        0
    }
}

/// A slot that fails on its first turn and claims nothing.
pub fn submit_pre_errored(error: KError) -> (r: Submission)
    ensures
        r@ == (SubmissionView { work: WorkView::Fail(error@), installs: None }),
{
    Submission { work: decide_error(error), installs: None }
}

/// Submits an expression. A declaration that is not a statement fails instead of running.
pub fn submit_expression(region: &Region, expr: ExprId, context: SubmitContext) -> (r: Submission)
    ensures
        r@ == submitted(region@, expr, context),
{
    let plan = statement_binder_plan(region, expr);
    match context {
        SubmitContext::SubDispatch => match plan {
            Some(own) => submit_pre_errored(
                KError::new(
                    KErrorKind::NestedBinder {
                        expr,
                        suggest_flat: bucket_count(region, own) > 0,
                    },
                ),
            ),
            None => Submission { work: Work::Dispatch(expr), installs: None },
        },
        SubmitContext::Statement => Submission { work: Work::Dispatch(expr), installs: plan },
    }
}

/// The value claims that a plan makes.
pub open spec fn value_claims(
    name: Option<(Symbol, BindKind)>,
    index: usize,
    edges: Seq<ProducerId>,
) -> Seq<ValueEntry> {
    match name {
        Some((own, BindKind::Value)) => seq![value_claim(own, index, edges[0])],
        _ => Seq::empty(),
    }
}

/// The type claims that a plan makes.
pub open spec fn type_claims(
    name: Option<(Symbol, BindKind)>,
    index: usize,
    edges: Seq<ProducerId>,
) -> Seq<TypeEntry> {
    match name {
        Some((own, BindKind::Type)) => seq![type_claim(own, index, edges[0])],
        _ => Seq::empty(),
    }
}

/// Which edge the first overload claim takes.
pub open spec fn first_bucket_edge(name: Option<(Symbol, BindKind)>) -> nat {
    if name is Some {
        1
    } else {
        0
    }
}

/// A copy of a key.
fn copy_key(key: &Vec<KeyElement>) -> (r: Vec<KeyElement>)
    ensures
        r@ == key@,
{
    let mut r: Vec<KeyElement> = Vec::new();
    let mut i: usize = 0;
    while i < key.len()
        invariant
            i <= key.len(),
            r@ == key@.take(i as int),
        decreases key.len() - i,
    {
        r.push(key[i]);
        assert(key@.take(i as int + 1) =~= key@.take(i as int).push(key@[i as int]));
        i = i + 1;
    }
    assert(key@.take(i as int) =~= key@);
    r
}

/// Claims what a plan declares, one edge per claim: the name first, then every overload. All claims
/// stand at the statement's own position.
pub fn stamp_claims(
    level: &mut ScopeLevel,
    region: &Region,
    plan: PlanId,
    index: usize,
    edges: &Vec<ProducerId>,
)
    requires
        edges@.len() == region@.claim_count(plan),
    ensures
        final(level).id == old(level).id,
        final(level).operators@ == old(level).operators@,
        final(level).window == old(level).window,
        final(level).values@ == old(level).values@ + value_claims(
            region@.plan_name(plan),
            index,
            edges@,
        ),
        final(level).types@ == old(level).types@ + type_claims(
            region@.plan_name(plan),
            index,
            edges@,
        ),
        final(level).overloads@.len() == old(level).overloads@.len() + region@.plan_buckets(
            plan,
        ).len(),
        old(level).overloads@ == final(level).overloads@.take(old(level).overloads@.len() as int),
        forall|k: int|
            0 <= k < region@.plan_buckets(plan).len() ==> (
            #[trigger] final(level).overloads@[old(level).overloads@.len() + k])@ == overload_claim(
                region@.plan_buckets(plan)[k],
                index,
                edges@[first_bucket_edge(region@.plan_name(plan)) + k],
            ),
{
    if plan.at >= region.plans.len() {
        assert(level.values@ + Seq::<ValueEntry>::empty() =~= level.values@);
        assert(level.types@ + Seq::<TypeEntry>::empty() =~= level.types@);
        assert(level.overloads@.take(level.overloads@.len() as int) =~= level.overloads@);
        return;
    }
    let own: &BinderPlan = &region.plans[plan.at];
    let ghost name = region@.plan_name(plan);
    let ghost values = level.values@;
    let ghost types = level.types@;
    let mut first: usize = 0;
    if let Some((declared, kind)) = own.name {
        level.install_placeholder(declared, edges[0], index, kind);
        first = 1;
    }
    proof {
        assert(level.values@ =~= values + value_claims(name, index, edges@));
        assert(level.types@ =~= types + type_claims(name, index, edges@));
        assert(level.overloads@.take(level.overloads@.len() as int) =~= level.overloads@);
    }
    let ghost base = level.overloads@;
    let ghost keys = region@.plan_buckets(plan);
    let mut k: usize = 0;
    while k < own.buckets.len()
        invariant
            k <= own.buckets.len(),
            keys == region@.plan_buckets(plan),
            plan.at < region.plans.len(),
            *own == region.plans@[plan.at as int],
            own.buckets@.len() == keys.len(),
            first == first_bucket_edge(name),
            edges@.len() == first + keys.len(),
            base == old(level).overloads@,
            name == region@.plan_name(plan),
            level.id == old(level).id,
            level.operators@ == old(level).operators@,
            level.window == old(level).window,
            level.values@ == old(level).values@ + value_claims(name, index, edges@),
            level.types@ == old(level).types@ + type_claims(name, index, edges@),
            level.overloads@.len() == base.len() + k,
            base == level.overloads@.take(base.len() as int),
            forall|j: int|
                0 <= j < k ==> (#[trigger] level.overloads@[base.len() + j])@ == overload_claim(
                    keys[j],
                    index,
                    edges@[first + j],
                ),
        decreases own.buckets.len() - k,
    {
        let ghost earlier = level.overloads@;
        level.install_pending_overload(copy_key(&own.buckets[k]), edges[first + k], index);
        proof {
            assert(level.overloads@.take(base.len() as int) =~= earlier.take(base.len() as int));
            assert(level.overloads@.last() == level.overloads@[base.len() + k]);
            assert forall|j: int| 0 <= j < k + 1 implies (#[trigger] level.overloads@[base.len()
                + j])@ == overload_claim(keys[j], index, edges@[first + j]) by {
                if j < k {
                    assert(level.overloads@.drop_last()[base.len() + j] == earlier[base.len() + j]);
                }
            }
        }
        k = k + 1;
    }
}

/// Nothing that is submitted as work for another expression claims a name.
pub proof fn only_statements_declare(region: RegionView, expr: ExprId)
    ensures
        submitted(region, expr, SubmitContext::SubDispatch).installs is None,
        binder_plan(region, expr) is Some ==> submitted(
            region,
            expr,
            SubmitContext::SubDispatch,
        ).work is Fail,
        submitted(region, expr, SubmitContext::Statement) == (SubmissionView {
            work: WorkView::Dispatch(expr),
            installs: binder_plan(region, expr),
        }),
{
}

} // verus!
