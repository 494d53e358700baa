//! Lists of typed fields whose elaboration has to wait: for a type that is declared further on, or
//! for a field type that is an expression of its own. Once everything has landed the list is walked
//! again, with the results of the expressions fed back in order.

use super::action::{Action, ActionKind, ActionView};
use crate::error::{
    propagated, raised, ErrorKindView, ErrorView, KError, KErrorKind, TraceFrame,
};
use crate::ktype::{children, field_types, Field, KType, TypeNode, TypeRegistry};
use crate::outcome::{
    awaiting, dep_error_frame, dep_frame, fail, failed, finished, own_dispatch, producer_deps,
    request_deps, Continuation, Dep, DepPlacement, DepRequest, Finish, FinishId, FinishView,
    Outcome, OutcomeView, ParkDeps,
};
use crate::scope::LexicalFrame;
use crate::symbol::{Labels, Symbol};
use crate::value::{Carried, ExprId, ProducerId};
use vstd::prelude::*;
use vstd::string::StringExecFns;

verus! {

/// Which tokens name a field.
#[derive(Clone, Copy, PartialEq, Eq, Structural, Debug)]
pub enum FieldNameKind {
    Identifier,
    Type,
    IdentifierOrType,
}

/// The noun that a diagnostic names a field list by.
#[derive(Clone, Copy, PartialEq, Eq, Structural, Debug)]
pub struct FieldListContext {
    pub list: Symbol,
}

/// What a walk over a field list came to.
pub enum FieldListOutcome {
    Done(Vec<Field>),
    Malformed(String),
    /// The walk has to wait for these binders and for these expressions.
    Pending { awaited_producers: Vec<ProducerId>, sub_dispatches: Vec<ExprId> },
}

/// The content of a [`FieldListOutcome`].
pub enum FieldListView {
    Done(Seq<Field>),
    Malformed(Seq<char>),
    Pending { awaited_producers: Seq<ProducerId>, sub_dispatches: Seq<ExprId> },
}

impl View for FieldListOutcome {
    type V = FieldListView;

    open spec fn view(&self) -> FieldListView {
        match *self {
            FieldListOutcome::Done(fields) => FieldListView::Done(fields@),
            FieldListOutcome::Malformed(text) => FieldListView::Malformed(text@),
            FieldListOutcome::Pending { awaited_producers, sub_dispatches } =>
                FieldListView::Pending {
                awaited_producers: awaited_producers@,
                sub_dispatches: sub_dispatches@,
            },
        }
    }
}

/// The text behind a list whose second walk still has to wait.
pub const STILL_PENDING: &'static str =
    ": forward type reference still unresolved after dep-finish wake";

/// What the second walk over a list comes to. Everything that the first walk waited for has landed,
/// so a walk that has to wait again is an error.
pub open spec fn rewalked(
    labels: &Labels,
    context: FieldListContext,
    error_frame: Option<TraceFrame>,
    walked: FieldListView,
) -> Result<Seq<Field>, ErrorView> {
    match walked {
        FieldListView::Done(fields) => Ok(fields),
        FieldListView::Malformed(text) => Err(
            propagated(raised(ErrorKindView::shape_error(text)), error_frame),
        ),
        FieldListView::Pending { .. } => Err(
            raised(ErrorKindView::shape_error(labels.text_of(context.list) + STILL_PENDING@)),
        ),
    }
}

/// Takes the second walk over a list.
pub fn rewalk_fields(
    labels: &Labels,
    context: FieldListContext,
    error_frame: Option<TraceFrame>,
    walked: FieldListOutcome,
) -> (r: Result<Vec<Field>, KError>)
    ensures
        match r {
            Ok(fields) => rewalked(labels, context, error_frame, walked@) == Ok::<
                Seq<Field>,
                ErrorView,
            >(fields@),
            Err(e) => rewalked(labels, context, error_frame, walked@) == Err::<
                Seq<Field>,
                ErrorView,
            >(e@),
        },
{
    match walked {
        FieldListOutcome::Done(fields) => Ok(fields),
        FieldListOutcome::Malformed(text) => {
            let error = KError::new(KErrorKind::shape_error(text));
            match error_frame {
                Some(frame) => Err(error.with_frame(frame)),
                None => Err(error),
            }
        },
        FieldListOutcome::Pending { .. } => {
            let mut text = labels.render(context.list);
            text.append(STILL_PENDING);
            Err(KError::new(KErrorKind::shape_error(text)))
        },
    }
}

/// The state that the second walk runs under.
pub struct FieldListRewalk {
    pub fields: ExprId,
    pub context: FieldListContext,
    pub name_kind: FieldNameKind,
    pub threaded: Vec<Symbol>,
    pub window: Option<usize>,
    pub chain: Option<LexicalFrame>,
    pub error_frame: Option<TraceFrame>,
}

impl FieldListRewalk {
    /// Takes the second walk over the list.
    pub fn run(&self, labels: &Labels, walked: FieldListOutcome) -> (r: Result<Vec<Field>, KError>)
        ensures
            match r {
                Ok(fields) => rewalked(labels, self.context, self.error_frame, walked@) == Ok::<
                    Seq<Field>,
                    ErrorView,
                >(fields@),
                Err(e) => rewalked(labels, self.context, self.error_frame, walked@) == Err::<
                    Seq<Field>,
                    ErrorView,
                >(e@),
            },
    {
        rewalk_fields(labels, self.context, self.error_frame, walked)
    }
}

/// A field list that has to wait.
pub struct FieldListDeferral {
    pub awaited_producers: Vec<ProducerId>,
    pub sub_dispatches: Vec<ExprId>,
    pub walk: FieldListRewalk,
}

/// What a deferred list waits for: the binders first, then every expression in order.
pub open spec fn deferral_deps(awaited: Seq<ProducerId>, subs: Seq<ExprId>) -> Seq<Dep> {
    producer_deps(awaited) + request_deps(subs.map_values(|expr: ExprId| own_dispatch(expr)))
}

impl FieldListDeferral {
    /// A deferral that threads no name, opens no window and adds no frame.
    pub fn new(
        fields: ExprId,
        awaited_producers: Vec<ProducerId>,
        sub_dispatches: Vec<ExprId>,
        context: FieldListContext,
        name_kind: FieldNameKind,
    ) -> (r: FieldListDeferral)
        ensures
            r.awaited_producers@ == awaited_producers@,
            r.sub_dispatches@ == sub_dispatches@,
            r.walk.fields == fields,
            r.walk.context == context,
            r.walk.name_kind == name_kind,
            r.walk.threaded@.len() == 0,
            r.walk.window is None,
            r.walk.chain is None,
            r.walk.error_frame is None,
    {
        FieldListDeferral {
            awaited_producers,
            sub_dispatches,
            walk: FieldListRewalk {
                fields,
                context,
                name_kind,
                threaded: Vec::new(),
                window: None,
                chain: None,
                error_frame: None,
            },
        }
    }

    /// Threads the names that a declaration refers to itself by.
    pub fn with_threaded(self, names: Vec<Symbol>) -> (r: FieldListDeferral)
        ensures
            r == (FieldListDeferral {
                walk: FieldListRewalk { threaded: names, ..self.walk },
                ..self
            }),
    {
        FieldListDeferral {
            awaited_producers: self.awaited_producers,
            sub_dispatches: self.sub_dispatches,
            walk: FieldListRewalk { threaded: names, ..self.walk },
        }
    }

    /// Sets the declaration window that the first walk ran in.
    pub fn with_window(self, window: usize) -> (r: FieldListDeferral)
        ensures
            r == (FieldListDeferral {
                walk: FieldListRewalk { window: Some(window), ..self.walk },
                ..self
            }),
    {
        FieldListDeferral {
            awaited_producers: self.awaited_producers,
            sub_dispatches: self.sub_dispatches,
            walk: FieldListRewalk { window: Some(window), ..self.walk },
        }
    }

    /// Sets the lexical position that field names are resolved at.
    pub fn with_chain(self, chain: Option<LexicalFrame>) -> (r: FieldListDeferral)
        ensures
            r == (FieldListDeferral { walk: FieldListRewalk { chain, ..self.walk }, ..self }),
    {
        FieldListDeferral {
            awaited_producers: self.awaited_producers,
            sub_dispatches: self.sub_dispatches,
            walk: FieldListRewalk { chain, ..self.walk },
        }
    }

    /// Sets the frame that a shape error of the list carries.
    pub fn with_error_frame(self, frame: TraceFrame) -> (r: FieldListDeferral)
        ensures
            r == (FieldListDeferral {
                walk: FieldListRewalk { error_frame: Some(frame), ..self.walk },
                ..self
            }),
    {
        FieldListDeferral {
            awaited_producers: self.awaited_producers,
            sub_dispatches: self.sub_dispatches,
            walk: FieldListRewalk { error_frame: Some(frame), ..self.walk },
        }
    }

    /// The second walk, what it waits for, and where the results of the expressions begin.
    pub fn into_parts(self) -> (r: (FieldListRewalk, Vec<Dep>, usize))
        ensures
            r.0 == self.walk,
            r.1@ == deferral_deps(self.awaited_producers@, self.sub_dispatches@),
            r.2 == self.awaited_producers@.len(),
    {
        let mut deps: Vec<Dep> = Vec::new();
        let mut i: usize = 0;
        let ghost awaited = producer_deps(self.awaited_producers@);
        while i < self.awaited_producers.len()
            invariant
                i <= self.awaited_producers.len(),
                awaited == producer_deps(self.awaited_producers@),
                deps@ == awaited.take(i as int),
            decreases self.awaited_producers.len() - i,
        {
            deps.push(Dep::Producer(self.awaited_producers[i]));
            assert(awaited.take(i as int + 1) =~= awaited.take(i as int).push(awaited[i as int]));
            i = i + 1;
        }
        assert(awaited.take(i as int) =~= awaited);
        let first_sub: usize = self.awaited_producers.len();
        let ghost all = deferral_deps(self.awaited_producers@, self.sub_dispatches@);
        assert(all.take(first_sub as int) =~= deps@);
        let mut j: usize = 0;
        while j < self.sub_dispatches.len()
            invariant
                j <= self.sub_dispatches.len(),
                first_sub == self.awaited_producers@.len(),
                all == deferral_deps(self.awaited_producers@, self.sub_dispatches@),
                deps@ == all.take(first_sub as int + j as int),
            decreases self.sub_dispatches.len() - j,
        {
            deps.push(
                Dep::Request(
                    DepRequest::Dispatch {
                        expr: self.sub_dispatches[j],
                        placement: DepPlacement::OwnScope,
                    },
                ),
            );
            assert(all.take(first_sub as int + j as int + 1) =~= all.take(
                first_sub as int + j as int,
            ).push(all[first_sub as int + j as int]));
            j = j + 1;
        }
        assert(all.take(first_sub as int + j as int) =~= all);
        (self.walk, deps, first_sub)
    }

    /// Waits and then walks a list that belongs to no declaration.
    pub fn outcome(self) -> (r: Outcome)
        requires
            self.walk.threaded@.len() == 0,
            self.walk.window is None,
            self.walk.error_frame is None,
        ensures
            r@ == awaiting(
                deferral_deps(self.awaited_producers@, self.sub_dispatches@),
                Some(dep_frame()),
                FinishView::FieldList {
                    fields: self.walk.fields,
                    first_sub: self.awaited_producers.len(),
                    error_frame: None,
                },
            ),
    {
        let (walk, deps, first_sub) = self.into_parts();
        Outcome::Park {
            deps: ParkDeps::List(deps),
            continuation: Continuation::Finish(
                Finish::FieldList { fields: walk.fields, first_sub, error_frame: None },
            ),
            error_frame: Some(dep_error_frame()),
        }
    }

    /// Waits on behalf of a declaration, whose own continuation takes the second walk.
    pub fn action(self, finish: FinishId) -> (r: (FieldListRewalk, Action, usize))
        ensures
            r.0 == self.walk,
            r.1.effects@.len() == 0,
            r.1.next@ == (ActionView::AwaitDeps {
                deps: deferral_deps(self.awaited_producers@, self.sub_dispatches@),
                finish,
            }),
            r.2 == self.awaited_producers@.len(),
    {
        let (walk, deps, first_sub) = self.into_parts();
        (walk, Action { effects: Vec::new(), next: ActionKind::AwaitDeps { deps, finish } }, first_sub)
    }
}

/// The results that the second walk is fed: those of the expressions.
pub fn feed_of(results: &Vec<Carried>, first_sub: usize) -> (r: Vec<Carried>)
    requires
        first_sub <= results@.len(),
    ensures
        r@ == results@.skip(first_sub as int),
{
    let mut r: Vec<Carried> = Vec::new();
    let mut i: usize = first_sub;
    let ghost all = results@.skip(first_sub as int);
    while i < results.len()
        invariant
            first_sub <= i <= results.len(),
            all == results@.skip(first_sub as int),
            r@ == all.take(i as int - first_sub as int),
        decreases results.len() - i,
    {
        r.push(results[i]);
        assert(all.take(i as int + 1 - first_sub as int) =~= all.take(
            i as int - first_sub as int,
        ).push(results@[i as int]));
        i = i + 1;
    }
    assert(all.take(i as int - first_sub as int) =~= all);
    r
}

/// Whether the slot has come to the type of records with exactly the given fields, and the registry
/// to that type more where it did not have it.
pub open spec fn finished_with_record(
    before: &TypeRegistry,
    after: &TypeRegistry,
    fields: Seq<Field>,
    outcome: OutcomeView,
) -> bool {
    exists|own: KType|
        {
            &&& #[trigger] after.gained_record(before, fields, own)
            &&& outcome == finished(Carried::Type(own))
        }
}

/// Whether every field type is one that the registry holds.
pub open spec fn fields_held(types: &TypeRegistry, fields: Seq<Field>) -> bool {
    forall|i: int| 0 <= i < fields.len() ==> types.holds((#[trigger] fields[i]).ktype)
}

/// Comes to the type of records with the given fields.
fn finish_record(types: &mut TypeRegistry, fields: Vec<Field>) -> (r: Outcome)
    requires
        old(types).wf(),
        fields_held(old(types), fields@),
    ensures
        final(types).wf(),
        final(types).extends(old(types)),
        finished_with_record(old(types), final(types), fields@, r@),
{
    proof {
        let node = TypeNode::Record { fields };
        assert forall|k: int| 0 <= k < children(node).len() implies crate::ktype::precedes(
            #[trigger] children(node)[k],
            types.nodes@.len() as int,
        ) by {
            assert(types.holds(fields@[k].ktype));
            assert(field_types(fields@)[k] == fields@[k].ktype);
        }
    }
    let ghost given = fields@;
    let own = types.record(fields);
    assert(types.gained_record(old(types), given, own));
    Outcome::Done(Ok(Carried::Type(own)))
}

/// What a record type comes to, given what the walk over its fields came to.
pub open spec fn record_type_decided(
    after: &TypeRegistry,
    before: &TypeRegistry,
    fields: ExprId,
    walked: FieldListView,
    outcome: OutcomeView,
) -> bool {
    match walked {
        FieldListView::Done(pairs) => finished_with_record(
            before,
            after,
            pairs,
            outcome,
        ),
        FieldListView::Malformed(text) => after.nodes@ == before.nodes@ && outcome == failed(
            raised(ErrorKindView::shape_error(text)),
        ),
        FieldListView::Pending { awaited_producers, sub_dispatches } => after.nodes@
            == before.nodes@ && outcome == awaiting(
            deferral_deps(awaited_producers, sub_dispatches),
            Some(dep_frame()),
            FinishView::FieldList {
                fields,
                first_sub: awaited_producers.len() as usize,
                error_frame: None,
            },
        ),
    }
}

/// Whether a walk came to types that the registry holds.
pub open spec fn walk_held(types: &TypeRegistry, walked: FieldListView) -> bool {
    walked matches FieldListView::Done(fields) ==> fields_held(types, fields)
}

/// Elaborates a record type, given what the walk over its fields came to.
pub fn elaborate_record_value(
    types: &mut TypeRegistry,
    fields: ExprId,
    context: FieldListContext,
    walked: FieldListOutcome,
) -> (r: Outcome)
    requires
        old(types).wf(),
        walk_held(old(types), walked@),
    ensures
        final(types).wf(),
        final(types).extends(old(types)),
        record_type_decided(final(types), old(types), fields, walked@, r@),
{
    match walked {
        FieldListOutcome::Done(pairs) => finish_record(types, pairs),
        FieldListOutcome::Malformed(text) => fail(KError::new(KErrorKind::shape_error(text))),
        FieldListOutcome::Pending { awaited_producers, sub_dispatches } => FieldListDeferral::new(
            fields,
            awaited_producers,
            sub_dispatches,
            context,
            FieldNameKind::IdentifierOrType,
        ).outcome(),
    }
}

/// What a deferred record type comes to, given what its second walk came to.
pub open spec fn record_type_landed(
    after: &TypeRegistry,
    before: &TypeRegistry,
    labels: &Labels,
    context: FieldListContext,
    walked: FieldListView,
    outcome: OutcomeView,
) -> bool {
    match rewalked(labels, context, None, walked) {
        Ok(fields) => finished_with_record(before, after, fields, outcome),
        Err(e) => after.nodes@ == before.nodes@ && outcome == failed(e),
    }
}

/// Comes to a deferred record type, given what its second walk came to.
pub fn finish_record_value(
    types: &mut TypeRegistry,
    labels: &Labels,
    context: FieldListContext,
    walked: FieldListOutcome,
) -> (r: Outcome)
    requires
        old(types).wf(),
        walk_held(old(types), walked@),
    ensures
        final(types).wf(),
        final(types).extends(old(types)),
        record_type_landed(final(types), old(types), labels, context, walked@, r@),
{
    match rewalk_fields(labels, context, None, walked) {
        Ok(fields) => finish_record(types, fields),
        Err(e) => fail(e),
    }
}

/// The second walk is fed one result per expression, each the result of that expression's own
/// dispatch, in order.
pub proof fn feed_lines_up_with_expressions(
    awaited: Seq<ProducerId>,
    subs: Seq<ExprId>,
    results: Seq<Carried>,
    i: int,
)
    requires
        results.len() == deferral_deps(awaited, subs).len(),
        0 <= i < subs.len(),
    ensures
        results.skip(awaited.len() as int).len() == subs.len(),
        deferral_deps(awaited, subs)[awaited.len() + i] == Dep::Request(own_dispatch(subs[i])),
        results.skip(awaited.len() as int)[i] == results[awaited.len() + i],
{
}

} // verus!
