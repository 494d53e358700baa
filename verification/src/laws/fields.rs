//! Laws of field lists: what a list waits for, and what it finishes with.

use crate::decide::field_list::{
    record_type_decided, record_type_landed, rewalked, FieldListContext, FieldListView,
};
use crate::error::{ErrorKindView, MessageView, TraceFrame};
use crate::ktype::{Field, KType, TypeNode, TypeRegistry};
use crate::outcome::{
    ContinuationView, Dep, DepPlacement, DepRequest, FinishView, OutcomeView, ParkDepsView,
};
use crate::symbol::Labels;
use crate::value::{Carried, ExprId, ProducerId};
use vstd::prelude::*;

verus! {

/// A pending field list waits for each producer that it is pending on and for each of its
/// expressions, in their own order, the producers first; its fields are then read again, and the
/// results of the expressions begin where the producers end.
pub proof fn lists_wait_for_what_they_are_pending_on(
    after: &TypeRegistry,
    before: &TypeRegistry,
    fields: ExprId,
    awaited: Seq<ProducerId>,
    subs: Seq<ExprId>,
    outcome: OutcomeView,
)
    requires
        awaited.len() <= usize::MAX,
        record_type_decided(
            after,
            before,
            fields,
            FieldListView::Pending { awaited_producers: awaited, sub_dispatches: subs },
            outcome,
        ),
    ensures
        after.nodes@ == before.nodes@,
        outcome matches OutcomeView::Park { deps: ParkDepsView::List(deps), continuation, .. } && {
            &&& deps.len() == awaited.len() + subs.len()
            &&& forall|i: int|
                0 <= i < awaited.len() ==> #[trigger] deps[i] == Dep::Producer(awaited[i])
            &&& forall|i: int|
                awaited.len() <= i < deps.len() ==> #[trigger] deps[i] == Dep::Request(
                    DepRequest::Dispatch {
                        expr: subs[i - awaited.len()],
                        placement: DepPlacement::OwnScope,
                    },
                )
            &&& continuation matches ContinuationView::Finish(
                FinishView::FieldList { fields: again, first_sub, error_frame: None },
            ) && again == fields && first_sub == awaited.len()
        },
{
}

/// Whether a slot finished with the type of records that have exactly the given fields, and every
/// type that there was is what it was.
pub open spec fn finished_with_fields(
    before: &TypeRegistry,
    after: &TypeRegistry,
    fields: Seq<Field>,
    outcome: OutcomeView,
) -> bool {
    &&& outcome matches OutcomeView::Done(Ok(Carried::Type(own))) && after.node_of(own) matches Some(
        TypeNode::Record { fields: held },
    ) && held@.to_multiset() == fields.to_multiset()
    &&& forall|i: int|
        0 <= i < before.nodes@.len() ==> #[trigger] after.nodes@[i] == before.nodes@[i]
}

/// A field list whose fields are known finishes with the type of records that have exactly those
/// fields. A malformed one fails with what is wrong with it, and no type is made.
pub proof fn lists_finish_with_the_record_of_their_fields(
    after: &TypeRegistry,
    before: &TypeRegistry,
    fields: ExprId,
    walked: FieldListView,
    outcome: OutcomeView,
)
    requires
        record_type_decided(after, before, fields, walked, outcome),
    ensures
        walked matches FieldListView::Done(pairs) ==> finished_with_fields(
            before,
            after,
            pairs,
            outcome,
        ),
        walked matches FieldListView::Malformed(text) ==> after.nodes@ == before.nodes@ && (outcome
            matches OutcomeView::Done(Err(error)) && error.kind == ErrorKindView::ShapeError(
            MessageView::Plain(text),
        ) && error.frames.len() == 0),
{
    if let FieldListView::Done(pairs) = walked {
        let own = choose|own: KType| #[trigger] after.gained_record(before, pairs, own) && outcome
            == OutcomeView::Done(Ok(Carried::Type(own)));
        if !before.has_record(pairs) {
            assert forall|i: int| 0 <= i < before.nodes@.len() implies #[trigger] after.nodes@[i]
                == before.nodes@[i] by {
                assert(after.nodes@.drop_last()[i] == after.nodes@[i]);
            }
        }
    }
}

/// A field list that is read again once what it waited for has landed finishes as one whose fields
/// were known at once. One that is still pending fails, as a malformed one does, and no type is
/// made.
pub proof fn landed_lists_finish_with_the_record_of_their_fields(
    after: &TypeRegistry,
    before: &TypeRegistry,
    labels: &Labels,
    context: FieldListContext,
    walked: FieldListView,
    outcome: OutcomeView,
)
    requires
        record_type_landed(after, before, labels, context, walked, outcome),
    ensures
        walked matches FieldListView::Done(pairs) ==> finished_with_fields(
            before,
            after,
            pairs,
            outcome,
        ),
        !(walked is Done) ==> after.nodes@ == before.nodes@ && (outcome matches OutcomeView::Done(
            Err(error),
        ) && error.kind is ShapeError),
        walked matches FieldListView::Malformed(text) ==> outcome->Done_0->Err_0.kind
            == ErrorKindView::ShapeError(MessageView::Plain(text)),
        walked is Pending ==> (outcome->Done_0->Err_0.kind matches ErrorKindView::ShapeError(
            MessageView::Plain(text),
        ) && labels.text_of(context.list).is_prefix_of(text)),
{
    if let FieldListView::Done(pairs) = walked {
        lists_finish_with_the_record_of_their_fields(
            after,
            before,
            arbitrary(),
            walked,
            outcome,
        );
    }
}

/// The error of a malformed list stands under the frame that the list was read in, where there is
/// one.
pub proof fn malformed_lists_say_where_they_were_read(
    labels: &Labels,
    context: FieldListContext,
    frame: TraceFrame,
    text: Seq<char>,
)
    ensures
        rewalked(labels, context, Some(frame), FieldListView::Malformed(text)) matches Err(error)
            && error.frames.contains(frame) && error.kind == ErrorKindView::ShapeError(
            MessageView::Plain(text),
        ),
{
    let error = rewalked(labels, context, Some(frame), FieldListView::Malformed(text))->Err_0;
    assert(error.frames.last() == frame);
}

} // verus!
