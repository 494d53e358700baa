//! Errors: what went wrong, and the frames that it passed on its way out.

use crate::ast::WorkingPart;
use crate::text::owned;
use crate::value::{Carried, ExprId};
use vstd::prelude::*;

verus! {

/// Where a frame of an error trace was added.
#[derive(Clone, Copy, PartialEq, Eq, Structural, Debug)]
pub enum FrameLabel {
    /// Binding the arguments of a call.
    Bind,
    /// Waiting for the claims that overload resolution leaned on.
    DispatchPark,
    /// Reducing an operator chain.
    OperatorChain,
    /// Resolving the bare names of an expression.
    WrapResolve,
    /// Waiting for dependencies before going on.
    DepFinish,
    /// Combining the results of dependencies.
    Combine,
    /// Building a dict literal.
    Dict,
    /// Elaborating a list of typed fields.
    FieldList,
}

/// One frame of an error trace.
#[derive(Clone, Copy, PartialEq, Eq, Structural, Debug)]
pub struct TraceFrame {
    pub label: FrameLabel,
    pub expr: Option<ExprId>,
}

/// What an error speaks of.
#[derive(Clone, Copy, PartialEq, Eq, Structural, Debug)]
pub enum Subject {
    Expr(ExprId),
    Value(Carried),
    Part(WorkingPart),
}

/// The text of an error. How a subject is rendered is for the host to say, so a text that shows one
/// is kept in the pieces around it.
pub enum Message {
    Plain(String),
    /// `before`, the rendering of `shown`, and `after`.
    Showing { before: String, shown: Subject, after: String },
}

/// The content of a [`Message`].
pub enum MessageView {
    Plain(Seq<char>),
    Showing { before: Seq<char>, shown: Subject, after: Seq<char> },
}

impl View for Message {
    type V = MessageView;

    open spec fn view(&self) -> MessageView {
        match *self {
            Message::Plain(text) => MessageView::Plain(text@),
            Message::Showing { before, shown, after } => MessageView::Showing {
                before: before@,
                shown,
                after: after@,
            },
        }
    }
}

/// What went wrong.
#[allow(inconsistent_fields)]
pub enum KErrorKind {
    TypeMismatch { arg: String, expected: String, got: String },
    ArityMismatch { expected: usize, got: usize },
    ShapeError(Message),
    UnboundName(String),
    MissingArg(String),
    DispatchFailed { subject: Subject, reason: Message },
    AmbiguousDispatch { expr: ExprId, candidates: usize },
    NestedBinder { expr: ExprId, suggest_flat: bool },
    SchedulerDeadlock { pending: usize, sample: String },
    User(String),
}

/// The content of a [`KErrorKind`].
#[allow(inconsistent_fields)]
pub enum ErrorKindView {
    TypeMismatch { arg: Seq<char>, expected: Seq<char>, got: Seq<char> },
    ArityMismatch { expected: usize, got: usize },
    ShapeError(MessageView),
    UnboundName(Seq<char>),
    MissingArg(Seq<char>),
    DispatchFailed { subject: Subject, reason: MessageView },
    AmbiguousDispatch { expr: ExprId, candidates: usize },
    NestedBinder { expr: ExprId, suggest_flat: bool },
    SchedulerDeadlock { pending: usize, sample: Seq<char> },
    User(Seq<char>),
}

impl View for KErrorKind {
    type V = ErrorKindView;

    open spec fn view(&self) -> ErrorKindView {
        match *self {
            KErrorKind::TypeMismatch { arg, expected, got } => ErrorKindView::TypeMismatch {
                arg: arg@,
                expected: expected@,
                got: got@,
            },
            KErrorKind::ArityMismatch { expected, got } => ErrorKindView::ArityMismatch {
                expected,
                got,
            },
            KErrorKind::ShapeError(text) => ErrorKindView::ShapeError(text@),
            KErrorKind::UnboundName(name) => ErrorKindView::UnboundName(name@),
            KErrorKind::MissingArg(name) => ErrorKindView::MissingArg(name@),
            KErrorKind::DispatchFailed { subject, reason } => ErrorKindView::DispatchFailed {
                subject,
                reason: reason@,
            },
            KErrorKind::AmbiguousDispatch { expr, candidates } => ErrorKindView::AmbiguousDispatch {
                expr,
                candidates,
            },
            KErrorKind::NestedBinder { expr, suggest_flat } => ErrorKindView::NestedBinder {
                expr,
                suggest_flat,
            },
            KErrorKind::SchedulerDeadlock { pending, sample } => ErrorKindView::SchedulerDeadlock {
                pending,
                sample: sample@,
            },
            KErrorKind::User(text) => ErrorKindView::User(text@),
        }
    }
}

impl ErrorKindView {
    /// A shape error with a plain text.
    pub open spec fn shape_error(text: Seq<char>) -> ErrorKindView {
        ErrorKindView::ShapeError(MessageView::Plain(text))
    }

    /// A dispatch failure with a plain reason.
    pub open spec fn dispatch_failed(subject: Subject, reason: Seq<char>) -> ErrorKindView {
        ErrorKindView::DispatchFailed { subject, reason: MessageView::Plain(reason) }
    }
}

impl KErrorKind {
    /// A shape error with a plain text.
    pub fn shape_error(text: String) -> (r: KErrorKind)
        ensures
            r@ == ErrorKindView::shape_error(text@),
    {
        KErrorKind::ShapeError(Message::Plain(text))
    }

    /// A dispatch failure with a plain reason.
    pub fn dispatch_failed(subject: Subject, reason: String) -> (r: KErrorKind)
        ensures
            r@ == ErrorKindView::dispatch_failed(subject, reason@),
    {
        KErrorKind::DispatchFailed { subject, reason: Message::Plain(reason) }
    }
}

/// An error with its trace, innermost frame first.
pub struct KError {
    pub kind: KErrorKind,
    pub frames: Vec<TraceFrame>,
}

/// The content of a [`KError`].
#[verifier::ext_equal]
pub struct ErrorView {
    pub kind: ErrorKindView,
    pub frames: Seq<TraceFrame>,
}

impl View for KError {
    type V = ErrorView;

    open spec fn view(&self) -> ErrorView {
        ErrorView { kind: self.kind@, frames: self.frames@ }
    }
}

/// An error without a trace.
pub open spec fn raised(kind: ErrorKindView) -> ErrorView {
    ErrorView { kind, frames: Seq::empty() }
}

impl ErrorView {
    /// The error with one more frame behind its trace.
    pub open spec fn framed(self, frame: TraceFrame) -> ErrorView {
        ErrorView { frames: self.frames.push(frame), ..self }
    }
}

/// A copy of a text.
fn copy_message(message: &Message) -> (r: Message)
    ensures
        r@ == message@,
{
    match message {
        Message::Plain(text) => Message::Plain(text.clone()),
        Message::Showing { before, shown, after } => Message::Showing {
            before: before.clone(),
            shown: *shown,
            after: after.clone(),
        },
    }
}

/// A copy of an error kind.
fn copy_kind(kind: &KErrorKind) -> (r: KErrorKind)
    ensures
        r@ == kind@,
{
    match kind {
        KErrorKind::TypeMismatch { arg, expected, got } => KErrorKind::TypeMismatch {
            arg: arg.clone(),
            expected: expected.clone(),
            got: got.clone(),
        },
        KErrorKind::ArityMismatch { expected, got } => KErrorKind::ArityMismatch {
            expected: *expected,
            got: *got,
        },
        KErrorKind::ShapeError(text) => KErrorKind::ShapeError(copy_message(text)),
        KErrorKind::UnboundName(name) => KErrorKind::UnboundName(name.clone()),
        KErrorKind::MissingArg(name) => KErrorKind::MissingArg(name.clone()),
        KErrorKind::DispatchFailed { subject, reason } => KErrorKind::DispatchFailed {
            subject: *subject,
            reason: copy_message(reason),
        },
        KErrorKind::AmbiguousDispatch { expr, candidates } => KErrorKind::AmbiguousDispatch {
            expr: *expr,
            candidates: *candidates,
        },
        KErrorKind::NestedBinder { expr, suggest_flat } => KErrorKind::NestedBinder {
            expr: *expr,
            suggest_flat: *suggest_flat,
        },
        KErrorKind::SchedulerDeadlock { pending, sample } => KErrorKind::SchedulerDeadlock {
            pending: *pending,
            sample: sample.clone(),
        },
        KErrorKind::User(text) => KErrorKind::User(text.clone()),
    }
}

impl KError {
    /// An error without a trace.
    pub fn new(kind: KErrorKind) -> (r: KError)
        ensures
            r@ == raised(kind@),
    {
        let r = KError { kind, frames: Vec::new() };
        assert(r@ =~= raised(kind@));
        r
    }

    /// The error with one more frame behind its trace.
    pub fn with_frame(self, frame: TraceFrame) -> (r: KError)
        ensures
            r@ == self@.framed(frame),
    {
        let mut frames = self.frames;
        frames.push(frame);
        KError { kind: self.kind, frames }
    }

    /// A copy for a consumer of the slot that failed.
    pub fn clone_for_propagation(&self) -> (r: KError)
        ensures
            r@ == self@,
    {
        let mut frames: Vec<TraceFrame> = Vec::new();
        let mut i: usize = 0;
        while i < self.frames.len()
            invariant
                i <= self.frames.len(),
                frames@ == self.frames@.take(i as int),
            decreases self.frames.len() - i,
        {
            frames.push(self.frames[i]);
            assert(self.frames@.take(i as int + 1) =~= self.frames@.take(i as int).push(
                self.frames@[i as int],
            ));
            i = i + 1;
        }
        assert(self.frames@.take(i as int) =~= self.frames@);
        KError { kind: copy_kind(&self.kind), frames }
    }
}

/// A dispatch failure of an expression.
pub fn dispatch_failed(expr: ExprId, reason: &str) -> (r: KError)
    ensures
        r@ == raised(ErrorKindView::dispatch_failed(Subject::Expr(expr), reason@)),
{
    KError::new(KErrorKind::dispatch_failed(Subject::Expr(expr), owned(reason)))
}

/// The error of a dependency as its consumer passes it on: the same error, with the consumer's
/// frame when it has one.
pub open spec fn propagated(error: ErrorView, frame: Option<TraceFrame>) -> ErrorView {
    match frame {
        Some(own) => error.framed(own),
        None => error,
    }
}

/// Passes the error of a dependency on, under the consumer's frame when it has one.
pub fn propagate_dep_error(error: &KError, frame: Option<TraceFrame>) -> (r: KError)
    ensures
        r@ == propagated(error@, frame),
{
    let copy = error.clone_for_propagation();
    match frame {
        Some(own) => copy.with_frame(own),
        None => copy,
    }
}

/// Passing an error on changes neither what went wrong nor the frames it already has.
pub proof fn propagation_keeps_the_cause(error: ErrorView, frame: Option<TraceFrame>)
    ensures
        propagated(error, frame).kind == error.kind,
        error.frames.is_prefix_of(propagated(error, frame).frames),
{
}

} // verus!
