//! The decide phase: every dispatch shape looks at a read-only context and answers with an
//! [`Outcome`](crate::outcome::Outcome). Nothing here writes to the scheduler; the only thing that
//! grows is the region that new nodes and objects are put in.

use crate::function::Functions;
use crate::outcome::Obligation;
use crate::scope::{LexicalFrame, Scope};
use crate::symbol::Labels;
use vstd::prelude::*;

pub mod action;
pub mod apply_callable;
pub mod classify;
pub mod constructors;
pub mod exec;
pub mod field_list;
pub mod fn_value;
pub mod head_deferred;
pub mod keyworded;
pub mod literal;
pub mod operator_chain;
pub mod resolve;
pub mod resolve_dispatch;
pub mod resolve_type_identifier;
pub mod single_poll;
pub mod staging;
pub mod submit;

verus! {

/// What a decision is made against.
pub struct DecideCtx<'a> {
    /// The scope of the slot.
    pub scope: &'a Scope,
    /// The slot's lexical position.
    pub chain: Option<&'a LexicalFrame>,
    /// The declared return that the slot's tail chain has taken on.
    pub obligation: Option<Obligation>,
    pub labels: &'a Labels,
    pub functions: &'a Functions,
    /// What the form diagnostics say of the expression under dispatch, when they recognize it.
    pub diagnosis: Option<&'a String>,
}

} // verus!
