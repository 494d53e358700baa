//! Pick-first dispatch: an overload is picked over the parts as they stand, and only then are the
//! parts that the pick needs evaluated, spliced or waited for. Where the pick depends on what a
//! part evaluates to, the parts are evaluated first and the expression is resolved again.
//!
//! The decisions are plain data here too; [`harness`] turns them into writes to the scheduler's
//! graph.

pub mod apply_callable;
pub mod bare_name;
pub mod exec;
pub mod harness;
pub mod keyworded;
pub mod literal;
pub mod operator_chain;
pub mod outcome;
pub mod resolve_dispatch;
pub mod resolve_type_expr;
pub mod single_poll;
pub mod struct_value;
pub mod submit;
