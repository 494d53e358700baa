//! What the operations of the library promise, stated over their inputs and results: laws that
//! hold of every scope, expression, value and graph.

pub mod aggregates;
pub mod application;
pub mod arguments;
pub mod bodies;
pub mod calls;
pub mod chains;
pub mod fields;
pub mod graph;
pub mod lanes;
pub mod literals;
pub mod matching;
pub mod overloads;
pub mod parking;
pub mod picks;
pub mod scopes;
pub mod slots;
pub mod specificity;
pub mod staging;
pub mod structs;
pub mod ties;
pub mod types;
pub mod values;
pub mod waiting;
