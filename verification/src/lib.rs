//! Verified decision core of the Koan dispatcher.

pub mod ambient;
pub mod ast;
pub mod decide;
pub mod dispatch;
pub mod error;
pub mod function;
pub mod ktype;
pub mod laws;
pub mod matching;
pub mod outcome;
pub mod region;
pub mod run;
pub mod scope;
pub mod symbol;
pub mod text;
pub mod type_query;
pub mod value;
