//! A spreadsheet formula engine core: the A1 address grammar, located parse refusals, the
//! expression tree, the evaluator and the function registry.

pub mod a1;
pub mod strings;
pub mod value;
pub mod diag;
pub mod expr;
pub mod criteria;
pub mod eval;
pub mod func;
