//! A small untyped lambda calculus with booleans and natural numbers:
//! surface syntax, desugaring into core terms, and a verified
//! small-step reduction strategy.

pub mod arith;
pub mod ast;
pub mod module;
pub mod step;
pub mod subtract;
pub mod surface;
pub mod term;
pub mod types;
