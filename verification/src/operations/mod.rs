//! Typing and evaluation of unary and binary operators.

pub mod unary;
pub mod binary;
