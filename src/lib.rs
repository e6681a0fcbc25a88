//! Arithmetic and boolean expressions: tokenizing, conversion to reverse
//! Polish notation, step-wise evaluation, and syntax trees.
pub mod text;
pub mod operators;
pub mod tokens;
pub mod scan;
pub mod rpn;
pub mod solver;
pub mod syntaxtree;
pub mod roundtrip;
