//! Parsing and evaluation of arithmetic expressions given as raw bytes.
//!
//! A recursive-descent scanner reads operand and operator tokens straight
//! from the input, an operator-priority insertion algorithm places each new
//! (operator, operand) pair at the correct depth of the expression tree
//! without a separate tokenization pass, and a post-order reduction turns
//! the tree into a single value. Parse failures carry the exact byte offset
//! of the offending character in the original input.

pub mod ast;
pub mod binary_operator;
pub mod expression_tree;
pub mod operator;
pub mod parser;
