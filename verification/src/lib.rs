//! A small scripting language: scanner, recursive-descent parser, syntax tree
//! and tree-walking interpreter with lexically scoped environments. Beside
//! it stand two smaller pieces: a calculator for numbers of any length, and
//! a binary search tree.

pub mod text;
pub mod token;
pub mod scanner;
pub mod ast;
pub mod parser;
pub mod value;
pub mod environment;
pub mod interpreter;
pub mod program;
pub mod binary_tree;
pub mod calculator;
