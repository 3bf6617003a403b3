//! A tiny strict, first-order functional language whose only closures are
//! heap-resident partial applications.
//!
//! The front end turns a text into tokens ([`lexer`]), tokens into
//! definitions ([`parser`], by the grammar of [`grammar`]) and definitions
//! into a checked program ([`module`], by the rules of [`validity`]). The
//! evaluator ([`interpreter`]) runs a program on a bounded call stack and a
//! bounded, append-only arena of closure records, and ends every run in a
//! value or in a fault ([`value`]). What evaluation means is defined in
//! [`semantics`]; [`theorems`], [`safety`] and [`writing`] hold what is proved
//! of evaluation, of checked programs and of the grammar.

pub mod expr;
pub mod grammar;
pub mod interpreter;
pub mod lexer;
pub mod module;
pub mod parser;
pub mod pretty;
pub mod safety;
pub mod semantics;
pub mod text;
pub mod theorems;
pub mod validity;
pub mod value;
pub mod writing;
