//! An evaluator for Imp, a small imperative language of integers and booleans.
//!
//! A line of text is read as one instruction ([`parser`], on the tokens of
//! [`lexer`]) and evaluated in nested lexical scopes ([`namespace`]):
//! expressions in one go ([`eval`], [`operator`]), instructions step by step
//! ([`machine`]), since a loop need not end and a block reports the result of
//! each statement as it goes. What the steps add up to is stated in
//! [`semantics`]; that reading undoes writing is stated in [`unparse`] and
//! [`text`]. [`report`] holds what a shell prints.

pub mod ast;
pub mod error;
pub mod eval;
pub mod lexer;
pub mod machine;
pub mod namespace;
pub mod operator;
pub mod parser;
pub mod report;
pub mod semantics;
pub mod text;
pub mod unparse;
