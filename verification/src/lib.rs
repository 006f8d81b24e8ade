//! A minimal interpreter for a Forth-like stack language.
//!
//! A line of source text is split into whitespace-delimited tokens and
//! evaluated against a mutable stack of signed 64-bit integers and a
//! runtime-extensible dictionary of user-defined words.  The meaning of a
//! program is given by a small-step machine over mathematical configurations
//! (see `semantics`), and the executable evaluator is proved to follow that
//! machine step by step.

use vstd::prelude::*;

pub mod dict;
pub mod eval;
pub mod laws;
pub mod numbers;
pub mod report;
pub mod semantics;
pub mod tokens;

verus! {

/// A single token of source text: a whitespace-delimited word.
pub type Word = String;

/// Truth value pushed by the comparison words: all bits set, so that
/// `and` and `or` double as logical and bitwise operators.
pub const TRUE: i64 = -1;

/// Falsity value pushed by the comparison words.
pub const FALSE: i64 = 0;

/// Everything that ends an evaluation early.
///
/// `Code` is not a true fault: it carries the status handed to `exit`.
/// `StepLimit` reports that the configurable step budget of the evaluator
/// was exhausted before the program ended; deeply self-recursive user
/// definitions are a documented resource limit of the interpreter.
#[derive(Debug, PartialEq, Eq)]
pub enum ExecutionError {
    Code(i32),
    StackUnderflow,
    NoSuchWord(Word),
    DivisionByZero,
    StepLimit,
}

} // verus!
