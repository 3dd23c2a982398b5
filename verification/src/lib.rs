//! Rewriting a sequential chain of awaited operations into one jointly
//! polled operation.
//!
//! The expression-tree model lives in [`ast`]; the collector and rewriter
//! that gather every suspend-point of an asynchronous body and replace them
//! with a single join live in [`transform`]. The join combinator that drives
//! the gathered tasks — polling every pending one exactly once per step and
//! yielding the results in binding order exactly once — lives in [`join`],
//! against the polling contract of [`task`]. An echo service double
//! ([`echo`]), an evaluator for suspend-free code ([`eval`]) and a manual
//! driver for rewritten bodies ([`run`]) make the whole pipeline executable.

pub mod ast;
pub mod echo;
pub mod eval;
pub mod join;
pub mod run;
pub mod task;
pub mod transform;
