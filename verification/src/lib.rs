//! A verified interpreter for a minimal eight-instruction language that
//! operates on a linear tape of byte cells.
//!
//! The pipeline has three stages: a lexer that turns source characters into
//! tokens (`token`), a parser that builds a bracket-matched instruction tree
//! (`parse`), and an executor that walks the tree against a mutable tape
//! with wrapping byte arithmetic (`exec`), following step for step the
//! fuel-bounded machine semantics of `semantics`.

pub mod exec;
pub mod parse;
pub mod semantics;
pub mod token;

pub use exec::Interpreter;
pub use exec::RunOutcome;
pub use parse::Instruction;
pub use parse::ParseError;
pub use semantics::RuntimeError;
pub use token::Token;
