//! A propositional boolean-expression engine: a configurable tokenizer, an
//! operator-precedence (shunting-yard) parser, a postfix stack evaluator, and
//! an exhaustive truth-table enumerator over all assignments of an
//! expression's free variables.

use vstd::prelude::*;

pub mod evaluator;
pub mod func;
pub mod lexer;
pub mod literals;
pub mod parallel;
pub mod parser;
pub mod persist;
pub mod state;
pub mod tester;
pub mod token;

pub use lexer::Lexer;
pub use literals::TokenLiterals;
pub use parser::Parser;
pub use state::State;
pub use tester::Tester;
pub use token::Token;
pub use token::Tokens;

verus! {

/// The errors this engine can report.
#[derive(Debug, Clone, Copy, PartialEq, Eq, Structural)]
pub enum Error {
    /// Unbalanced parentheses: a closing parenthesis with nothing open, or a
    /// parenthesis still open at the end of the input.
    MismatchedParenthesis,
    /// A requested variable count does not fit the bit width of the packed
    /// state representation.
    CapacityError,
    /// A malformed postfix program was discovered at evaluation time: an
    /// operator found too few operands, or more than one value remained.
    EvaluationDefect,
    /// A token kind was left with no spellings in a serialized configuration.
    MissingTokenKind,
}

} // verus!
