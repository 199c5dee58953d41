//! A tiny compiler that lowers a `let`/`exit` arithmetic language into
//! flat, straight-line assembly text.
//!
//! The pipeline has three stages: [`lexer::Lexer`] turns source text into
//! tokens, [`parser::Parser`] builds a left-associative statement tree, and
//! [`compiler::Compiler`] flattens each binding into uniquely named data
//! slots and emits an arithmetic reduction sequence for each `exit`.

use vstd::prelude::*;

pub mod compiler;
pub mod laws;
pub mod lexer;
pub mod machine;
pub mod parser;

verus! {

/// The single failure taxonomy of the whole pass: every variant is a fatal
/// condition that aborts compilation; no partial output is usable.
#[derive(Clone, Copy, Debug, PartialEq, Eq, Structural)]
pub enum CompileError {
    /// An identifier or keyword began with a digit.
    NumberPrefixedIdentifier,
    /// An `=` appeared in the middle of a longer token.
    MisplacedEquals,
    /// An operator character outside `+`, `-`, `*`, `=` was found.
    UnsupportedOperator,
    /// A statement did not begin with `let` or `exit`.
    ExpectedStatement,
    /// `let` was not followed by an identifier.
    ExpectedIdentifier,
    /// A binding name was not followed by `=`.
    ExpectedEquals,
    /// `exit` was not followed by a literal or an identifier.
    ExpectedOperand,
    /// An arithmetic operand position held something other than a literal.
    ExpectedLiteral,
    /// An operator position held something other than `+`, `-` or `*`.
    ExpectedOperator,
    /// A statement was not terminated by a semicolon.
    ExpectedSemicolon,
    /// An operator token reached the lowerer without an operator kind.
    MissingOperatorKind,
    /// Slot naming produced a name that already exists in the slot table.
    SlotNameCollision,
    /// An operator of kind `Equals` reached the reduction loop.
    EqualsInReduction,
    /// A multiplication reached the reduction loop without a second factor.
    MissingFactor,
}

impl CompileError {
    /// A short description of the violated invariant, for diagnostics.
    pub fn message(&self) -> (r: &'static str)
        ensures
            r@ == spec_message(*self),
    {
        match self {
            CompileError::NumberPrefixedIdentifier => "an identifier or keyword cannot start with a number",
            CompileError::MisplacedEquals => "invalid use of '='",
            CompileError::UnsupportedOperator => "operator is not supported",
            CompileError::ExpectedStatement => "expected a `let` or `exit` statement",
            CompileError::ExpectedIdentifier => "expected an identifier after `let`",
            CompileError::ExpectedEquals => "expected '=' after the binding name",
            CompileError::ExpectedOperand => "expected a number or identifier after `exit`",
            CompileError::ExpectedLiteral => "expected a literal inside the expression",
            CompileError::ExpectedOperator => "expected an arithmetic operator",
            CompileError::ExpectedSemicolon => "expected ';' after the statement",
            CompileError::MissingOperatorKind => "operator token carries no operator kind",
            CompileError::SlotNameCollision => "slot name allocated twice",
            CompileError::EqualsInReduction => "equals operator reached the reduction loop",
            CompileError::MissingFactor => "multiplication lacks a second factor",
        }
    }
}

/// The description each error variant carries.
pub open spec fn spec_message(e: CompileError) -> Seq<char> {
    match e {
        CompileError::NumberPrefixedIdentifier => "an identifier or keyword cannot start with a number"@,
        CompileError::MisplacedEquals => "invalid use of '='"@,
        CompileError::UnsupportedOperator => "operator is not supported"@,
        CompileError::ExpectedStatement => "expected a `let` or `exit` statement"@,
        CompileError::ExpectedIdentifier => "expected an identifier after `let`"@,
        CompileError::ExpectedEquals => "expected '=' after the binding name"@,
        CompileError::ExpectedOperand => "expected a number or identifier after `exit`"@,
        CompileError::ExpectedLiteral => "expected a literal inside the expression"@,
        CompileError::ExpectedOperator => "expected an arithmetic operator"@,
        CompileError::ExpectedSemicolon => "expected ';' after the statement"@,
        CompileError::MissingOperatorKind => "operator token carries no operator kind"@,
        CompileError::SlotNameCollision => "slot name allocated twice"@,
        CompileError::EqualsInReduction => "equals operator reached the reduction loop"@,
        CompileError::MissingFactor => "multiplication lacks a second factor"@,
    }
}

} // verus!
