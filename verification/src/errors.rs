//! The error kinds of the three pipeline stages.
//!
//! Each stage has its own error type, and the pipeline entry point tags a
//! failure with the stage it came from, so a caller can match failures
//! exhaustively and tell the stages apart.

use vstd::prelude::*;

verus! {

/// A failure raised while scanning the input text.
#[derive(Clone, Copy, Debug, PartialEq, Eq, Structural)]
pub enum LexError {
    /// A character that starts no token.
    UnexpectedCharacter(char),
    /// A numeric literal with a second decimal point.
    MultipleDecimalPoints,
}

/// A failure raised while parsing the token sequence.
#[derive(Clone, Copy, Debug, PartialEq, Eq, Structural)]
pub enum ParseError {
    /// A `(` whose sub-expression is not followed by `)`.
    UnmatchedParenthesis,
    /// An operator that has no valid role at the point it stands
    /// (an operator with no prefix binding power at the start of an
    /// expression).
    InvalidOperator(char),
    /// The tokens end where an expression has to start.
    UnexpectedEndOfInput,
}

/// A failure raised while evaluating a syntax tree.
#[derive(Clone, Debug)]
pub enum EvalError {
    /// A variable was read before any value was assigned to it.
    UnboundVariable(String),
    /// The left side of `=` is not a plain variable.
    InvalidAssignmentTarget,
    /// An operator/arity combination that the evaluator does not define:
    /// an internal defect of the tree builder, not a user mistake.
    MalformedTree,
    /// The host answered a numeric request with the wrong kind of reply:
    /// a defect of the host, not a user mistake.
    ReplyMismatch,
}

/// The mathematical shape of an `EvalError`, with the variable name as a
/// sequence of characters.
pub enum EvalErrorModel {
    UnboundVariable(Seq<char>),
    InvalidAssignmentTarget,
    MalformedTree,
    ReplyMismatch,
}

impl View for EvalError {
    type V = EvalErrorModel;

    open spec fn view(&self) -> EvalErrorModel {
        match self {
            EvalError::UnboundVariable(name) => EvalErrorModel::UnboundVariable(name@),
            EvalError::InvalidAssignmentTarget => EvalErrorModel::InvalidAssignmentTarget,
            EvalError::MalformedTree => EvalErrorModel::MalformedTree,
            EvalError::ReplyMismatch => EvalErrorModel::ReplyMismatch,
        }
    }
}

/// A failure of the whole pipeline, tagged with the stage that raised it.
#[derive(Clone, Debug)]
pub enum InterpretError {
    Lex(LexError),
    Parse(ParseError),
    Eval(EvalError),
}

/// The mathematical shape of an `InterpretError`.
pub enum InterpretErrorModel {
    Lex(LexError),
    Parse(ParseError),
    Eval(EvalErrorModel),
}

impl View for InterpretError {
    type V = InterpretErrorModel;

    open spec fn view(&self) -> InterpretErrorModel {
        match self {
            InterpretError::Lex(e) => InterpretErrorModel::Lex(*e),
            InterpretError::Parse(e) => InterpretErrorModel::Parse(*e),
            InterpretError::Eval(e) => InterpretErrorModel::Eval(e@),
        }
    }
}

} // verus!
