//! The errors of the namespace, the evaluator and the parser.

use vstd::prelude::*;
use crate::ast::Value;

verus! {

/// Why an operation on a namespace was refused.
#[derive(Debug, Clone, Copy, PartialEq, Eq, Structural)]
pub enum NamespaceError {
    /// The name is already declared in the innermost frame.
    AlreadyDefined,
    /// No frame on the stack marks the name as mutable.
    NotMutable,
    /// The name is marked mutable but no frame binds it.
    NotDefined,
    /// Only the root frame is left, and it is never popped.
    CannotExitRoot,
}

/// Why a text is not an instruction. Offsets count characters from the
/// start of the text.
#[derive(Debug, Clone, Copy, PartialEq, Eq, Structural)]
pub enum ParseError {
    /// The character at `offset` starts no token.
    UnexpectedCharacter { offset: usize },
    /// The integer literal at `offset` does not fit in 32 bits.
    IntegerTooLarge { offset: usize },
    /// The token at `offset` cannot stand where it does.
    UnexpectedToken { offset: usize },
    /// The text ends where more is needed.
    UnexpectedEnd,
}

/// Why an evaluation failed.
#[derive(Debug, PartialEq, Eq)]
pub enum EvalError {
    /// The variable is bound in no frame.
    UndefinedVariable(String),
    /// The name is already declared in the innermost frame.
    AlreadyDefined(String),
    /// The name was not declared with `let mut`.
    NotMutable(String),
    /// The name is marked mutable but bound nowhere.
    NotDefined(String),
    /// The operator is unknown or does not apply to operands of these kinds.
    InvalidOperation(Value, String, Value),
    /// A condition did not evaluate to a boolean.
    TypeError,
    /// The right operand of `/` or `%` is zero.
    DivisionByZero,
    /// A block tried to leave the root frame.
    CannotExitRoot,
}

/// The model of an [`EvalError`].
pub ghost enum EvalErrorModel {
    UndefinedVariable(Seq<char>),
    AlreadyDefined(Seq<char>),
    NotMutable(Seq<char>),
    NotDefined(Seq<char>),
    InvalidOperation(Value, Seq<char>, Value),
    TypeError,
    DivisionByZero,
    CannotExitRoot,
}

impl View for EvalError {
    type V = EvalErrorModel;

    open spec fn view(&self) -> EvalErrorModel {
        match self {
            EvalError::UndefinedVariable(name) => EvalErrorModel::UndefinedVariable(name@),
            EvalError::AlreadyDefined(name) => EvalErrorModel::AlreadyDefined(name@),
            EvalError::NotMutable(name) => EvalErrorModel::NotMutable(name@),
            EvalError::NotDefined(name) => EvalErrorModel::NotDefined(name@),
            EvalError::InvalidOperation(left, op, right) => EvalErrorModel::InvalidOperation(
                *left,
                op@,
                *right,
            ),
            EvalError::TypeError => EvalErrorModel::TypeError,
            EvalError::DivisionByZero => EvalErrorModel::DivisionByZero,
            EvalError::CannotExitRoot => EvalErrorModel::CannotExitRoot,
        }
    }
}

/// The outcome of an evaluation, as the contracts speak of it.
pub type Outcome = Result<Value, EvalErrorModel>;

/// The model of an executable result.
pub open spec fn outcome_of(r: Result<Value, EvalError>) -> Outcome {
    match r {
        Ok(v) => Ok(v),
        Err(e) => Err(e@),
    }
}

/// The evaluation error that stands for a namespace error about `name`.
pub open spec fn lift_error(e: NamespaceError, name: Seq<char>) -> EvalErrorModel {
    match e {
        NamespaceError::AlreadyDefined => EvalErrorModel::AlreadyDefined(name),
        NamespaceError::NotMutable => EvalErrorModel::NotMutable(name),
        NamespaceError::NotDefined => EvalErrorModel::NotDefined(name),
        NamespaceError::CannotExitRoot => EvalErrorModel::CannotExitRoot,
    }
}

impl EvalError {
    /// Attaches the name to a namespace error.
    pub fn from_namespace(e: NamespaceError, name: String) -> (r: EvalError)
        ensures
            r@ == lift_error(e, name@),
    {
        match e {
            NamespaceError::AlreadyDefined => EvalError::AlreadyDefined(name),
            NamespaceError::NotMutable => EvalError::NotMutable(name),
            NamespaceError::NotDefined => EvalError::NotDefined(name),
            NamespaceError::CannotExitRoot => EvalError::CannotExitRoot,
        }
    }
}

} // verus!
