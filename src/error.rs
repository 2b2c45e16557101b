//! The single error type of the pipeline: every failure aborts compilation.
use vstd::prelude::*;
use crate::utterances::{ArithmeticOperator, Kind};

verus! {

/// Why compilation stopped. Positions are character offsets into the source.
#[derive(Debug)]
pub enum CompileError {
    /// No token rule matches the character at `position`.
    Lexical { position: usize },
    /// The source ended where a token was required.
    UnexpectedEnd,
    /// A token of kind `expected` was required.
    UnexpectedToken { expected: Kind, found: Kind, position: usize },
    /// A statement starts with neither `let` nor `syscall`.
    UnexpectedStatement { found: Kind, position: usize },
    /// A token that neither continues nor ends an expression.
    UnexpectedInExpression { found: Kind, position: usize },
    /// A system call other than `exit`; `position` is where its name starts.
    UnknownSyscall { position: usize },
    /// A number literal that does not fit in 32 bits.
    InvalidNumber { position: usize },
    /// The program has no statement.
    NoStatementsFound,
    /// An alias bound a second time.
    AlreadyDeclared { alias: String },
    /// An alias read before any binding of it.
    UndeclaredAlias { alias: String },
    /// An operator that code generation does not support.
    UnimplementedOperator { operator: ArithmeticOperator },
    /// A literal other than an unsigned integer.
    UnsupportedLiteral,
    /// The virtual stack would exceed its bound.
    StackOverflow,
    /// A pop from the empty virtual stack.
    StackUnderflow,
}

/// Model of [`CompileError`]: alias names are seen as their characters.
pub enum ErrorModel {
    Lexical { position: usize },
    UnexpectedEnd,
    UnexpectedToken { expected: Kind, found: Kind, position: usize },
    UnexpectedStatement { found: Kind, position: usize },
    UnexpectedInExpression { found: Kind, position: usize },
    UnknownSyscall { position: usize },
    InvalidNumber { position: usize },
    NoStatementsFound,
    AlreadyDeclared { alias: Seq<char> },
    UndeclaredAlias { alias: Seq<char> },
    UnimplementedOperator { operator: ArithmeticOperator },
    UnsupportedLiteral,
    StackOverflow,
    StackUnderflow,
}

impl View for CompileError {
    type V = ErrorModel;

    open spec fn view(&self) -> ErrorModel {
        match self {
            CompileError::Lexical { position } => ErrorModel::Lexical { position: *position },
            CompileError::UnexpectedEnd => ErrorModel::UnexpectedEnd,
            CompileError::UnexpectedToken { expected, found, position } => ErrorModel::UnexpectedToken {
                expected: *expected,
                found: *found,
                position: *position,
            },
            CompileError::UnexpectedStatement { found, position } => ErrorModel::UnexpectedStatement {
                found: *found,
                position: *position,
            },
            CompileError::UnexpectedInExpression { found, position } => ErrorModel::UnexpectedInExpression {
                found: *found,
                position: *position,
            },
            CompileError::UnknownSyscall { position } => ErrorModel::UnknownSyscall { position: *position },
            CompileError::InvalidNumber { position } => ErrorModel::InvalidNumber { position: *position },
            CompileError::NoStatementsFound => ErrorModel::NoStatementsFound,
            CompileError::AlreadyDeclared { alias } => ErrorModel::AlreadyDeclared { alias: alias@ },
            CompileError::UndeclaredAlias { alias } => ErrorModel::UndeclaredAlias { alias: alias@ },
            CompileError::UnimplementedOperator { operator } => ErrorModel::UnimplementedOperator {
                operator: *operator,
            },
            CompileError::UnsupportedLiteral => ErrorModel::UnsupportedLiteral,
            CompileError::StackOverflow => ErrorModel::StackOverflow,
            CompileError::StackUnderflow => ErrorModel::StackUnderflow,
        }
    }
}

/// `r` is the outcome `m`, with the error seen through its model.
pub open spec fn outcome_is<T>(r: Result<T, CompileError>, m: Result<T, ErrorModel>) -> bool {
    match r {
        Ok(v) => m == Ok::<T, ErrorModel>(v),
        Err(e) => m == Err::<T, ErrorModel>(e@),
    }
}

} // verus!
