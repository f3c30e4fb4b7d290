use vstd::prelude::*;
use crate::lexer::{LexError, SpecLexError};
use crate::parser::{ParseError, SpecParseError};
use crate::statement::DataType;
use crate::text::{push_str, string_of};

verus! {

/// Every failure of the engine.
#[derive(Debug)]
pub enum BackendError {
    Lex(LexError),
    Parse(ParseError),
    TableAlreadyExists(String),
    TableNotFound(String),
    ColumnNotFound { table: String, column: String },
    DuplicateColumn(String),
    ValueCountMismatch { expected: usize, actual: usize },
    TypeMismatch { column: String, expected: DataType, found: &'static str },
    NullConstraintViolation(String),
    InvalidExpression(String),
    InvalidSchema(String),
    InvalidPrimaryKey(String),
    DuplicatePrimaryKey(String),
    Execution(String),
    IoError(String),
    SerializationError(String),
}

pub enum SpecBackendError {
    Lex(SpecLexError),
    Parse(SpecParseError),
    TableAlreadyExists(Seq<char>),
    TableNotFound(Seq<char>),
    ColumnNotFound { table: Seq<char>, column: Seq<char> },
    DuplicateColumn(Seq<char>),
    ValueCountMismatch { expected: usize, actual: usize },
    TypeMismatch { column: Seq<char>, expected: DataType, found: Seq<char> },
    NullConstraintViolation(Seq<char>),
    InvalidExpression(Seq<char>),
    InvalidSchema(Seq<char>),
    InvalidPrimaryKey(Seq<char>),
    DuplicatePrimaryKey(Seq<char>),
    Execution(Seq<char>),
    IoError(Seq<char>),
    SerializationError(Seq<char>),
}

impl View for BackendError {
    type V = SpecBackendError;

    open spec fn view(&self) -> SpecBackendError {
        match self {
            BackendError::Lex(e) => SpecBackendError::Lex(e@),
            BackendError::Parse(e) => SpecBackendError::Parse(e@),
            BackendError::TableAlreadyExists(s) => SpecBackendError::TableAlreadyExists(s@),
            BackendError::TableNotFound(s) => SpecBackendError::TableNotFound(s@),
            BackendError::ColumnNotFound { table, column } => SpecBackendError::ColumnNotFound {
                table: table@,
                column: column@,
            },
            BackendError::DuplicateColumn(s) => SpecBackendError::DuplicateColumn(s@),
            BackendError::ValueCountMismatch { expected, actual } => SpecBackendError::ValueCountMismatch {
                expected: *expected,
                actual: *actual,
            },
            BackendError::TypeMismatch { column, expected, found } => SpecBackendError::TypeMismatch {
                column: column@,
                expected: *expected,
                found: found@,
            },
            BackendError::NullConstraintViolation(s) => SpecBackendError::NullConstraintViolation(s@),
            BackendError::InvalidExpression(s) => SpecBackendError::InvalidExpression(s@),
            BackendError::InvalidSchema(s) => SpecBackendError::InvalidSchema(s@),
            BackendError::InvalidPrimaryKey(s) => SpecBackendError::InvalidPrimaryKey(s@),
            BackendError::DuplicatePrimaryKey(s) => SpecBackendError::DuplicatePrimaryKey(s@),
            BackendError::Execution(s) => SpecBackendError::Execution(s@),
            BackendError::IoError(s) => SpecBackendError::IoError(s@),
            BackendError::SerializationError(s) => SpecBackendError::SerializationError(s@),
        }
    }
}

impl BackendError {
    pub fn from_lex(error: LexError) -> (e: BackendError)
        ensures
            e@ == SpecBackendError::Lex(error@),
    {
        BackendError::Lex(error)
    }

    pub fn from_parse(error: ParseError) -> (e: BackendError)
        ensures
            e@ == SpecBackendError::Parse(error@),
    {
        BackendError::Parse(error)
    }
}

/// The message of a failed file operation: `failed to <operation> '<path>': <error>`.
pub open spec fn io_error_message(operation: Seq<char>, path: Seq<char>, error: Seq<char>) -> Seq<char> {
    "failed to "@ + operation + " '"@ + path + "': "@ + error
}

/// The error for a failed file operation on `path`.
pub fn io_error(operation: &str, path: &str, error: &str) -> (e: BackendError)
    ensures
        e@ == SpecBackendError::IoError(io_error_message(operation@, path@, error@)),
{
    let mut message = string_of("failed to ");
    push_str(&mut message, operation);
    push_str(&mut message, " '");
    push_str(&mut message, path);
    push_str(&mut message, "': ");
    push_str(&mut message, error);
    BackendError::IoError(message)
}

} // verus!
