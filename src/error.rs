//! The error kinds of the engine.

use vstd::prelude::*;

verus! {

#[verifier::external_type_specification]
#[verifier::external_body]
pub struct ExSqlError(turso_parser::error::Error);

/// What can go wrong while reading a database.
#[derive(Debug)]
pub enum SQLiteError {
    /// The byte source could not be acquired.
    IOError(String),
    /// The bytes break the file format.
    ParsingError(String),
    /// The header names a text encoding other than 1, 2 or 3.
    UnknownTextEncodingError(u32),
    /// The SQL text of a schema row could not be parsed.
    SqlQueryErr(turso_parser::error::Error),
    /// No table of that name is in the schema.
    TableNotFound(String),
    /// Any other failure, such as one reported by a row consumer.
    Other(String),
}

pub type Result<T> = core::result::Result<T, SQLiteError>;

/// A format error with a short description.
pub fn parsing_error(detail: &str) -> (r: SQLiteError)
    ensures
        r is ParsingError,
{
    SQLiteError::ParsingError(detail.to_owned())
}

} // verus!
