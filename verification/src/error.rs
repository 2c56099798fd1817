//! The library's error type.
use vstd::prelude::*;

use crate::model::FieldType;

verus! {

/// `std::io::Error`, carried by [`SquadError::Io`].
#[verifier::external_type_specification]
#[verifier::external_body]
pub struct ExIoError(std::io::Error);

/// Everything that can go wrong while reading, editing or writing a squad file.
#[derive(Debug)]
pub enum SquadError {
    Io(std::io::Error),
    SignatureNotFound,
    UnknownTable(String),
    UnknownField { table: String, field: String },
    RecordOutOfRange { table: String, index: usize, count: usize },
    ValueOutOfRange { field: String, value: i64, depth: u32, rangelow: i64 },
    StringTooLong { field: String, len: usize, max: usize },
    WrongFieldType { field: String, actual: FieldType, expected: FieldType },
    EmptyImportFile,
    MissingIndexColumn,
    TableIsIndexed(String),
    TableFull { table: String, count: usize },
    TableEmpty(String),
    MalformedFile(String),
}

/// The library's result type.
pub type Result<T> = core::result::Result<T, SquadError>;

} // verus!
