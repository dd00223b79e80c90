use vstd::prelude::*;

use crate::arrow_model::{ArrowType, ArrowTypeModel};

verus! {

/// Why an operation of this library was refused.
#[derive(Debug, PartialEq)]
pub enum ParquetError {
    /// A decimal precision that does not fit in a `u8`.
    InvalidPrecision(i64),
    /// A decimal scale that does not fit in an `i8`.
    InvalidScale(i64),
    /// A schema must have at least one column.
    EmptySchema,
    /// No column of the schema has this name.
    ColumnNotFound(String),
    /// A batch size must be positive.
    InvalidBatchSize(i64),
    /// A row group size must be positive.
    InvalidRowGroupSize(i64),
    /// A page size must be positive.
    InvalidPageSize(i64),
    /// `open` on a writer that is open.
    WriterAlreadyOpen,
    /// A batch written to a writer that is not open.
    WriterNotOpen,
    /// `close` on a writer that is closed.
    WriterAlreadyClosed,
    /// No buffer has been produced yet.
    NoBuffer,
    /// The buffer was not there after closing.
    BufferMissing,
    /// A row that is not an array.
    RowNotArray(usize),
    /// A required column, struct field, list element or map value is
    /// missing or null in a row; nested ones are named `parent.child`.
    MissingRequired { column: String, row: usize },
    /// A value of the wrong kind: the column, what was expected, the row.
    TypeMismatch { column: String, expected: String, row: usize },
    /// A text that is not a `Y-m-d` date.
    InvalidDate { column: String, value: String },
    /// A text that is not an ISO 8601 date-time.
    InvalidDateTime { column: String, value: String },
    /// A text that is not an `H:i:s.u` time.
    InvalidTime { column: String, value: String },
    /// A text that is not a decimal number.
    InvalidDecimal { column: String, value: String },
    /// A text that is not a UUID.
    InvalidUuid { column: String, value: String },
    /// Arrow refused the precision and scale of a decimal column; its message.
    InvalidDecimalConfig(String),
    /// A column whose data type cannot be written.
    UnsupportedType { column: String, data_type: ArrowType },
    /// A nested value whose data type cannot be written.
    UnsupportedNestedType { column: String, data_type: ArrowType },
    /// A map type whose entries are not a struct; `nested` for a map inside
    /// another column.
    MapEntriesNotStruct { column: String, nested: bool },
    /// A map slot closed while its keys and values differ in number: the
    /// column, the row, the number of keys and of values, whether the slot is
    /// a value (not a null), and whether the map is nested.
    MapLengthMismatch { column: String, row: usize, keys: usize, values: usize, valid: bool, nested: bool },
    /// A timestamp outside what chrono can hold.
    InvalidTimestamp(i64),
    /// A day number outside the dates chrono can hold.
    DateOutOfRange(i32),
    /// A null where Arrow admits none in a finished column (one that its
    /// parent slot does not mask); Arrow refuses such a column.
    NullInRequiredField { column: String },
    /// A dictionary encoding set as the encoding of a column: Parquet takes a
    /// column's encoding as the fallback of dictionary encoding and refuses
    /// one that is itself a dictionary encoding.
    DictionaryFallbackEncoding { column: String },
    /// Bytes that Parquet does not read as a file; its message.
    InvalidParquetData(String),
}

/// The mathematical value of a `ParquetError`: texts as character
/// sequences, types by their models.
pub enum ErrorModel {
    InvalidPrecision(i64),
    InvalidScale(i64),
    EmptySchema,
    ColumnNotFound(Seq<char>),
    InvalidBatchSize(i64),
    InvalidRowGroupSize(i64),
    InvalidPageSize(i64),
    WriterAlreadyOpen,
    WriterNotOpen,
    WriterAlreadyClosed,
    NoBuffer,
    BufferMissing,
    RowNotArray(usize),
    MissingRequired { column: Seq<char>, row: usize },
    TypeMismatch { column: Seq<char>, expected: Seq<char>, row: usize },
    InvalidDate { column: Seq<char>, value: Seq<char> },
    InvalidDateTime { column: Seq<char>, value: Seq<char> },
    InvalidTime { column: Seq<char>, value: Seq<char> },
    InvalidDecimal { column: Seq<char>, value: Seq<char> },
    InvalidUuid { column: Seq<char>, value: Seq<char> },
    InvalidDecimalConfig(Seq<char>),
    UnsupportedType { column: Seq<char>, data_type: ArrowTypeModel },
    UnsupportedNestedType { column: Seq<char>, data_type: ArrowTypeModel },
    MapEntriesNotStruct { column: Seq<char>, nested: bool },
    MapLengthMismatch { column: Seq<char>, row: usize, keys: usize, values: usize, valid: bool, nested: bool },
    InvalidTimestamp(i64),
    DateOutOfRange(i32),
    NullInRequiredField { column: Seq<char> },
    DictionaryFallbackEncoding { column: Seq<char> },
    InvalidParquetData(Seq<char>),
}

impl View for ParquetError {
    type V = ErrorModel;

    open spec fn view(&self) -> ErrorModel {
        match *self {
            ParquetError::InvalidPrecision(x) => ErrorModel::InvalidPrecision(x),
            ParquetError::InvalidScale(x) => ErrorModel::InvalidScale(x),
            ParquetError::EmptySchema => ErrorModel::EmptySchema,
            ParquetError::ColumnNotFound(s) => ErrorModel::ColumnNotFound(s@),
            ParquetError::InvalidBatchSize(x) => ErrorModel::InvalidBatchSize(x),
            ParquetError::InvalidRowGroupSize(x) => ErrorModel::InvalidRowGroupSize(x),
            ParquetError::InvalidPageSize(x) => ErrorModel::InvalidPageSize(x),
            ParquetError::WriterAlreadyOpen => ErrorModel::WriterAlreadyOpen,
            ParquetError::WriterNotOpen => ErrorModel::WriterNotOpen,
            ParquetError::WriterAlreadyClosed => ErrorModel::WriterAlreadyClosed,
            ParquetError::NoBuffer => ErrorModel::NoBuffer,
            ParquetError::BufferMissing => ErrorModel::BufferMissing,
            ParquetError::RowNotArray(r) => ErrorModel::RowNotArray(r),
            ParquetError::MissingRequired { column, row } => ErrorModel::MissingRequired { column: column@, row },
            ParquetError::TypeMismatch { column, expected, row } => ErrorModel::TypeMismatch {
                column: column@,
                expected: expected@,
                row,
            },
            ParquetError::InvalidDate { column, value } => ErrorModel::InvalidDate { column: column@, value: value@ },
            ParquetError::InvalidDateTime { column, value } => ErrorModel::InvalidDateTime {
                column: column@,
                value: value@,
            },
            ParquetError::InvalidTime { column, value } => ErrorModel::InvalidTime { column: column@, value: value@ },
            ParquetError::InvalidDecimal { column, value } => ErrorModel::InvalidDecimal {
                column: column@,
                value: value@,
            },
            ParquetError::InvalidUuid { column, value } => ErrorModel::InvalidUuid { column: column@, value: value@ },
            ParquetError::InvalidDecimalConfig(m) => ErrorModel::InvalidDecimalConfig(m@),
            ParquetError::UnsupportedType { column, data_type } => ErrorModel::UnsupportedType {
                column: column@,
                data_type: data_type@,
            },
            ParquetError::UnsupportedNestedType { column, data_type } => ErrorModel::UnsupportedNestedType {
                column: column@,
                data_type: data_type@,
            },
            ParquetError::MapEntriesNotStruct { column, nested } => ErrorModel::MapEntriesNotStruct {
                column: column@,
                nested,
            },
            ParquetError::MapLengthMismatch { column, row, keys, values, valid, nested } =>
                ErrorModel::MapLengthMismatch { column: column@, row, keys, values, valid, nested },
            ParquetError::InvalidTimestamp(x) => ErrorModel::InvalidTimestamp(x),
            ParquetError::DateOutOfRange(x) => ErrorModel::DateOutOfRange(x),
            ParquetError::NullInRequiredField { column } => ErrorModel::NullInRequiredField { column: column@ },
            ParquetError::DictionaryFallbackEncoding { column } => ErrorModel::DictionaryFallbackEncoding {
                column: column@,
            },
            ParquetError::InvalidParquetData(m) => ErrorModel::InvalidParquetData(m@),
        }
    }
}

} // verus!
