//! Errors that decoding a transaction record can end in.

use vstd::prelude::*;

use crate::transaction::{Transaction, TransactionModel};

verus! {

/// The fields of a transaction record, as named by the textual formats.
#[derive(Clone, Copy, PartialEq, Eq, Structural, Debug)]
pub enum Field {
    Id,
    Type,
    FromUserId,
    ToUserId,
    Amount,
    Timestamp,
    Status,
    Description,
}

/// Why a decimal number could not be read as a `u64`.
#[derive(Clone, Copy, PartialEq, Eq, Structural, Debug)]
pub enum IntErrorKind {
    /// Nothing to read.
    Empty,
    /// A character that is not a decimal digit.
    InvalidDigit,
    /// The number does not fit in a `u64`.
    PosOverflow,
}

/// Errors of the record decoders.
#[derive(Debug)]
pub enum FormatError {
    /// The input ended inside a record.
    UnexpectedEof,
    /// A binary record does not start with the record magic.
    BadMagic,
    /// A binary record header declares a size below the fixed part of a record.
    RecordTooSmall { declared: u32 },
    /// The size a binary record header declares differs from the record's actual size.
    RecordSizeMismatch { declared: u32, actual: u64 },
    /// An unknown binary code for the transaction type.
    IllegalTypeCode { code: u8 },
    /// An unknown binary code for the transaction status.
    IllegalStatusCode { code: u8 },
    /// A binary description that is not UTF-8.
    InvalidUtf8,
    /// A text line that is not UTF-8.
    InvalidLineUtf8,
    /// An unknown name for the transaction type.
    IllegalTypeName { name: String },
    /// An unknown name for the transaction status.
    IllegalStatusName { name: String },
    /// A text description that is not enclosed in double quotes.
    IllegalDescription,
    /// A record without a field it needs.
    MissedField { field: Field },
    /// A text record that gives a field twice.
    DuplicatedField { field: Field },
    /// A field value that is not a `u64`.
    BadNumber { field: Field, kind: IntErrorKind },
    /// A text line that is neither blank, a comment nor a field.
    UnparsedLine { line: String },
    /// A CSV header that lacks the expected column title.
    BadHeader { column: usize, expected: Field },
    /// The CSV reader failed; its message.
    Csv { message: String },
}

/// The mathematical value of a [`FormatError`]: strings taken as character sequences.
pub enum FormatErrorModel {
    UnexpectedEof,
    BadMagic,
    RecordTooSmall { declared: u32 },
    RecordSizeMismatch { declared: u32, actual: u64 },
    IllegalTypeCode { code: u8 },
    IllegalStatusCode { code: u8 },
    InvalidUtf8,
    InvalidLineUtf8,
    IllegalTypeName { name: Seq<char> },
    IllegalStatusName { name: Seq<char> },
    IllegalDescription,
    MissedField { field: Field },
    DuplicatedField { field: Field },
    BadNumber { field: Field, kind: IntErrorKind },
    UnparsedLine { line: Seq<char> },
    BadHeader { column: usize, expected: Field },
    Csv { message: Seq<char> },
}

impl View for FormatError {
    type V = FormatErrorModel;

    open spec fn view(&self) -> FormatErrorModel {
        match self {
            FormatError::UnexpectedEof => FormatErrorModel::UnexpectedEof,
            FormatError::BadMagic => FormatErrorModel::BadMagic,
            FormatError::RecordTooSmall { declared } => FormatErrorModel::RecordTooSmall {
                declared: *declared,
            },
            FormatError::RecordSizeMismatch { declared, actual } =>
                FormatErrorModel::RecordSizeMismatch { declared: *declared, actual: *actual },
            FormatError::IllegalTypeCode { code } => FormatErrorModel::IllegalTypeCode {
                code: *code,
            },
            FormatError::IllegalStatusCode { code } => FormatErrorModel::IllegalStatusCode {
                code: *code,
            },
            FormatError::InvalidUtf8 => FormatErrorModel::InvalidUtf8,
            FormatError::InvalidLineUtf8 => FormatErrorModel::InvalidLineUtf8,
            FormatError::IllegalTypeName { name } => FormatErrorModel::IllegalTypeName {
                name: name@,
            },
            FormatError::IllegalStatusName { name } => FormatErrorModel::IllegalStatusName {
                name: name@,
            },
            FormatError::IllegalDescription => FormatErrorModel::IllegalDescription,
            FormatError::MissedField { field } => FormatErrorModel::MissedField { field: *field },
            FormatError::DuplicatedField { field } => FormatErrorModel::DuplicatedField {
                field: *field,
            },
            FormatError::BadNumber { field, kind } => FormatErrorModel::BadNumber {
                field: *field,
                kind: *kind,
            },
            FormatError::UnparsedLine { line } => FormatErrorModel::UnparsedLine { line: line@ },
            FormatError::BadHeader { column, expected } => FormatErrorModel::BadHeader {
                column: *column,
                expected: *expected,
            },
            FormatError::Csv { message } => FormatErrorModel::Csv { message: message@ },
        }
    }
}

/// What one attempt to read the next record comes to.
pub enum ReadOutcome {
    /// A record was read.
    Record(TransactionModel),
    /// The input holds no further record.
    End,
    /// Reading failed.
    Failed(FormatErrorModel),
}

/// The outcome that a reader's result stands for.
pub open spec fn outcome_of(r: Result<Option<Transaction>, FormatError>) -> ReadOutcome {
    match r {
        Ok(Some(t)) => ReadOutcome::Record(t@),
        Ok(None) => ReadOutcome::End,
        Err(e) => ReadOutcome::Failed(e@),
    }
}

} // verus!
