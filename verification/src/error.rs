//! What can go wrong with a transfer, and how it is told.

use vstd::prelude::*;
use vstd::string::StringExecFns;

use crate::decimal;

verus! {

/// The kinds of I/O failure that a decision depends on.
#[derive(Debug, Clone, Copy, PartialEq, Eq, Structural)]
pub enum IoErrorKind {
    /// The peer closed the stream before all bytes had come.
    UnexpectedEof,
    /// The peer reset the connection.
    ConnectionReset,
    /// The connection was aborted.
    ConnectionAborted,
    /// A non-blocking operation has nothing to do yet.
    WouldBlock,
    /// Any other failure.
    Other,
}

/// An I/O failure: its kind, and the text that describes it.
#[derive(Debug, PartialEq, Eq)]
pub struct IoError {
    pub kind: IoErrorKind,
    pub message: String,
}

/// Why a transfer or a store operation failed.
#[derive(Debug, PartialEq, Eq)]
pub enum TransferError {
    /// The stream failed.
    Io(IoError),
    /// No segment of this name is registered.
    MissingSegment(String),
    /// No batch has this id.
    UnknownBatch(usize),
    /// The engine has no local segment yet.
    NoLocalMemory,
    /// A byte range does not lie within a segment.
    OutOfBounds { offset: usize, length: usize, capacity: usize },
    /// A header carries an opcode that does not exist.
    InvalidOpcode(u8),
    /// A header carries a number that `usize` cannot hold.
    IntegerOverflow(u64),
    /// The remote side did not acknowledge a write.
    AckFailed,
}

impl TransferError {
    /// The text that [`TransferError::message`] returns.
    pub open spec fn text(self) -> Seq<char> {
        match self {
            TransferError::Io(err) => "I/O error: "@ + err.message@,
            TransferError::MissingSegment(name) => "segment not found: "@ + name@,
            TransferError::UnknownBatch(batch_id) => "unknown batch: "@ + decimal::decimal_text(
                batch_id as nat,
            ),
            TransferError::NoLocalMemory => "local memory has not been registered"@,
            TransferError::OutOfBounds { offset, length, capacity } => "range out of bounds: offset="@
                + decimal::decimal_text(offset as nat) + ", length="@ + decimal::decimal_text(length as nat)
                + ", capacity="@ + decimal::decimal_text(capacity as nat),
            TransferError::InvalidOpcode(opcode) => "invalid opcode: "@ + decimal::decimal_text(
                opcode as nat,
            ),
            TransferError::IntegerOverflow(value) => "integer does not fit into usize: "@
                + decimal::decimal_text(value as nat),
            TransferError::AckFailed => "remote write was not acknowledged"@,
        }
    }

    /// Describes the error for a reader.
    pub fn message(&self) -> (text: String)
        ensures
            text@ == self.text(),
            match *self {
                TransferError::Io(err) => text@ == "I/O error: "@ + err.message@,
                TransferError::MissingSegment(name) => text@ == "segment not found: "@ + name@,
                TransferError::UnknownBatch(id) => text@ == "unknown batch: "@
                    + decimal::decimal_text(id as nat),
                TransferError::NoLocalMemory => text@ == "local memory has not been registered"@,
                TransferError::OutOfBounds { offset, length, capacity } => text@
                    == "range out of bounds: offset="@ + decimal::decimal_text(offset as nat)
                    + ", length="@ + decimal::decimal_text(length as nat) + ", capacity="@
                    + decimal::decimal_text(capacity as nat),
                TransferError::InvalidOpcode(opcode) => text@ == "invalid opcode: "@
                    + decimal::decimal_text(opcode as nat),
                TransferError::IntegerOverflow(value) => text@
                    == "integer does not fit into usize: "@ + decimal::decimal_text(value as nat),
                TransferError::AckFailed => text@ == "remote write was not acknowledged"@,
            },
    {
        match self {
            TransferError::Io(err) => "I/O error: ".to_owned().concat(err.message.as_str()),
            TransferError::MissingSegment(name) => "segment not found: ".to_owned().concat(
                name.as_str(),
            ),
            TransferError::UnknownBatch(batch_id) => {
                let mut text = "unknown batch: ".to_owned();
                decimal::push_decimal(&mut text, *batch_id as u64);
                text
            },
            TransferError::NoLocalMemory => "local memory has not been registered".to_owned(),
            TransferError::OutOfBounds { offset, length, capacity } => {
                let mut text = "range out of bounds: offset=".to_owned();
                decimal::push_decimal(&mut text, *offset as u64);
                text.append(", length=");
                decimal::push_decimal(&mut text, *length as u64);
                text.append(", capacity=");
                decimal::push_decimal(&mut text, *capacity as u64);
                text
            },
            TransferError::InvalidOpcode(opcode) => {
                let mut text = "invalid opcode: ".to_owned();
                decimal::push_decimal(&mut text, *opcode as u64);
                text
            },
            TransferError::IntegerOverflow(value) => {
                let mut text = "integer does not fit into usize: ".to_owned();
                decimal::push_decimal(&mut text, *value);
                text
            },
            TransferError::AckFailed => "remote write was not acknowledged".to_owned(),
        }
    }
}

} // verus!
