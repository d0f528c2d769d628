//! What can be wrong with a record.
use crate::text;
use vstd::prelude::*;

verus! {

/// Errors from decoding a SQLite record (the payload format used by table and index
/// B-tree cells).
#[derive(Debug, Clone, Copy, PartialEq, Eq, Structural)]
pub enum RecordError {
    /// The record buffer ended before decoding could complete.
    UnexpectedEof {
        /// Byte offset into the record where the read past the end started.
        offset: usize,
    },
    /// The declared header length is too small to even contain the header-length varint
    /// itself.
    HeaderTooShort {
        /// The header length declared by the header-length varint.
        declared: usize,
        /// The size in bytes of the header-length varint itself.
        varint_len: usize,
    },
    /// A serial-type varint in the header read past the declared header length.
    HeaderOverrun {
        /// Byte offset of the header entry that overran.
        offset: usize,
        /// The declared total header length.
        header_len: usize,
    },
    /// Bytes remained in the record buffer after all header-declared columns were decoded.
    TrailingData {
        /// Number of unconsumed trailing bytes.
        trailing: usize,
    },
    /// A text value's bytes were not valid UTF-8 under a UTF-8 `TextEncoding`.
    InvalidUtf8,
    /// A text value's bytes were not valid UTF-16 under a UTF-16 `TextEncoding`.
    InvalidUtf16,
}

impl RecordError {
    /// The error in words.
    pub open spec fn described(self) -> Seq<char> {
        match self {
            RecordError::UnexpectedEof { offset } => "unexpected end of input at byte offset "@
                + text::decimal(offset as nat),
            RecordError::HeaderTooShort { declared, varint_len } => "record header length "@
                + text::decimal(declared as nat)
                + " is shorter than its own header-length varint ("@ + text::decimal(
                varint_len as nat,
            ) + " bytes)"@,
            RecordError::HeaderOverrun { offset, header_len } => "record header entry at offset "@
                + text::decimal(offset as nat) + " extends past the declared header length "@
                + text::decimal(header_len as nat),
            RecordError::TrailingData { trailing } => "record has "@ + text::decimal(
                trailing as nat,
            ) + " unconsumed trailing byte(s) after decoding all columns"@,
            RecordError::InvalidUtf8 => "invalid UTF-8 in text value"@,
            RecordError::InvalidUtf16 => "invalid UTF-16 in text value"@,
        }
    }

    /// The error in words.
    pub fn describe(&self) -> (s: String)
        ensures
            s@ == self.described(),
    {
        match self {
            RecordError::UnexpectedEof { offset } => {
                let mut s = "unexpected end of input at byte offset ".to_owned();
                s.append(text::unsigned_to_text(*offset as u64).as_str());
                s
            },
            RecordError::HeaderTooShort { declared, varint_len } => {
                let mut s = "record header length ".to_owned();
                s.append(text::unsigned_to_text(*declared as u64).as_str());
                s.append(" is shorter than its own header-length varint (");
                s.append(text::unsigned_to_text(*varint_len as u64).as_str());
                s.append(" bytes)");
                s
            },
            RecordError::HeaderOverrun { offset, header_len } => {
                let mut s = "record header entry at offset ".to_owned();
                s.append(text::unsigned_to_text(*offset as u64).as_str());
                s.append(" extends past the declared header length ");
                s.append(text::unsigned_to_text(*header_len as u64).as_str());
                s
            },
            RecordError::TrailingData { trailing } => {
                let mut s = "record has ".to_owned();
                s.append(text::unsigned_to_text(*trailing as u64).as_str());
                s.append(" unconsumed trailing byte(s) after decoding all columns");
                s
            },
            RecordError::InvalidUtf8 => "invalid UTF-8 in text value".to_owned(),
            RecordError::InvalidUtf16 => "invalid UTF-16 in text value".to_owned(),
        }
    }
}

} // verus!
