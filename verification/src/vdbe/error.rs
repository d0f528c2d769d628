//! What can go wrong in a run.
use crate::text;
use crate::vdbe::program::{opcode_name, Opcode};
use vstd::prelude::*;

verus! {

/// Caps a single register index and, separately, a register-range *count*: a backstop
/// against a corrupt instruction whose oversized operand would otherwise drive a huge
/// allocation.
pub const MAX_REGISTERS: usize = 1_048_576;

/// Caps total instructions executed per run: a backstop against a malformed program
/// looping forever, well past any real program's legitimate instruction count.
pub const MAX_STEPS: u32 = 1_000_000;

/// Errors from running a program.
#[derive(Debug, Clone, PartialEq)]
pub enum ExecError {
    RegisterOutOfRange { opcode: &'static str, index: i32 },
    RegisterRangeTooLarge { opcode: &'static str, count: i32 },
    TypeMismatch { opcode: &'static str, found: &'static str },
    /// `MustBeInt` met a value that cannot become an integer without data loss.
    MustBeInt,
    MalformedInstruction { opcode: &'static str, reason: String },
    Unimplemented { opcode: Opcode },
    CursorNotOpen { slot: i32 },
    CursorTypeMismatch {
        opcode: &'static str,
        slot: i32,
        found: &'static str,
        expected: &'static str,
    },
    NoDatabase { opcode: &'static str },
    ProgramCounterOutOfRange { pc: usize },
    StepLimitExceeded,
    EphemeralRowLimitExceeded { opcode: &'static str, limit: usize },
    Halted { code: i32, message: Option<String> },
    /// A reply that does not answer the request it was given for.
    UnexpectedReply { opcode: &'static str },
}

/// What an [`ExecError`] stands for.
#[verifier::ext_equal]
pub enum ErrorView {
    RegisterOutOfRange { opcode: Seq<char>, index: i32 },
    RegisterRangeTooLarge { opcode: Seq<char>, count: i32 },
    TypeMismatch { opcode: Seq<char>, found: Seq<char> },
    MustBeInt,
    MalformedInstruction { opcode: Seq<char>, reason: Seq<char> },
    Unimplemented { opcode: Opcode },
    CursorNotOpen { slot: i32 },
    CursorTypeMismatch { opcode: Seq<char>, slot: i32, found: Seq<char>, expected: Seq<char> },
    NoDatabase { opcode: Seq<char> },
    ProgramCounterOutOfRange { pc: usize },
    StepLimitExceeded,
    EphemeralRowLimitExceeded { opcode: Seq<char>, limit: usize },
    Halted { code: i32, message: Option<Seq<char>> },
    UnexpectedReply { opcode: Seq<char> },
}

/// An optional text as its characters.
pub open spec fn optional_text(s: Option<String>) -> Option<Seq<char>> {
    match s {
        Some(t) => Some(t@),
        None => None,
    }
}

impl ExecError {
    pub open spec fn view(&self) -> ErrorView {
        match self {
            ExecError::RegisterOutOfRange { opcode, index } => ErrorView::RegisterOutOfRange {
                opcode: opcode@,
                index: *index,
            },
            ExecError::RegisterRangeTooLarge { opcode, count } => {
                ErrorView::RegisterRangeTooLarge { opcode: opcode@, count: *count }
            },
            ExecError::TypeMismatch { opcode, found } => ErrorView::TypeMismatch {
                opcode: opcode@,
                found: found@,
            },
            ExecError::MustBeInt => ErrorView::MustBeInt,
            ExecError::MalformedInstruction { opcode, reason } => ErrorView::MalformedInstruction {
                opcode: opcode@,
                reason: reason@,
            },
            ExecError::Unimplemented { opcode } => ErrorView::Unimplemented { opcode: *opcode },
            ExecError::CursorNotOpen { slot } => ErrorView::CursorNotOpen { slot: *slot },
            ExecError::CursorTypeMismatch { opcode, slot, found, expected } => {
                ErrorView::CursorTypeMismatch {
                    opcode: opcode@,
                    slot: *slot,
                    found: found@,
                    expected: expected@,
                }
            },
            ExecError::NoDatabase { opcode } => ErrorView::NoDatabase { opcode: opcode@ },
            ExecError::ProgramCounterOutOfRange { pc } => ErrorView::ProgramCounterOutOfRange {
                pc: *pc,
            },
            ExecError::StepLimitExceeded => ErrorView::StepLimitExceeded,
            ExecError::EphemeralRowLimitExceeded { opcode, limit } => {
                ErrorView::EphemeralRowLimitExceeded { opcode: opcode@, limit: *limit }
            },
            ExecError::Halted { code, message } => ErrorView::Halted {
                code: *code,
                message: optional_text(*message),
            },
            ExecError::UnexpectedReply { opcode } => ErrorView::UnexpectedReply {
                opcode: opcode@,
            },
        }
    }

    /// The error in words.
    pub fn describe(&self) -> (s: String)
        ensures
            s@ == self@.described(),
    {
        match self {
            ExecError::RegisterOutOfRange { opcode, index } => {
                let mut s = (*opcode).to_owned();
                s.append(": register index ");
                s.append(text::signed_to_text(*index as i64).as_str());
                s.append(" is out of range");
                s
            },
            ExecError::RegisterRangeTooLarge { opcode, count } => {
                let mut s = (*opcode).to_owned();
                s.append(": register range count ");
                s.append(text::signed_to_text(*count as i64).as_str());
                s.append(" exceeds the maximum (");
                s.append(text::unsigned_to_text(MAX_REGISTERS as u64).as_str());
                s.append(")");
                s
            },
            ExecError::TypeMismatch { opcode, found } => {
                let mut s = (*opcode).to_owned();
                s.append(": expected a different value type, found ");
                s.append(found);
                s
            },
            ExecError::MustBeInt => {
                "MustBeInt: value cannot be converted to an integer without data loss".to_owned()
            },
            ExecError::MalformedInstruction { opcode, reason } => {
                let mut s = (*opcode).to_owned();
                s.append(": malformed instruction (");
                s.append(reason.as_str());
                s.append(")");
                s
            },
            ExecError::Unimplemented { opcode } => {
                let mut s = "opcode ".to_owned();
                s.append(opcode_name(*opcode));
                s.append(" is not yet implemented by this VM");
                s
            },
            ExecError::CursorNotOpen { slot } => {
                let mut s = "cursor slot ".to_owned();
                s.append(text::signed_to_text(*slot as i64).as_str());
                s.append(" is not open");
                s
            },
            ExecError::CursorTypeMismatch { opcode, slot, found, expected } => {
                let mut s = (*opcode).to_owned();
                s.append(": cursor slot ");
                s.append(text::signed_to_text(*slot as i64).as_str());
                s.append(" is a ");
                s.append(found);
                s.append(", not a ");
                s.append(expected);
                s
            },
            ExecError::NoDatabase { opcode } => {
                let mut s = (*opcode).to_owned();
                s.append(" requires a database attached to this VM (see Vm::with_db)");
                s
            },
            ExecError::ProgramCounterOutOfRange { pc } => {
                let mut s = "program counter ".to_owned();
                s.append(text::unsigned_to_text(*pc as u64).as_str());
                s.append(" is out of range");
                s
            },
            ExecError::StepLimitExceeded => {
                let mut s = "program exceeded the maximum step count (".to_owned();
                s.append(text::unsigned_to_text(MAX_STEPS as u64).as_str());
                s.append(") without halting");
                s
            },
            ExecError::EphemeralRowLimitExceeded { opcode, limit } => {
                let mut s = (*opcode).to_owned();
                s.append(": ephemeral row limit (");
                s.append(text::unsigned_to_text(*limit as u64).as_str());
                s.append(") exceeded");
                s
            },
            ExecError::Halted { code, message } => {
                let mut s = "statement halted with SQLite result code ".to_owned();
                s.append(text::signed_to_text(*code as i64).as_str());
                match message {
                    Some(m) => {
                        s.append(": ");
                        s.append(m.as_str());
                    },
                    None => {},
                }
                s
            },
            ExecError::UnexpectedReply { opcode } => {
                let mut s = (*opcode).to_owned();
                s.append(": the reply does not answer the request");
                s
            },
        }
    }
}

impl ErrorView {
    /// The error in words.
    pub open spec fn described(self) -> Seq<char> {
        match self {
            ErrorView::RegisterOutOfRange { opcode, index } => opcode + ": register index "@
                + text::signed_decimal(index as int) + " is out of range"@,
            ErrorView::RegisterRangeTooLarge { opcode, count } => opcode
                + ": register range count "@ + text::signed_decimal(count as int)
                + " exceeds the maximum ("@ + text::decimal(MAX_REGISTERS as nat) + ")"@,
            ErrorView::TypeMismatch { opcode, found } => opcode
                + ": expected a different value type, found "@ + found,
            ErrorView::MustBeInt =>
                "MustBeInt: value cannot be converted to an integer without data loss"@,
            ErrorView::MalformedInstruction { opcode, reason } => opcode
                + ": malformed instruction ("@ + reason + ")"@,
            ErrorView::Unimplemented { opcode } => "opcode "@ + opcode.name()
                + " is not yet implemented by this VM"@,
            ErrorView::CursorNotOpen { slot } => "cursor slot "@ + text::signed_decimal(
                slot as int,
            ) + " is not open"@,
            ErrorView::CursorTypeMismatch { opcode, slot, found, expected } => opcode
                + ": cursor slot "@ + text::signed_decimal(slot as int) + " is a "@ + found
                + ", not a "@ + expected,
            ErrorView::NoDatabase { opcode } => opcode
                + " requires a database attached to this VM (see Vm::with_db)"@,
            ErrorView::ProgramCounterOutOfRange { pc } => "program counter "@ + text::decimal(
                pc as nat,
            ) + " is out of range"@,
            ErrorView::StepLimitExceeded => "program exceeded the maximum step count ("@
                + text::decimal(MAX_STEPS as nat) + ") without halting"@,
            ErrorView::EphemeralRowLimitExceeded { opcode, limit } => opcode
                + ": ephemeral row limit ("@ + text::decimal(limit as nat) + ") exceeded"@,
            ErrorView::Halted { code, message } => {
                let head = "statement halted with SQLite result code "@ + text::signed_decimal(
                    code as int,
                );
                match message {
                    Some(m) => head + ": "@ + m,
                    None => head,
                }
            },
            ErrorView::UnexpectedReply { opcode } => opcode
                + ": the reply does not answer the request"@,
        }
    }
}

} // verus!
