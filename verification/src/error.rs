//! The ways in which resolving or running a program can fail.

use crate::text::{decimal, push_decimal};
use vstd::prelude::*;

verus! {

/// What went wrong.
#[derive(Clone, Copy, Debug, PartialEq, Eq, Structural)]
pub enum ErrorKind {
    /// A loop end with no open loop begin before it.
    UnmatchedLoopEnd,
    /// A loop begin that no loop end closes.
    UnmatchedLoopBegin,
    /// A move would take the data pointer off either end of the tape.
    DataPointerOutOfRange,
    /// The cell to print is not the code of a Unicode scalar value.
    InvalidOutputValue,
    /// An input instruction ran when no input was left.
    InputExhausted,
}

/// A failure together with the index of the instruction it belongs to.
///
/// Every failure is final for the run in which it occurs.
#[derive(Clone, Copy, Debug, PartialEq, Eq, Structural)]
pub struct EvalError {
    pub kind: ErrorKind,
    pub position: usize,
}

impl ErrorKind {
    /// The kind of failure in words.
    pub open spec fn text(self) -> Seq<char> {
        match self {
            ErrorKind::UnmatchedLoopEnd => "Unmatched loop end"@,
            ErrorKind::UnmatchedLoopBegin => "Unmatched loop begin"@,
            ErrorKind::DataPointerOutOfRange => "Data pointer out of range"@,
            ErrorKind::InvalidOutputValue => "Invalid output value"@,
            ErrorKind::InputExhausted => "Input exhausted"@,
        }
    }

    /// The kind of failure in words.
    pub fn message(&self) -> (text: &'static str)
        ensures
            text@ == self.text(),
    {
        match self {
            ErrorKind::UnmatchedLoopEnd => "Unmatched loop end",
            ErrorKind::UnmatchedLoopBegin => "Unmatched loop begin",
            ErrorKind::DataPointerOutOfRange => "Data pointer out of range",
            ErrorKind::InvalidOutputValue => "Invalid output value",
            ErrorKind::InputExhausted => "Input exhausted",
        }
    }
}

impl EvalError {
    /// The failure in words: its kind and the index of the instruction.
    pub open spec fn text(self) -> Seq<char> {
        self.kind.text() + " at instruction "@ + decimal(self.position as nat)
    }

    /// The failure in words, as in `Unmatched loop end at instruction 7`.
    pub fn message(&self) -> (text: String)
        ensures
            text@ == self.text(),
    {
        let mut text = String::from_str(self.kind.message());
        text.append(" at instruction ");
        push_decimal(&mut text, self.position);
        text
    }
}

} // verus!
