//! The failures that assembling and running a program can end in.

use vstd::prelude::*;

verus! {

/// The class a failure belongs to.
#[derive(Debug, Clone, Copy, PartialEq, Eq, Structural)]
pub enum ErrorKind {
    /// The source text is not a program.
    Syntax,
    /// An instruction refers to a label that is not defined.
    Symbol,
    /// An address, the program length or the program counter lies outside the memory.
    Range,
    /// A cell that is not an instruction was fetched for execution.
    InvalidOpcode,
    /// The input operation had no value to give.
    Io,
}

/// A failure, with the place where it arose. Lines and cells are counted from zero.
#[derive(Debug, Clone, Copy, PartialEq, Eq, Structural)]
pub enum Error {
    /// Line `line` is not a statement.
    Syntax { line: usize },
    /// The instruction on line `line` refers to a label that no line defines.
    UndefinedLabel { line: usize },
    /// The instruction on line `line` addresses cell `address`, which does not exist.
    AddressOutOfRange { line: usize, address: usize },
    /// The program has `lines` lines, more than the memory has cells.
    ProgramTooLong { lines: usize },
    /// The program counter `pc` points past the last cell.
    CounterOutOfRange { pc: usize },
    /// The cell at `address` holds `cell`, which is not an instruction.
    InvalidOpcode { address: usize, cell: i16 },
    /// The instruction at `address` asked for input and there was none.
    NoInput { address: usize },
}

impl Error {
    /// The class of this failure.
    pub open spec fn kind_spec(self) -> ErrorKind {
        match self {
            Error::Syntax { .. } => ErrorKind::Syntax,
            Error::UndefinedLabel { .. } => ErrorKind::Symbol,
            Error::AddressOutOfRange { .. } => ErrorKind::Range,
            Error::ProgramTooLong { .. } => ErrorKind::Range,
            Error::CounterOutOfRange { .. } => ErrorKind::Range,
            Error::InvalidOpcode { .. } => ErrorKind::InvalidOpcode,
            Error::NoInput { .. } => ErrorKind::Io,
        }
    }

    /// The class of this failure.
    #[verifier::when_used_as_spec(kind_spec)]
    pub fn kind(self) -> (kind: ErrorKind)
        ensures
            kind == self.kind_spec(),
    {
        match self {
            Error::Syntax { .. } => ErrorKind::Syntax,
            Error::UndefinedLabel { .. } => ErrorKind::Symbol,
            Error::AddressOutOfRange { .. } => ErrorKind::Range,
            Error::ProgramTooLong { .. } => ErrorKind::Range,
            Error::CounterOutOfRange { .. } => ErrorKind::Range,
            Error::InvalidOpcode { .. } => ErrorKind::InvalidOpcode,
            Error::NoInput { .. } => ErrorKind::Io,
        }
    }
}

} // verus!
