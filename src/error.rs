use vstd::prelude::*;

verus! {

/// The ways a step or a run can stop.
///
/// `InputExhausted`, `CursorOutOfTape` and `StepLimitReached` go beyond the
/// four basic kinds: the first is raised when an input instruction finds no
/// byte left, the second when an instruction reads or writes the cell under
/// a cursor that a long move to the right has carried past the tape, and the
/// third when a bounded run uses up its step budget.
#[derive(Clone, Copy, Debug, PartialEq, Eq, Structural)]
pub enum Error {
    /// A step was attempted past the last instruction; a run treats it as
    /// normal completion.
    EndOfProgram,
    /// A backward bracket scan ran off the start of the program.
    MissingLeftBracket,
    /// A forward bracket scan ran off the end of the program, or a jump
    /// target lay past it.
    MissingRightBracket,
    /// The interpreter was asked to run while not in the ready state.
    NotReady,
    /// An input instruction found no byte to read.
    InputExhausted,
    /// The current cell was accessed while the tape cursor lay past the tape.
    CursorOutOfTape,
    /// A bounded run reached its step limit before the program ended.
    StepLimitReached,
}

impl Error {
    /// The text that `message` returns.
    pub open spec fn message_text(self) -> Seq<char> {
        match self {
            Error::EndOfProgram => "Last instruction reached"@,
            Error::MissingLeftBracket => "Missing left bracket"@,
            Error::MissingRightBracket => "Missing right bracket"@,
            Error::NotReady => "Not ready (end of program or error encountered)"@,
            Error::InputExhausted => "Input exhausted"@,
            Error::CursorOutOfTape => "Tape cursor out of the tape"@,
            Error::StepLimitReached => "Step limit reached"@,
        }
    }

    /// A human-readable description of the failure.
    pub fn message(&self) -> (r: &'static str)
        ensures
            r@ == self.message_text(),
    {
        match self {
            Error::EndOfProgram => "Last instruction reached",
            Error::MissingLeftBracket => "Missing left bracket",
            Error::MissingRightBracket => "Missing right bracket",
            Error::NotReady => "Not ready (end of program or error encountered)",
            Error::InputExhausted => "Input exhausted",
            Error::CursorOutOfTape => "Tape cursor out of the tape",
            Error::StepLimitReached => "Step limit reached",
        }
    }
}

} // verus!
