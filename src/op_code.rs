use vstd::prelude::*;

verus! {

/// One compiled instruction.
///
/// The arithmetic and move instructions carry a run-length count; the two
/// brackets carry the index of their partner once jumps have been resolved.
#[derive(Clone, Copy, Debug, PartialEq, Eq, Structural)]
pub enum OpCode {
    /// Add the count to the current cell, wrapping at 256.
    OpPlus(u8),
    /// Subtract the count from the current cell, wrapping at 256.
    OpMinus(u8),
    /// Emit the current cell as one character.
    OpDot,
    /// Read one byte into the current cell.
    OpComa,
    /// Move the tape cursor left by the count.
    OpLeftShift(u16),
    /// Move the tape cursor right by the count.
    OpRightShift(u16),
    /// Skip past the matching close bracket when the current cell is zero.
    OpLeftBracket(Option<usize>),
    /// Go back to the matching open bracket when the current cell is not zero.
    OpRightBracket(Option<usize>),
}

impl OpCode {
    /// Whether this is an open bracket, resolved or not.
    pub open spec fn is_open(self) -> bool {
        self is OpLeftBracket
    }

    /// Whether this is a close bracket, resolved or not.
    pub open spec fn is_close(self) -> bool {
        self is OpRightBracket
    }

    /// The same instruction with any jump target forgotten.
    pub open spec fn strip(self) -> OpCode {
        match self {
            OpCode::OpLeftBracket(_) => OpCode::OpLeftBracket(None),
            OpCode::OpRightBracket(_) => OpCode::OpRightBracket(None),
            _ => self,
        }
    }
}

/// Two instructions that a bracket scan cannot tell apart.
pub open spec fn same_kind(a: OpCode, b: OpCode) -> bool {
    a.is_open() == b.is_open() && a.is_close() == b.is_close()
}

/// A program with every jump target forgotten.
pub open spec fn strip_all(ops: Seq<OpCode>) -> Seq<OpCode> {
    ops.map_values(|op: OpCode| op.strip())
}

} // verus!
