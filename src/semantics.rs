use vstd::prelude::*;
use crate::error::Error;
use crate::op_code::OpCode;
use crate::scan::{
    lemma_scan_backward_agree, lemma_scan_backward_bounds, lemma_scan_forward_agree,
    lemma_scan_forward_bounds, match_backward, match_forward, target_ok, targets_ok,
};

verus! {

/// Number of cells on the tape.
pub const TAPE_SIZE: usize = 30000;

/// Where an interpreter stands in its lifecycle.
#[derive(Clone, Copy, Debug, PartialEq, Eq, Structural)]
pub enum State {
    Ready,
    Running,
    Ended,
    Error,
}

/// The mutable part of an interpreter: instruction cursor, tape and tape
/// cursor.
pub struct Machine {
    pub ip: int,
    pub tape: Seq<u8>,
    pub mp: int,
}

/// The machine of a fresh or freshly reset interpreter.
pub open spec fn initial_machine() -> Machine {
    Machine { ip: 0, tape: Seq::new(TAPE_SIZE as nat, |i: int| 0u8), mp: 0 }
}

/// What one instruction did: its result, the machine after it, and the byte
/// it emitted, if any.
pub struct StepOutcome {
    pub result: Result<(), Error>,
    pub machine: Machine,
    pub output: Option<u8>,
}

/// What a bounded run did: its result, the machine after it, and every byte
/// it emitted, in order.
pub struct RunOutcome {
    pub result: Result<(), Error>,
    pub machine: Machine,
    pub output: Seq<u8>,
}

// ---------------------------------------------------------------- compiling

/// The source symbols, as bytes.
pub const PLUS: u8 = 43;
pub const MINUS: u8 = 45;
pub const LEFT: u8 = 60;
pub const RIGHT: u8 = 62;
pub const OPEN: u8 = 91;
pub const CLOSE: u8 = 93;
pub const DOT: u8 = 46;
pub const COMMA: u8 = 44;

/// Appends one source byte to a compiled program, folding it into the last
/// instruction where it repeats that instruction's symbol.
pub open spec fn push_symbol(ops: Seq<OpCode>, b: u8) -> Seq<OpCode> {
    let last = if ops.len() > 0 { Some(ops.last()) } else { None };
    if b == PLUS {
        match last {
            Some(OpCode::OpPlus(v)) => ops.update(ops.len() - 1, OpCode::OpPlus(add_u8(v, 1))),
            _ => ops.push(OpCode::OpPlus(1)),
        }
    } else if b == MINUS {
        match last {
            Some(OpCode::OpMinus(v)) => ops.update(ops.len() - 1, OpCode::OpMinus(add_u8(v, 1))),
            _ => ops.push(OpCode::OpMinus(1)),
        }
    } else if b == LEFT {
        match last {
            Some(OpCode::OpLeftShift(v)) => ops.update(
                ops.len() - 1,
                OpCode::OpLeftShift(add_u16(v, 1)),
            ),
            _ => ops.push(OpCode::OpLeftShift(1)),
        }
    } else if b == RIGHT {
        match last {
            Some(OpCode::OpRightShift(v)) => ops.update(
                ops.len() - 1,
                OpCode::OpRightShift(add_u16(v, 1)),
            ),
            _ => ops.push(OpCode::OpRightShift(1)),
        }
    } else if b == OPEN {
        ops.push(OpCode::OpLeftBracket(None))
    } else if b == CLOSE {
        ops.push(OpCode::OpRightBracket(None))
    } else if b == DOT {
        ops.push(OpCode::OpDot)
    } else if b == COMMA {
        ops.push(OpCode::OpComa)
    } else {
        ops
    }
}

/// `ops` followed by the compiled form of `raw`, folding across the seam.
pub open spec fn compile_onto(ops: Seq<OpCode>, raw: Seq<u8>) -> Seq<OpCode>
    decreases raw.len(),
{
    if raw.len() == 0 {
        ops
    } else {
        push_symbol(compile_onto(ops, raw.drop_last()), raw.last())
    }
}

/// The compiled form of a source buffer.
pub open spec fn compile(raw: Seq<u8>) -> Seq<OpCode> {
    compile_onto(Seq::empty(), raw)
}

// ------------------------------------------------------------------ running

pub open spec fn add_u8(a: u8, b: u8) -> u8 {
    ((a as int + b as int) % 256) as u8
}

pub open spec fn sub_u8(a: u8, b: u8) -> u8 {
    ((a as int - b as int) % 256) as u8
}

pub open spec fn add_u16(a: u16, b: u16) -> u16 {
    ((a as int + b as int) % 65536) as u16
}

/// The tape cursor after moving left by `n`: anything that would leave the
/// tape at either end lands on the last cell.
pub open spec fn move_left(mp: int, n: int) -> int {
    if mp - n < 0 || mp - n >= TAPE_SIZE {
        TAPE_SIZE - 1
    } else {
        mp - n
    }
}

/// The tape cursor after moving right by `n`: landing exactly one past the
/// last cell wraps to the first; a longer overshoot is kept as it is.
pub open spec fn move_right(mp: int, n: int) -> int {
    if mp + n == TAPE_SIZE {
        0
    } else {
        mp + n
    }
}

pub open spec fn on_tape(m: Machine) -> bool {
    0 <= m.mp < TAPE_SIZE
}

pub open spec fn cell(m: Machine) -> u8 {
    m.tape[m.mp]
}

pub open spec fn set_cell(m: Machine, v: u8) -> Machine {
    Machine { tape: m.tape.update(m.mp, v), ..m }
}

/// Moves the instruction cursor on by one, or reports the end of the program
/// when it stands on the last instruction.
pub open spec fn advance(ops: Seq<OpCode>, m: Machine, out: Option<u8>) -> StepOutcome {
    if m.ip == ops.len() - 1 {
        StepOutcome { result: Err(Error::EndOfProgram), machine: m, output: out }
    } else {
        StepOutcome { result: Ok(()), machine: Machine { ip: m.ip + 1, ..m }, output: out }
    }
}

pub open spec fn fail(m: Machine, e: Error) -> StepOutcome {
    StepOutcome { result: Err(e), machine: m, output: None }
}

/// Jumps to the bracket at `t` and moves on past it.
pub open spec fn jump(ops: Seq<OpCode>, m: Machine, t: int) -> StepOutcome {
    advance(ops, Machine { ip: t, ..m }, None)
}

/// Executes the instruction under the instruction cursor. `input` is the byte
/// offered to an input instruction.
pub open spec fn execute(ops: Seq<OpCode>, m: Machine, input: Option<u8>) -> StepOutcome {
    match ops[m.ip] {
        OpCode::OpLeftShift(n) => advance(ops, Machine { mp: move_left(m.mp, n as int), ..m }, None),
        OpCode::OpRightShift(n) => if m.mp + n > usize::MAX {
            fail(m, Error::CursorOutOfTape)
        } else {
            advance(ops, Machine { mp: move_right(m.mp, n as int), ..m }, None)
        },
        _ => if !on_tape(m) {
            fail(m, Error::CursorOutOfTape)
        } else {
            match ops[m.ip] {
                OpCode::OpPlus(n) => advance(ops, set_cell(m, add_u8(cell(m), n)), None),
                OpCode::OpMinus(n) => advance(ops, set_cell(m, sub_u8(cell(m), n)), None),
                OpCode::OpDot => advance(ops, m, Some(cell(m))),
                OpCode::OpComa => match input {
                    Some(b) => advance(ops, set_cell(m, b), None),
                    None => fail(m, Error::InputExhausted),
                },
                OpCode::OpLeftBracket(target) => if cell(m) != 0 {
                    advance(ops, m, None)
                } else {
                    match target {
                        Some(t) => if t >= ops.len() {
                            fail(m, Error::MissingRightBracket)
                        } else {
                            jump(ops, m, t as int)
                        },
                        None => match match_forward(ops, m.ip) {
                            Some(t) => jump(ops, m, t),
                            None => fail(m, Error::MissingRightBracket),
                        },
                    }
                },
                OpCode::OpRightBracket(target) => if cell(m) == 0 {
                    advance(ops, m, None)
                } else {
                    match target {
                        Some(t) => if t >= ops.len() {
                            fail(m, Error::MissingRightBracket)
                        } else {
                            jump(ops, m, t as int)
                        },
                        None => match match_backward(ops, m.ip) {
                            Some(t) => jump(ops, m, t),
                            None => fail(m, Error::MissingLeftBracket),
                        },
                    }
                },
                _ => advance(ops, m, None),
            }
        },
    }
}

/// The input byte that a run offers the instruction under the cursor, having
/// already consumed `pos` bytes of `input`.
pub open spec fn offered(ops: Seq<OpCode>, m: Machine, input: Seq<u8>, pos: int) -> Option<u8> {
    if ops[m.ip] is OpComa && 0 <= pos < input.len() {
        Some(input[pos])
    } else {
        None
    }
}

/// Input bytes consumed by the instruction under the cursor.
pub open spec fn consumed(ops: Seq<OpCode>, m: Machine) -> int {
    if ops[m.ip] is OpComa {
        1
    } else {
        0
    }
}

pub open spec fn option_seq(o: Option<u8>) -> Seq<u8> {
    match o {
        Some(b) => seq![b],
        None => Seq::empty(),
    }
}

/// Runs at most `fuel` instructions from `m`, reading `input` from `pos` on.
/// Reaching the end of the program is success; any other failure stops the
/// run with that failure; running out of fuel stops it with
/// `StepLimitReached`.
pub open spec fn run_from(
    ops: Seq<OpCode>,
    m: Machine,
    input: Seq<u8>,
    pos: int,
    fuel: nat,
) -> RunOutcome
    decreases fuel,
{
    if ops.len() == 0 {
        RunOutcome { result: Ok(()), machine: m, output: Seq::empty() }
    } else if fuel == 0 {
        RunOutcome { result: Err(Error::StepLimitReached), machine: m, output: Seq::empty() }
    } else {
        let s = execute(ops, m, offered(ops, m, input, pos));
        match s.result {
            Ok(()) => {
                let rest = run_from(ops, s.machine, input, pos + consumed(ops, m), (fuel - 1) as nat);
                RunOutcome {
                    result: rest.result,
                    machine: rest.machine,
                    output: option_seq(s.output) + rest.output,
                }
            },
            Err(Error::EndOfProgram) => RunOutcome {
                result: Ok(()),
                machine: s.machine,
                output: option_seq(s.output),
            },
            Err(e) => RunOutcome { result: Err(e), machine: s.machine, output: option_seq(s.output) },
        }
    }
}

/// An instruction cursor that stands on an instruction, or at zero in an
/// empty program, and a tape of the right size.
pub open spec fn machine_fits(ops: Seq<OpCode>, m: Machine) -> bool {
    &&& m.tape.len() == TAPE_SIZE
    &&& 0 <= m.mp <= usize::MAX
    &&& if ops.len() == 0 {
        m.ip == 0
    } else {
        0 <= m.ip < ops.len()
    }
}

/// One more symbol never shortens a program.
pub proof fn lemma_push_symbol_len(ops: Seq<OpCode>, b: u8)
    ensures
        push_symbol(ops, b).len() >= ops.len(),
{
}

/// Compiling one more symbol keeps every recorded target right.
pub proof fn lemma_push_symbol_targets(ops: Seq<OpCode>, b: u8)
    requires
        targets_ok(ops),
    ensures
        targets_ok(push_symbol(ops, b)),
{
    let n = push_symbol(ops, b);
    assert forall|x: int| 0 <= x < n.len() implies #[trigger] target_ok(n, x) by {
        if x < ops.len() {
            assert(target_ok(ops, x));
            match ops[x] {
                OpCode::OpLeftBracket(Some(t)) => {
                    lemma_scan_forward_bounds(ops, x + 1, 0);
                    lemma_scan_forward_agree(ops, n, x + 1, 0);
                },
                OpCode::OpRightBracket(Some(t)) => {
                    lemma_scan_backward_bounds(ops, x - 1, 0);
                    if x >= 1 {
                        lemma_scan_backward_agree(ops, n, x - 1, 0);
                    }
                },
                _ => {},
            }
        }
    }
}

} // verus!
