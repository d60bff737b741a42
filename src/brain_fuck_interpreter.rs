use vstd::prelude::*;
use crate::error::Error;
use crate::op_code::{same_kind, strip_all, OpCode};
use crate::scan::{
    lemma_match_forward_backward, lemma_matches_agree, lemma_scan_backward_bounds,
    lemma_scan_forward_bounds, match_backward, match_forward, scan_backward, scan_forward,
    target_ok, target_paired, targets_ok, targets_paired,
};
use crate::semantics::{
    advance, compile_onto, execute, initial_machine, lemma_push_symbol_len,
    lemma_push_symbol_targets, machine_fits, offered, option_seq, push_symbol, run_from, Machine,
    State, CLOSE, COMMA, DOT, LEFT, MINUS, OPEN, PLUS, RIGHT, TAPE_SIZE,
};

verus! {

/// An interpreter: a compiled program, its instruction cursor, a tape of
/// `TAPE_SIZE` cells with its cursor, and a lifecycle state.
pub struct BrainFuckInterpreter {
    op_codes: Vec<OpCode>,
    op_code_pointer: usize,
    memory: Vec<u8>,
    memory_pointer: usize,
    state: State,
}

/// Whether a step may execute: the interpreter has not ended or failed.
pub open spec fn runnable(state: State) -> bool {
    state == State::Ready || state == State::Running
}

/// The state after a step or a run that ended with `result`.
pub open spec fn state_after(result: Result<(), Error>) -> State {
    match result {
        Ok(()) => State::Running,
        Err(Error::EndOfProgram) => State::Ended,
        Err(_) => State::Error,
    }
}

/// The close bracket matching the open bracket at `i`, found by scanning.
fn matching_close(ops: &Vec<OpCode>, i: usize) -> (r: Option<usize>)
    requires
        i < ops.len(),
    ensures
        match r {
            Some(j) => match_forward(ops@, i as int) == Some(j as int),
            None => match_forward(ops@, i as int) is None,
        },
{
    let mut k: usize = i + 1;
    let mut depth: usize = 0;
    while k < ops.len()
        invariant
            i + 1 <= k <= ops.len(),
            depth <= k,
            scan_forward(ops@, k as int, depth as int) == match_forward(ops@, i as int),
        decreases ops.len() - k,
    {
        match ops[k] {
            OpCode::OpRightBracket(_) => {
                if depth == 0 {
                    return Some(k);
                }
                depth = depth - 1;
            },
            OpCode::OpLeftBracket(_) => {
                depth = depth + 1;
            },
            _ => {},
        }
        k = k + 1;
    }
    None
}

/// The open bracket matching the close bracket at `j`, found by scanning.
fn matching_open(ops: &Vec<OpCode>, j: usize) -> (r: Option<usize>)
    requires
        j < ops.len(),
    ensures
        match r {
            Some(i) => match_backward(ops@, j as int) == Some(i as int),
            None => match_backward(ops@, j as int) is None,
        },
{
    let mut k: usize = j;
    let mut depth: usize = 0;
    while k > 0
        invariant
            k <= j < ops.len(),
            depth <= j - k,
            scan_backward(ops@, k - 1, depth as int) == match_backward(ops@, j as int),
        decreases k,
    {
        match ops[k - 1] {
            OpCode::OpLeftBracket(_) => {
                if depth == 0 {
                    return Some(k - 1);
                }
                depth = depth - 1;
            },
            OpCode::OpRightBracket(_) => {
                depth = depth + 1;
            },
            _ => {},
        }
        k = k - 1;
    }
    None
}

/// Every open bracket carries a jump target.
pub open spec fn all_opens_resolved(ops: Seq<OpCode>) -> bool {
    forall|i: int| 0 <= i < ops.len() && (#[trigger] ops[i]).is_open() ==> ops[i] matches OpCode::OpLeftBracket(Some(_))
}

/// Every open bracket has a partner to be found by scanning.
pub open spec fn all_opens_match(ops: Seq<OpCode>) -> bool {
    forall|i: int| 0 <= i < ops.len() && (#[trigger] ops[i]).is_open() ==> match_forward(ops, i) is Some
}

/// Replacing the instruction at `k` by one of the same kind whose target, if
/// any, is the partner a scan finds keeps every target right.
proof fn lemma_retarget(ops: Seq<OpCode>, k: int, op: OpCode)
    requires
        targets_ok(ops),
        0 <= k < ops.len(),
        op.strip() == ops[k].strip(),
        op matches OpCode::OpLeftBracket(Some(t)) ==> match_forward(ops, k) == Some(t as int),
        op matches OpCode::OpRightBracket(Some(t)) ==> match_backward(ops, k) == Some(t as int),
    ensures
        targets_ok(ops.update(k, op)),
{
    let n = ops.update(k, op);
    assert forall|x: int| 0 <= x < n.len() implies #[trigger] target_ok(n, x) by {
        lemma_matches_agree(ops, n, x);
        assert(target_ok(ops, x));
    }
}

/// Compiling one more symbol keeps recorded targets paired.
proof fn lemma_push_symbol_paired(ops: Seq<OpCode>, b: u8)
    requires
        targets_paired(ops),
    ensures
        targets_paired(push_symbol(ops, b)),
{
    let n = push_symbol(ops, b);
    assert forall|x: int| 0 <= x < n.len() implies #[trigger] target_paired(n, x) by {
        if x < ops.len() {
            assert(target_paired(ops, x));
        }
    }
}

impl BrainFuckInterpreter {
    /// The compiled program.
    pub closed spec fn program(&self) -> Seq<OpCode> {
        self.op_codes@
    }

    /// Instruction cursor, tape and tape cursor.
    pub closed spec fn machine(&self) -> Machine {
        Machine {
            ip: self.op_code_pointer as int,
            tape: self.memory@,
            mp: self.memory_pointer as int,
        }
    }

    /// The lifecycle state.
    pub closed spec fn status(&self) -> State {
        self.state
    }

    /// Every recorded jump target is right, the machine fits the program,
    /// and a ready interpreter has a fresh machine.
    pub open spec fn wf(&self) -> bool {
        &&& targets_ok(self.program())
        &&& targets_paired(self.program())
        &&& machine_fits(self.program(), self.machine())
        &&& self.status() == State::Ready ==> self.machine() == initial_machine()
    }

    /// `after` is what `run` left of `before`, given `input` and a step limit,
    /// returning `r` and taking the output buffer from `out_before` to
    /// `out_after`.
    pub open spec fn ran(
        before: BrainFuckInterpreter,
        input: Seq<u8>,
        max_steps: nat,
        r: Result<(), Error>,
        after: BrainFuckInterpreter,
        out_before: Seq<u8>,
        out_after: Seq<u8>,
    ) -> bool {
        &&& after.program() == before.program()
        &&& if before.status() != State::Ready {
            &&& r == Err::<(), Error>(Error::NotReady)
            &&& after.machine() == before.machine()
            &&& after.status() == before.status()
            &&& out_after == out_before
        } else {
            let o = run_from(before.program(), before.machine(), input, 0, max_steps);
            &&& r == o.result
            &&& after.machine() == o.machine
            &&& after.status() == (if r is Ok { State::Ended } else { State::Error })
            &&& out_after == out_before + o.output
        }
    }

    /// An interpreter with no program, a zeroed tape, ready to run.
    pub fn new() -> (r: BrainFuckInterpreter)
        ensures
            r.wf(),
            r.program() == Seq::<OpCode>::empty(),
            r.machine() == initial_machine(),
            r.status() == State::Ready,
    {
        let mut memory: Vec<u8> = Vec::new();
        while memory.len() < TAPE_SIZE
            invariant
                memory.len() <= TAPE_SIZE,
                forall|i: int| 0 <= i < memory.len() ==> memory@[i] == 0,
            decreases TAPE_SIZE - memory.len(),
        {
            memory.push(0);
        }
        let r = BrainFuckInterpreter {
            op_codes: Vec::new(),
            op_code_pointer: 0,
            memory,
            memory_pointer: 0,
            state: State::Ready,
        };
        assert(r.machine().tape =~= initial_machine().tape);
        r
    }

    /// Appends the compiled form of `data` to the program, folding runs of
    /// `+`, `-`, `<` and `>` into counted instructions and ignoring every
    /// byte that is not one of the eight symbols; then resets.
    pub fn load(&mut self, data: Vec<u8>)
        requires
            old(self).wf(),
        ensures
            final(self).wf(),
            final(self).program() == compile_onto(old(self).program(), data@),
            final(self).machine() == initial_machine(),
            final(self).status() == State::Ready,
    {
        let ghost start = self.op_codes@;
        let mut i: usize = 0;
        while i < data.len()
            invariant
                i <= data.len(),
                self.wf(),
                start == old(self).op_codes@,
                self.op_codes@ == compile_onto(start, data@.subrange(0, i as int)),
                self.memory@ == old(self).memory@,
                self.memory_pointer == old(self).memory_pointer,
                self.op_code_pointer == old(self).op_code_pointer,
                self.state == old(self).state,
            decreases data.len() - i,
        {
            let op = data[i];
            proof {
                lemma_push_symbol_targets(self.op_codes@, op);
                lemma_push_symbol_len(self.op_codes@, op);
                lemma_push_symbol_paired(self.op_codes@, op);
                assert(data@.subrange(0, i + 1).drop_last() =~= data@.subrange(0, i as int));
            }
            let n = self.op_codes.len();
            let last: Option<OpCode> = if n > 0 {
                Some(self.op_codes[n - 1])
            } else {
                None
            };
            if op == PLUS {
                match last {
                    Some(OpCode::OpPlus(v)) => self.op_codes[n - 1] = OpCode::OpPlus(v.wrapping_add(1)),
                    _ => self.op_codes.push(OpCode::OpPlus(1)),
                }
            } else if op == MINUS {
                match last {
                    Some(OpCode::OpMinus(v)) => self.op_codes[n - 1] = OpCode::OpMinus(v.wrapping_add(1)),
                    _ => self.op_codes.push(OpCode::OpMinus(1)),
                }
            } else if op == LEFT {
                match last {
                    Some(OpCode::OpLeftShift(v)) => self.op_codes[n - 1] = OpCode::OpLeftShift(v.wrapping_add(1)),
                    _ => self.op_codes.push(OpCode::OpLeftShift(1)),
                }
            } else if op == RIGHT {
                match last {
                    Some(OpCode::OpRightShift(v)) => self.op_codes[n - 1] = OpCode::OpRightShift(v.wrapping_add(1)),
                    _ => self.op_codes.push(OpCode::OpRightShift(1)),
                }
            } else if op == OPEN {
                self.op_codes.push(OpCode::OpLeftBracket(None));
            } else if op == CLOSE {
                self.op_codes.push(OpCode::OpRightBracket(None));
            } else if op == DOT {
                self.op_codes.push(OpCode::OpDot);
            } else if op == COMMA {
                self.op_codes.push(OpCode::OpComa);
            }
            i = i + 1;
        }
        assert(data@.subrange(0, data.len() as int) =~= data@);
        self.reset();
    }

    /// Zeroes the tape and puts its cursor on the first cell, unless the
    /// interpreter is still ready and so has not touched them.
    fn reset_memory(&mut self)
        requires
            old(self).memory@.len() == TAPE_SIZE,
        ensures
            final(self).op_codes == old(self).op_codes,
            final(self).op_code_pointer == old(self).op_code_pointer,
            final(self).state == old(self).state,
            old(self).state == State::Ready ==> final(self).memory@ == old(self).memory@
                && final(self).memory_pointer == old(self).memory_pointer,
            old(self).state != State::Ready ==> final(self).memory@ == initial_machine().tape
                && final(self).memory_pointer == 0,
    {
        if self.state == State::Ready {
            return;
        }
        let mut i: usize = 0;
        while i < self.memory.len()
            invariant
                self.memory@.len() == TAPE_SIZE,
                i <= TAPE_SIZE,
                forall|k: int| 0 <= k < i ==> self.memory@[k] == 0,
                self.op_codes == old(self).op_codes,
                self.op_code_pointer == old(self).op_code_pointer,
                self.state == old(self).state,
            decreases TAPE_SIZE - i,
        {
            self.memory[i] = 0;
            i = i + 1;
        }
        assert(self.memory@ =~= initial_machine().tape);
        self.memory_pointer = 0;
    }

    /// Returns to the ready state with the instruction cursor on the first
    /// instruction; after a run the tape is zeroed and its cursor put back on
    /// the first cell. The program, resolved targets included, is kept.
    pub fn reset(&mut self)
        requires
            old(self).wf(),
        ensures
            final(self).wf(),
            final(self).program() == old(self).program(),
            final(self).machine() == initial_machine(),
            final(self).status() == State::Ready,
    {
        self.reset_memory();
        self.op_code_pointer = 0;
        self.state = State::Ready;
    }

    /// Moves the instruction cursor on by one, or reports the end of the
    /// program when it stands on the last instruction.
    fn next_instruction(&mut self) -> (r: Result<(), Error>)
        requires
            old(self).op_code_pointer < old(self).op_codes.len(),
        ensures
            final(self).op_codes == old(self).op_codes,
            final(self).memory == old(self).memory,
            final(self).memory_pointer == old(self).memory_pointer,
            final(self).state == old(self).state,
            r == advance(old(self).program(), old(self).machine(), None).result,
            final(self).machine() == advance(old(self).program(), old(self).machine(), None).machine,
    {
        if self.op_code_pointer == self.op_codes.len() - 1 {
            return Err(Error::EndOfProgram);
        }
        self.op_code_pointer = self.op_code_pointer + 1;
        Ok(())
    }

    /// Puts the instruction cursor on `address`; an address past the end of
    /// the program means its close bracket is missing.
    fn jump_to(&mut self, address: usize) -> (r: Result<(), Error>)
        ensures
            final(self).op_codes == old(self).op_codes,
            final(self).memory == old(self).memory,
            final(self).memory_pointer == old(self).memory_pointer,
            final(self).state == old(self).state,
            address >= old(self).op_codes.len() ==> r == Err::<(), Error>(Error::MissingRightBracket)
                && final(self).op_code_pointer == old(self).op_code_pointer,
            address < old(self).op_codes.len() ==> r is Ok && final(self).op_code_pointer == address,
    {
        if address >= self.op_codes.len() {
            return Err(Error::MissingRightBracket);
        }
        self.op_code_pointer = address;
        Ok(())
    }

    /// Executes the instruction under the instruction cursor, emitting any
    /// output byte into `output`.
    #[verifier::rlimit(40)]
    fn execute_instruction(&mut self, input: Option<u8>, output: &mut Vec<u8>) -> (r: Result<(), Error>)
        requires
            old(self).wf(),
            old(self).op_codes.len() > 0,
            old(self).state == State::Running,
        ensures
            final(self).wf(),
            final(self).op_codes == old(self).op_codes,
            final(self).state == old(self).state,
            r == execute(old(self).program(), old(self).machine(), input).result,
            final(self).machine() == execute(old(self).program(), old(self).machine(), input).machine,
            final(output)@ == old(output)@ + option_seq(
                execute(old(self).program(), old(self).machine(), input).output,
            ),
    {
        let ip = self.op_code_pointer;
        let mp = self.memory_pointer;
        let op = self.op_codes[ip];
        match op {
            OpCode::OpLeftShift(n) => {
                let moved = mp.wrapping_sub(n as usize);
                self.memory_pointer = if moved > TAPE_SIZE - 1 {
                    TAPE_SIZE - 1
                } else {
                    moved
                };
            },
            OpCode::OpRightShift(n) => {
                match mp.checked_add(n as usize) {
                    Some(moved) => {
                        self.memory_pointer = if moved == TAPE_SIZE {
                            0
                        } else {
                            moved
                        };
                    },
                    None => return Err(Error::CursorOutOfTape),
                }
            },
            _ => {
                if mp >= TAPE_SIZE {
                    return Err(Error::CursorOutOfTape);
                }
                match op {
                    OpCode::OpPlus(n) => {
                        self.memory[mp] = self.memory[mp].wrapping_add(n);
                    },
                    OpCode::OpMinus(n) => {
                        self.memory[mp] = self.memory[mp].wrapping_sub(n);
                    },
                    OpCode::OpDot => {
                        output.push(self.memory[mp]);
                    },
                    OpCode::OpComa => {
                        match input {
                            Some(b) => {
                                self.memory[mp] = b;
                            },
                            None => return Err(Error::InputExhausted),
                        }
                    },
                    OpCode::OpLeftBracket(target) => {
                        if self.memory[mp] == 0 {
                            match target {
                                Some(address) => {
                                    if self.jump_to(address).is_err() {
                                        return Err(Error::MissingRightBracket);
                                    }
                                },
                                None => {
                                    proof {
                                        lemma_scan_forward_bounds(self.op_codes@, ip + 1, 0);
                                    }
                                    match matching_close(&self.op_codes, ip) {
                                        Some(j) => self.op_code_pointer = j,
                                        None => return Err(Error::MissingRightBracket),
                                    }
                                },
                            }
                        }
                    },
                    OpCode::OpRightBracket(target) => {
                        if self.memory[mp] != 0 {
                            match target {
                                Some(address) => {
                                    if self.jump_to(address).is_err() {
                                        return Err(Error::MissingRightBracket);
                                    }
                                },
                                None => {
                                    proof {
                                        lemma_scan_backward_bounds(self.op_codes@, ip - 1, 0);
                                    }
                                    match matching_open(&self.op_codes, ip) {
                                        Some(i) => self.op_code_pointer = i,
                                        None => return Err(Error::MissingLeftBracket),
                                    }
                                },
                            }
                        }
                    },
                    _ => {},
                }
            },
        }
        let ghost ops = self.op_codes@;
        let ghost mid = self.machine();
        let r = self.next_instruction();
        proof {
            let out = execute(old(self).program(), old(self).machine(), input).output;
            assert(advance(ops, mid, out).result == r);
        }
        r
    }

    /// Executes one instruction, emitting any output byte into `output`.
    /// `input` is the byte for an input instruction to read; `None` means the
    /// input is exhausted.
    ///
    /// A ready interpreter starts running; an ended or failed one refuses with
    /// `NotReady`. An empty program makes the step do nothing. Reaching the end
    /// of the program ends the run and is reported as `EndOfProgram`; any other
    /// failure puts the interpreter in the error state.
    pub fn step(&mut self, input: Option<u8>, output: &mut Vec<u8>) -> (r: Result<(), Error>)
        requires
            old(self).wf(),
        ensures
            final(self).wf(),
            final(self).program() == old(self).program(),
            !runnable(old(self).status()) ==> r == Err::<(), Error>(Error::NotReady)
                && final(self).machine() == old(self).machine()
                && final(self).status() == old(self).status()
                && final(output)@ == old(output)@,
            runnable(old(self).status()) && old(self).program().len() == 0 ==> r is Ok
                && final(self).machine() == old(self).machine()
                && final(self).status() == State::Running
                && final(output)@ == old(output)@,
            runnable(old(self).status()) && old(self).program().len() > 0 ==> ({
                let s = execute(old(self).program(), old(self).machine(), input);
                &&& r == s.result
                &&& final(self).machine() == s.machine
                &&& final(self).status() == state_after(s.result)
                &&& final(output)@ == old(output)@ + option_seq(s.output)
            }),
    {
        if !(self.state == State::Ready || self.state == State::Running) {
            return Err(Error::NotReady);
        }
        self.state = State::Running;
        if self.op_codes.len() == 0 {
            return Ok(());
        }
        let r = self.execute_instruction(input, output);
        match r {
            Ok(()) => {},
            Err(Error::EndOfProgram) => self.state = State::Ended,
            Err(_) => self.state = State::Error,
        }
        r
    }

    /// Whether the next step executes an input instruction and so reads the
    /// byte it is given.
    pub fn awaits_input(&self) -> (r: bool)
        requires
            self.wf(),
        ensures
            r == (runnable(self.status()) && self.program().len() > 0
                && self.program()[self.machine().ip] is OpComa),
    {
        (self.state == State::Ready || self.state == State::Running) && self.op_codes.len() > 0
            && matches!(self.op_codes[self.op_code_pointer], OpCode::OpComa)
    }

    /// Runs the program from the ready state until it ends, fails, or has
    /// executed `max_steps` instructions, reading input bytes from `input` in
    /// order and appending every output byte to `output`.
    ///
    /// Reaching the end of the program (an empty program at once) ends the
    /// run with success; any failure, running out of input or of steps
    /// included, ends it in the error state. An interpreter that is not ready
    /// refuses with `NotReady` and changes nothing.
    pub fn run(&mut self, input: &Vec<u8>, output: &mut Vec<u8>, max_steps: u64) -> (r: Result<(), Error>)
        requires
            old(self).wf(),
        ensures
            final(self).wf(),
            final(self).program() == old(self).program(),
            BrainFuckInterpreter::ran(*old(self), input@, max_steps as nat, r, *final(self), old(output)@, final(output)@),
    {
        if self.state != State::Ready {
            return Err(Error::NotReady);
        }
        self.state = State::Running;
        if self.op_codes.len() == 0 {
            self.state = State::Ended;
            return Ok(());
        }
        let ghost ops = self.op_codes@;
        let ghost total = run_from(ops, old(self).machine(), input@, 0, max_steps as nat);
        let ghost out0 = old(output)@;
        let mut pos: usize = 0;
        let mut fuel: u64 = max_steps;
        while fuel > 0
            invariant
                self.wf(),
                self.op_codes@ == ops,
                ops == old(self).op_codes@,
                old(self).state == State::Ready,
                total == run_from(ops, old(self).machine(), input@, 0, max_steps as nat),
                out0 == old(output)@,
                ops.len() > 0,
                self.state == State::Running,
                pos <= input.len(),
                ({
                    let cur = run_from(ops, self.machine(), input@, pos as int, fuel as nat);
                    &&& cur.result == total.result
                    &&& cur.machine == total.machine
                    &&& output@ + cur.output == out0 + total.output
                }),
            decreases fuel,
        {
            let ghost m = self.machine();
            let ghost before = output@;
            let awaited = matches!(self.op_codes[self.op_code_pointer], OpCode::OpComa);
            let byte = if awaited && pos < input.len() {
                Some(input[pos])
            } else {
                None
            };
            let r = self.step(byte, output);
            proof {
                assert(byte == offered(ops, m, input@, pos as int));
                let s = execute(ops, m, byte);
                let rest = run_from(ops, s.machine, input@, pos + if awaited { 1int } else { 0int }, (fuel - 1) as nat);
                assert(before + (option_seq(s.output) + rest.output) =~= (before + option_seq(s.output)) + rest.output);
            }
            match r {
                Ok(()) => {
                    if awaited {
                        pos = pos + 1;
                    }
                },
                Err(Error::EndOfProgram) => {
                    assert(output@ + Seq::<u8>::empty() =~= output@);
                    return Ok(());
                },
                Err(e) => {
                    assert(output@ + Seq::<u8>::empty() =~= output@);
                    return Err(e);
                },
            }
            fuel = fuel - 1;
        }
        assert(output@ + Seq::<u8>::empty() =~= output@);
        self.state = State::Error;
        Err(Error::StepLimitReached)
    }

    /// Records the partner of every unresolved open bracket, and of its close
    /// bracket, so that loops jump without scanning. Targets already recorded
    /// are kept.
    ///
    /// Fails with `MissingRightBracket` exactly when some open bracket has no
    /// partner; the program may then be partly resolved. Either way it differs
    /// from the old one in jump targets only, and every target is right.
    pub fn optimize_jumps(&mut self) -> (r: Result<(), Error>)
        requires
            old(self).wf(),
        ensures
            final(self).wf(),
            strip_all(final(self).program()) == strip_all(old(self).program()),
            final(self).machine() == old(self).machine(),
            final(self).status() == old(self).status(),
            r is Ok <==> all_opens_match(old(self).program()),
            r is Err ==> r == Err::<(), Error>(Error::MissingRightBracket),
            r is Ok ==> all_opens_resolved(final(self).program()),
            all_opens_resolved(old(self).program()) ==> final(self).program() == old(self).program(),
    {
        let ghost orig = self.op_codes@;
        let n = self.op_codes.len();
        let mut i: usize = 0;
        while i < n
            invariant
                orig == old(self).op_codes@,
                self.wf(),
                n == self.op_codes.len() == orig.len(),
                i <= n,
                targets_ok(self.op_codes@),
                forall|k: int| 0 <= k < n ==> (#[trigger] self.op_codes@[k]).strip() == orig[k].strip(),
                forall|k: int|
                    0 <= k < i && (#[trigger] self.op_codes@[k]).is_open() ==> self.op_codes@[k] matches OpCode::OpLeftBracket(Some(_)),
                forall|k: int| 0 <= k < i && (#[trigger] orig[k]).is_open() ==> match_forward(orig, k) is Some,
                all_opens_resolved(orig) ==> self.op_codes@ == orig,
                self.op_code_pointer == old(self).op_code_pointer,
                self.memory == old(self).memory,
                self.memory_pointer == old(self).memory_pointer,
                self.state == old(self).state,
            decreases n - i,
        {
            let ghost cur = self.op_codes@;
            proof {
                assert forall|x: int| 0 <= x < n implies same_kind(#[trigger] cur[x], orig[x]) by {
                    assert(cur[x].strip() == orig[x].strip());
                }
                lemma_matches_agree(cur, orig, i as int);
                assert(target_ok(cur, i as int));
            }
            match self.op_codes[i] {
                OpCode::OpLeftBracket(None) => {
                    match matching_close(&self.op_codes, i) {
                        None => {
                            proof {
                                assert(strip_all(self.op_codes@) =~= strip_all(orig));
                            }
                            return Err(Error::MissingRightBracket);
                        },
                        Some(j) => {
                            proof {
                                lemma_scan_forward_bounds(cur, i + 1, 0);
                                lemma_retarget(cur, i as int, OpCode::OpLeftBracket(Some(j)));
                                let mid = cur.update(i as int, OpCode::OpLeftBracket(Some(j)));
                                assert forall|x: int| 0 <= x < n implies same_kind(#[trigger] cur[x], mid[x]) by {}
                                lemma_matches_agree(cur, mid, i as int);
                                lemma_match_forward_backward(mid, i as int);
                                lemma_retarget(mid, j as int, OpCode::OpRightBracket(Some(i)));
                                assert(target_paired(cur, j as int));
                                assert(target_ok(cur, j as int));
                                lemma_match_forward_backward(cur, i as int);
                                assert(cur[j as int] == OpCode::OpRightBracket(None));
                                let fin = mid.update(j as int, OpCode::OpRightBracket(Some(i)));
                                assert forall|x: int| 0 <= x < n implies #[trigger] target_paired(fin, x) by {
                                    assert(target_paired(cur, x));
                                }
                            }
                            self.op_codes[i] = OpCode::OpLeftBracket(Some(j));
                            self.op_codes[j] = OpCode::OpRightBracket(Some(i));
                        },
                    }
                },
                _ => {},
            }
            i = i + 1;
        }
        proof {
            assert(strip_all(self.op_codes@) =~= strip_all(orig));
        }
        Ok(())
    }

    /// The lifecycle state.
    pub fn state(&self) -> (r: State)
        ensures
            r == self.status(),
    {
        self.state
    }

    /// The compiled program.
    pub fn op_codes(&self) -> (r: &Vec<OpCode>)
        ensures
            r@ == self.program(),
    {
        &self.op_codes
    }

    /// The tape.
    pub fn memory(&self) -> (r: &Vec<u8>)
        ensures
            r@ == self.machine().tape,
    {
        &self.memory
    }

    /// The tape cursor.
    pub fn memory_pointer(&self) -> (r: usize)
        ensures
            r == self.machine().mp,
    {
        self.memory_pointer
    }

    /// The instruction cursor.
    pub fn op_code_pointer(&self) -> (r: usize)
        ensures
            r == self.machine().ip,
    {
        self.op_code_pointer
    }
}

} // verus!
