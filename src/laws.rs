use vstd::prelude::*;
use crate::brain_fuck_interpreter::BrainFuckInterpreter;
use crate::error::Error;
use crate::op_code::{same_kind, strip_all, OpCode};
use crate::scan::{
    lemma_matches_agree, lemma_scan_backward_bounds, lemma_scan_forward_bounds, match_backward,
    match_forward, target_ok, targets_ok,
};
use crate::semantics::{
    cell, compile, compile_onto, consumed, execute, initial_machine, lemma_push_symbol_targets,
    machine_fits, offered, on_tape, run_from, Machine, State, PLUS, TAPE_SIZE,
};

verus! {

/// `n` copies of the byte `b`.
pub open spec fn repeat_byte(b: u8, n: nat) -> Seq<u8> {
    Seq::new(n, |i: int| b)
}

proof fn lemma_compile_plus_run(n: nat)
    requires
        n >= 1,
    ensures
        compile(repeat_byte(PLUS, n)) == seq![OpCode::OpPlus((n % 256) as u8)],
    decreases n,
{
    let raw = repeat_byte(PLUS, n);
    if n == 1 {
        assert(raw.drop_last() =~= Seq::<u8>::empty());
        assert(compile_onto(Seq::empty(), Seq::<u8>::empty()) == Seq::<OpCode>::empty());
        assert(Seq::<OpCode>::empty().push(OpCode::OpPlus(1)) =~= seq![OpCode::OpPlus(1)]);
    } else {
        assert(raw.drop_last() =~= repeat_byte(PLUS, (n - 1) as nat));
        lemma_compile_plus_run((n - 1) as nat);
        let prev = seq![OpCode::OpPlus(((n - 1) as nat % 256) as u8)];
        assert(prev.update(0, OpCode::OpPlus((n % 256) as u8)) =~= seq![OpCode::OpPlus((n % 256) as u8)]);
    }
}

/// A run of `n` plus symbols compiles to one instruction, and executing it
/// on a zero cell leaves `n mod 256` there.
pub proof fn lemma_plus_run_counts_modulo(n: nat, m: Machine)
    requires
        n >= 1,
        m.tape.len() == TAPE_SIZE,
        on_tape(m),
        cell(m) == 0,
        m.ip == 0,
    ensures
        compile(repeat_byte(PLUS, n)) == seq![OpCode::OpPlus((n % 256) as u8)],
        cell(execute(compile(repeat_byte(PLUS, n)), m, None).machine) == n % 256,
{
    lemma_compile_plus_run(n);
}

/// A compiled program carries no wrong jump target.
pub proof fn lemma_compile_targets_ok(ops: Seq<OpCode>, raw: Seq<u8>)
    requires
        targets_ok(ops),
    ensures
        targets_ok(compile_onto(ops, raw)),
    decreases raw.len(),
{
    if raw.len() > 0 {
        lemma_compile_targets_ok(ops, raw.drop_last());
        lemma_push_symbol_targets(compile_onto(ops, raw.drop_last()), raw.last());
    }
}

/// Executing an instruction keeps the machine fitting the program.
pub proof fn lemma_execute_fits(ops: Seq<OpCode>, m: Machine, input: Option<u8>)
    requires
        machine_fits(ops, m),
        ops.len() > 0,
    ensures
        machine_fits(ops, execute(ops, m, input).machine),
{
    lemma_scan_forward_bounds(ops, m.ip + 1, 0);
    lemma_scan_backward_bounds(ops, m.ip - 1, 0);
}

proof fn lemma_strip_keeps_kind(op: OpCode)
    ensures
        same_kind(op.strip(), op),
        !op.is_open() && !op.is_close() ==> op.strip() == op,
{
}

/// Two programs that differ in jump targets only, each target right,
/// execute any instruction alike.
proof fn lemma_execute_agree(a: Seq<OpCode>, b: Seq<OpCode>, m: Machine, input: Option<u8>)
    requires
        targets_ok(a),
        targets_ok(b),
        strip_all(a) == strip_all(b),
        machine_fits(a, m),
        a.len() > 0,
    ensures
        execute(a, m, input) == execute(b, m, input),
        a[m.ip] is OpComa <==> b[m.ip] is OpComa,
{
    assert(a.len() == strip_all(a).len());
    assert(b.len() == strip_all(b).len());
    assert forall|x: int| 0 <= x < a.len() implies same_kind(#[trigger] a[x], b[x]) by {
        assert(strip_all(a)[x] == strip_all(b)[x]);
        assert(strip_all(a)[x] == a[x].strip());
        assert(strip_all(b)[x] == b[x].strip());
        lemma_strip_keeps_kind(a[x]);
        lemma_strip_keeps_kind(b[x]);
    }
    assert(strip_all(a)[m.ip] == strip_all(b)[m.ip]);
    assert(strip_all(a)[m.ip] == a[m.ip].strip());
    assert(strip_all(b)[m.ip] == b[m.ip].strip());
    lemma_strip_keeps_kind(a[m.ip]);
    lemma_strip_keeps_kind(b[m.ip]);
    lemma_matches_agree(a, b, m.ip);
    assert(target_ok(a, m.ip));
    assert(target_ok(b, m.ip));
    lemma_scan_forward_bounds(a, m.ip + 1, 0);
    lemma_scan_backward_bounds(a, m.ip - 1, 0);
}

/// Jump targets recorded ahead of time change nothing that a run does:
/// two programs that differ in jump targets only, each target right, run
/// alike from any machine, with the same result, machine and output.
pub proof fn lemma_resolution_preserves_runs(
    a: Seq<OpCode>,
    b: Seq<OpCode>,
    m: Machine,
    input: Seq<u8>,
    pos: int,
    fuel: nat,
)
    requires
        targets_ok(a),
        targets_ok(b),
        strip_all(a) == strip_all(b),
        machine_fits(a, m),
    ensures
        run_from(a, m, input, pos, fuel) == run_from(b, m, input, pos, fuel),
    decreases fuel,
{
    assert(a.len() == strip_all(a).len());
    assert(b.len() == strip_all(b).len());
    if a.len() > 0 && fuel > 0 {
        lemma_execute_agree(a, b, m, offered(a, m, input, pos));
        assert(offered(a, m, input, pos) == offered(b, m, input, pos));
        assert(consumed(a, m) == consumed(b, m));
        let s = execute(a, m, offered(a, m, input, pos));
        lemma_execute_fits(a, m, offered(a, m, input, pos));
        lemma_resolution_preserves_runs(a, b, s.machine, input, pos + consumed(a, m), (fuel - 1) as nat);
    }
}

/// Compiling, resolving jumps and running gives what compiling and running
/// gives: `resolved` is any program that differs from the compiled source in
/// jump targets only, each of them right.
pub proof fn lemma_resolved_program_runs_alike(
    raw: Seq<u8>,
    resolved: Seq<OpCode>,
    input: Seq<u8>,
    fuel: nat,
)
    requires
        targets_ok(resolved),
        strip_all(resolved) == strip_all(compile(raw)),
    ensures
        run_from(resolved, initial_machine(), input, 0, fuel) == run_from(
            compile(raw),
            initial_machine(),
            input,
            0,
            fuel,
        ),
{
    lemma_compile_targets_ok(Seq::empty(), raw);
    assert(resolved.len() == strip_all(resolved).len());
    lemma_resolution_preserves_runs(resolved, compile(raw), initial_machine(), input, 0, fuel);
}

/// Moving left from the first cell by any positive count lands on the last
/// cell.
pub proof fn lemma_move_left_from_first_cell(ops: Seq<OpCode>, m: Machine, input: Option<u8>)
    requires
        machine_fits(ops, m),
        ops.len() > 0,
        ops[m.ip] matches OpCode::OpLeftShift(n) && n >= 1,
        m.mp == 0,
    ensures
        execute(ops, m, input).machine.mp == TAPE_SIZE - 1,
{
}

/// Moving right by one from the last cell lands on the first.
pub proof fn lemma_move_right_from_last_cell(ops: Seq<OpCode>, m: Machine, input: Option<u8>)
    requires
        machine_fits(ops, m),
        ops.len() > 0,
        ops[m.ip] == OpCode::OpRightShift(1),
        m.mp == TAPE_SIZE - 1,
    ensures
        execute(ops, m, input).machine.mp == 0,
{
}

/// A second run without a reset in between is refused with `NotReady`.
pub proof fn lemma_second_run_not_ready(
    s0: BrainFuckInterpreter,
    s1: BrainFuckInterpreter,
    s2: BrainFuckInterpreter,
    input1: Seq<u8>,
    input2: Seq<u8>,
    max1: nat,
    max2: nat,
    r1: Result<(), Error>,
    r2: Result<(), Error>,
    o0: Seq<u8>,
    o1: Seq<u8>,
    o2: Seq<u8>,
)
    requires
        BrainFuckInterpreter::ran(s0, input1, max1, r1, s1, o0, o1),
        BrainFuckInterpreter::ran(s1, input2, max2, r2, s2, o1, o2),
    ensures
        r2 == Err::<(), Error>(Error::NotReady),
        o2 == o1,
{
}

/// A reset after a run restores a zeroed tape with both cursors at the
/// start, and keeps the program, resolved targets included.
pub proof fn lemma_reset_after_run(
    s0: BrainFuckInterpreter,
    s1: BrainFuckInterpreter,
    s2: BrainFuckInterpreter,
    input: Seq<u8>,
    max_steps: nat,
    r: Result<(), Error>,
    o0: Seq<u8>,
    o1: Seq<u8>,
)
    requires
        BrainFuckInterpreter::ran(s0, input, max_steps, r, s1, o0, o1),
        s2.program() == s1.program(),
        s2.machine() == initial_machine(),
        s2.status() == State::Ready,
    ensures
        s2.program() == s0.program(),
        s2.machine().tape == Seq::new(TAPE_SIZE as nat, |i: int| 0u8),
        s2.machine().ip == 0,
        s2.machine().mp == 0,
{
}

/// Two runs of one program from the ready state, on the same input and step
/// limit, end alike and emit the same bytes: running, resetting and running
/// again repeats the output.
pub proof fn lemma_runs_from_ready_agree(
    a0: BrainFuckInterpreter,
    a1: BrainFuckInterpreter,
    b0: BrainFuckInterpreter,
    b1: BrainFuckInterpreter,
    input: Seq<u8>,
    max_steps: nat,
    ra: Result<(), Error>,
    rb: Result<(), Error>,
    oa0: Seq<u8>,
    oa1: Seq<u8>,
    ob0: Seq<u8>,
    ob1: Seq<u8>,
)
    requires
        a0.wf(),
        b0.wf(),
        a0.status() == State::Ready,
        b0.status() == State::Ready,
        a0.program() == b0.program(),
        BrainFuckInterpreter::ran(a0, input, max_steps, ra, a1, oa0, oa1),
        BrainFuckInterpreter::ran(b0, input, max_steps, rb, b1, ob0, ob1),
    ensures
        ra == rb,
        a1.machine() == b1.machine(),
        a1.status() == b1.status(),
        oa1.subrange(oa0.len() as int, oa1.len() as int) == ob1.subrange(ob0.len() as int, ob1.len() as int),
{
    let o = run_from(a0.program(), initial_machine(), input, 0, max_steps);
    assert(oa1.subrange(oa0.len() as int, oa1.len() as int) =~= o.output);
    assert(ob1.subrange(ob0.len() as int, ob1.len() as int) =~= o.output);
}

/// Without recorded targets, an open bracket reached on a zero cell with no
/// partner after it fails with `MissingRightBracket`, and a close bracket
/// reached on a non-zero cell with no partner before it fails with
/// `MissingLeftBracket`.
pub proof fn lemma_unmatched_brackets_fail(ops: Seq<OpCode>, m: Machine, input: Option<u8>)
    requires
        machine_fits(ops, m),
        ops.len() > 0,
        on_tape(m),
    ensures
        ops[m.ip] == OpCode::OpLeftBracket(None) && cell(m) == 0 && match_forward(ops, m.ip) is None
            ==> execute(ops, m, input).result == Err::<(), Error>(Error::MissingRightBracket),
        ops[m.ip] == OpCode::OpRightBracket(None) && cell(m) != 0 && match_backward(ops, m.ip) is None
            ==> execute(ops, m, input).result == Err::<(), Error>(Error::MissingLeftBracket),
{
}

/// An empty source compiles to an empty program, and a run of it succeeds at
/// once, leaving the machine as it was and emitting nothing.
pub proof fn lemma_empty_program(m: Machine, input: Seq<u8>, fuel: nat)
    ensures
        compile(Seq::empty()) == Seq::<OpCode>::empty(),
        run_from(Seq::empty(), m, input, 0, fuel).result == Ok::<(), Error>(()),
        run_from(Seq::empty(), m, input, 0, fuel).machine == m,
        run_from(Seq::empty(), m, input, 0, fuel).output == Seq::<u8>::empty(),
{
}

} // verus!
