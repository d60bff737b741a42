use brainfuck_interpreter::BrainFuckInterpreter;
use brainfuck_interpreter::Error;
use brainfuck_interpreter::OpCode;
use brainfuck_interpreter::State;

const LIMIT: u64 = 10_000_000;

fn loaded(source: &str) -> BrainFuckInterpreter {
    let mut interpreter = BrainFuckInterpreter::new();
    interpreter.load(source.as_bytes().to_vec());
    interpreter
}

fn run_source(source: &str, resolve: bool, input: &[u8]) -> (Result<(), Error>, Vec<u8>) {
    let mut interpreter = loaded(source);
    if resolve {
        if let Err(e) = interpreter.optimize_jumps() {
            return (Err(e), Vec::new());
        }
    }
    let mut output = Vec::new();
    let r = interpreter.run(&input.to_vec(), &mut output, LIMIT);
    (r, output)
}

#[test]
fn plus_run_of_300_folds_to_44() {
    let interpreter = loaded(&"+".repeat(300));
    assert_eq!(interpreter.op_codes(), &vec![OpCode::OpPlus(44)]);
}

#[test]
fn plus_run_executes_to_count_modulo_256() {
    for n in [1usize, 7, 255, 256, 257, 300, 1000] {
        let mut interpreter = loaded(&"+".repeat(n));
        let mut output = Vec::new();
        assert_eq!(interpreter.run(&Vec::new(), &mut output, LIMIT), Ok(()));
        assert_eq!(interpreter.memory()[0] as usize, n % 256);
    }
}

#[test]
fn compile_folds_runs_and_skips_comments() {
    let interpreter = loaded("+++ --x<<>>>\n[].,");
    assert_eq!(
        interpreter.op_codes(),
        &vec![
            OpCode::OpPlus(3),
            OpCode::OpMinus(2),
            OpCode::OpLeftShift(2),
            OpCode::OpRightShift(3),
            OpCode::OpLeftBracket(None),
            OpCode::OpRightBracket(None),
            OpCode::OpDot,
            OpCode::OpComa,
        ]
    );
}

#[test]
fn move_count_wraps_at_65536() {
    let interpreter = loaded(&">".repeat(65537));
    assert_eq!(interpreter.op_codes(), &vec![OpCode::OpRightShift(1)]);
}

#[test]
fn brackets_are_never_folded() {
    let interpreter = loaded("[[]]");
    assert_eq!(interpreter.op_codes().len(), 4);
}

#[test]
fn optimize_jumps_records_partners() {
    let mut interpreter = loaded("+[-[>]<]");
    assert_eq!(interpreter.optimize_jumps(), Ok(()));
    assert_eq!(
        interpreter.op_codes(),
        &vec![
            OpCode::OpPlus(1),
            OpCode::OpLeftBracket(Some(7)),
            OpCode::OpMinus(1),
            OpCode::OpLeftBracket(Some(5)),
            OpCode::OpRightShift(1),
            OpCode::OpRightBracket(Some(3)),
            OpCode::OpLeftShift(1),
            OpCode::OpRightBracket(Some(1)),
        ]
    );
}

#[test]
fn optimize_jumps_twice_changes_nothing() {
    let mut interpreter = loaded("[[][]]");
    assert_eq!(interpreter.optimize_jumps(), Ok(()));
    let first = interpreter.op_codes().clone();
    assert_eq!(interpreter.optimize_jumps(), Ok(()));
    assert_eq!(interpreter.op_codes(), &first);
}

#[test]
fn resolved_and_scanned_loops_give_same_output() {
    let programs = [
        "++++++[>++++++++++<-]>+.",
        "++++++++[>++++[>++>+++>+++>+<<<<-]>+>+>->>+[<]<-]>>.>---.+++++++..+++.>>.<-.<.+++.------.--------.>>+.>++.",
        "+++[>+++[>+.<-]<-]",
        ",[.,]",
        "+[>+<-]>[-]+++.",
    ];
    for p in programs {
        let plain = run_source(p, false, b"abc");
        let resolved = run_source(p, true, b"abc");
        assert_eq!(plain, resolved, "program {}", p);
    }
}

#[test]
fn hello_world() {
    let (r, output) = run_source(
        "++++++++[>++++[>++>+++>+++>+<<<<-]>+>+>->>+[<]<-]>>.>---.+++++++..+++.>>.<-.<.+++.------.--------.>>+.>++.",
        true,
        b"",
    );
    assert_eq!(r, Ok(()));
    assert_eq!(output, b"Hello World!\n".to_vec());
}

#[test]
fn reset_after_run_zeroes_tape_and_keeps_program() {
    let mut interpreter = loaded("+++>++[-]<.");
    assert_eq!(interpreter.optimize_jumps(), Ok(()));
    let program = interpreter.op_codes().clone();
    let mut output = Vec::new();
    assert_eq!(interpreter.run(&Vec::new(), &mut output, LIMIT), Ok(()));
    assert_eq!(interpreter.memory()[0], 3);
    interpreter.reset();
    assert_eq!(interpreter.state(), State::Ready);
    assert!(interpreter.memory().iter().all(|&c| c == 0));
    assert_eq!(interpreter.memory().len(), 30_000);
    assert_eq!(interpreter.op_code_pointer(), 0);
    assert_eq!(interpreter.memory_pointer(), 0);
    assert_eq!(interpreter.op_codes(), &program);
}

#[test]
fn rerun_after_reset_repeats_output() {
    let mut interpreter = loaded("++++++[>++++++++++<-]>+.+.");
    let mut first = Vec::new();
    assert_eq!(interpreter.run(&Vec::new(), &mut first, LIMIT), Ok(()));
    interpreter.reset();
    let mut second = Vec::new();
    assert_eq!(interpreter.run(&Vec::new(), &mut second, LIMIT), Ok(()));
    assert_eq!(first, vec![61, 62]);
    assert_eq!(first, second);
}

#[test]
fn move_left_from_first_cell_clamps_to_last() {
    let mut interpreter = loaded("<");
    let mut output = Vec::new();
    assert_eq!(interpreter.step(None, &mut output), Err(Error::EndOfProgram));
    assert_eq!(interpreter.memory_pointer(), 29_999);
    let mut interpreter = loaded("<<<<<");
    assert_eq!(interpreter.step(None, &mut output), Err(Error::EndOfProgram));
    assert_eq!(interpreter.memory_pointer(), 29_999);
}

#[test]
fn move_right_from_last_cell_wraps_to_first() {
    let mut interpreter = loaded("<>");
    let mut output = Vec::new();
    assert_eq!(interpreter.step(None, &mut output), Ok(()));
    assert_eq!(interpreter.memory_pointer(), 29_999);
    assert_eq!(interpreter.step(None, &mut output), Err(Error::EndOfProgram));
    assert_eq!(interpreter.memory_pointer(), 0);
}

#[test]
fn long_move_right_leaves_the_tape() {
    let source = format!("{}+", ">".repeat(30_001));
    let (r, _) = run_source(&source, false, b"");
    assert_eq!(r, Err(Error::CursorOutOfTape));
    let source = format!("{}<+.", ">".repeat(30_005));
    let (r, output) = run_source(&source, false, b"");
    assert_eq!(r, Ok(()));
    assert_eq!(output, vec![1]);
}

#[test]
fn unmatched_open_fails_missing_right_bracket() {
    assert_eq!(run_source("[", false, b"").0, Err(Error::MissingRightBracket));
    assert_eq!(run_source("[", true, b"").0, Err(Error::MissingRightBracket));
    assert_eq!(run_source("+[-[]", true, b"").0, Err(Error::MissingRightBracket));
}

#[test]
fn lone_close_fails_missing_left_bracket() {
    assert_eq!(run_source("+]", false, b"").0, Err(Error::MissingLeftBracket));
    assert_eq!(run_source("+]", true, b"").0, Err(Error::MissingLeftBracket));
}

#[test]
fn canonical_program_outputs_equals_sign() {
    let (r, output) = run_source("++++++[>++++++++++<-]>+.", false, b"");
    assert_eq!(r, Ok(()));
    assert_eq!(output, vec![61]);
    assert_eq!(output[0] as char, '=');
}

#[test]
fn empty_program_runs_to_end() {
    let mut interpreter = loaded("");
    assert!(interpreter.op_codes().is_empty());
    let mut output = Vec::new();
    assert_eq!(interpreter.run(&Vec::new(), &mut output, LIMIT), Ok(()));
    assert_eq!(interpreter.state(), State::Ended);
    assert!(interpreter.memory().iter().all(|&c| c == 0));
    assert!(output.is_empty());
}

#[test]
fn second_run_without_reset_is_not_ready() {
    let mut interpreter = loaded("+.");
    let mut output = Vec::new();
    assert_eq!(interpreter.run(&Vec::new(), &mut output, LIMIT), Ok(()));
    assert_eq!(interpreter.run(&Vec::new(), &mut output, LIMIT), Err(Error::NotReady));
    assert_eq!(output, vec![1]);
    assert_eq!(interpreter.state(), State::Ended);
}

#[test]
fn failed_run_leaves_error_state() {
    let mut interpreter = loaded("+]");
    let mut output = Vec::new();
    assert_eq!(interpreter.run(&Vec::new(), &mut output, LIMIT), Err(Error::MissingLeftBracket));
    assert_eq!(interpreter.state(), State::Error);
    assert_eq!(interpreter.run(&Vec::new(), &mut output, LIMIT), Err(Error::NotReady));
}

#[test]
fn input_is_read_in_order() {
    let (r, output) = run_source(",+.,.", false, b"AZ");
    assert_eq!(r, Ok(()));
    assert_eq!(output, b"BZ".to_vec());
}

#[test]
fn exhausted_input_fails() {
    let (r, output) = run_source(",.,", false, b"x");
    assert_eq!(r, Err(Error::InputExhausted));
    assert_eq!(output, b"x".to_vec());
}

#[test]
fn step_limit_stops_endless_loop() {
    let mut interpreter = loaded("+[]");
    let mut output = Vec::new();
    assert_eq!(interpreter.run(&Vec::new(), &mut output, 100), Err(Error::StepLimitReached));
    assert_eq!(interpreter.state(), State::Error);
}

#[test]
fn step_lifecycle() {
    let mut interpreter = loaded("+.");
    let mut output = Vec::new();
    assert_eq!(interpreter.state(), State::Ready);
    assert!(!interpreter.awaits_input());
    assert_eq!(interpreter.step(None, &mut output), Ok(()));
    assert_eq!(interpreter.state(), State::Running);
    assert_eq!(interpreter.step(None, &mut output), Err(Error::EndOfProgram));
    assert_eq!(interpreter.state(), State::Ended);
    assert_eq!(output, vec![1]);
    assert_eq!(interpreter.step(None, &mut output), Err(Error::NotReady));
    assert_eq!(output, vec![1]);
}

#[test]
fn step_on_empty_program_does_nothing() {
    let mut interpreter = BrainFuckInterpreter::new();
    let mut output = Vec::new();
    assert_eq!(interpreter.step(None, &mut output), Ok(()));
    assert_eq!(interpreter.state(), State::Running);
    assert!(output.is_empty());
}

#[test]
fn awaits_input_on_input_instruction() {
    let mut interpreter = loaded("+,");
    let mut output = Vec::new();
    assert!(!interpreter.awaits_input());
    assert_eq!(interpreter.step(None, &mut output), Ok(()));
    assert!(interpreter.awaits_input());
    assert_eq!(interpreter.step(Some(9), &mut output), Err(Error::EndOfProgram));
    assert_eq!(interpreter.memory()[0], 9);
}

#[test]
fn cell_arithmetic_wraps() {
    let (r, output) = run_source("-.+.", false, b"");
    assert_eq!(r, Ok(()));
    assert_eq!(output, vec![255, 0]);
}

#[test]
fn load_appends_to_program() {
    let mut interpreter = loaded("++");
    interpreter.load(b"+[".to_vec());
    assert_eq!(
        interpreter.op_codes(),
        &vec![OpCode::OpPlus(3), OpCode::OpLeftBracket(None)]
    );
}

#[test]
fn error_messages() {
    assert_eq!(Error::MissingLeftBracket.message(), "Missing left bracket");
    assert_eq!(Error::MissingRightBracket.message(), "Missing right bracket");
    assert_eq!(Error::NotReady.message(), "Not ready (end of program or error encountered)");
}
