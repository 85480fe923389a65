use rustfck::Interpreter;
use rustfck::ParseError;
use rustfck::RunOutcome;
use rustfck::RuntimeError;

#[test]
fn three_increments_then_output() {
    let mut it = Interpreter::from_source("+++.").unwrap();
    assert_eq!(it.run(), Ok(()));
    assert_eq!(it.cell(0), Some(3));
    assert_eq!(it.output().as_slice(), &[0x03]);
}

#[test]
fn hello_world() {
    let source = "++++++++[>++++[>++>+++>+++>+<<<<-]>+>+>->>+[<]<-]>>.>---.+++++++..+++.>>.<-.<.+++.------.--------.>>+.>++.";
    let mut it = Interpreter::from_source(source).unwrap();
    assert_eq!(it.run(), Ok(()));
    assert_eq!(it.output().as_slice(), b"Hello World!\n");
}

#[test]
fn lone_close_fails_to_parse() {
    match Interpreter::from_source("]") {
        Ok(_) => panic!("a lone ] must not parse"),
        Err(e) => assert_eq!(e, ParseError::UnmatchedClose),
    }
}

#[test]
fn lone_open_fails_to_parse() {
    match Interpreter::from_source("[") {
        Ok(_) => panic!("a lone [ must not parse"),
        Err(e) => assert_eq!(e, ParseError::UnmatchedOpen),
    }
}

#[test]
fn input_byte_is_echoed() {
    let mut it = Interpreter::from_source_with_input(",.", b"A".to_vec()).unwrap();
    assert_eq!(it.run(), Ok(()));
    assert_eq!(it.cell(0), Some(b'A'));
    assert_eq!(it.output().as_slice(), b"A");
}

#[test]
fn input_bytes_are_consumed_front_to_back() {
    let mut it = Interpreter::from_source_with_input(",>,>,.<.<.", b"xyz".to_vec()).unwrap();
    assert_eq!(it.run(), Ok(()));
    assert_eq!(it.output().as_slice(), b"zyx");
}

#[test]
fn move_left_at_cell_zero_is_out_of_bounds() {
    let mut it = Interpreter::from_source("<").unwrap();
    assert_eq!(it.run(), Err(RuntimeError::OutOfBounds));
    assert_eq!(it.cursor(), 0);
    assert!(it.output().is_empty());
}

#[test]
fn error_aborts_before_later_instructions() {
    let mut it = Interpreter::from_source("<+++.").unwrap();
    assert_eq!(it.run(), Err(RuntimeError::OutOfBounds));
    assert_eq!(it.cell(0), Some(0));
    assert!(it.output().is_empty());
}

#[test]
fn move_right_past_the_last_cell_is_out_of_bounds() {
    let source = ">".repeat(30000);
    let mut it = Interpreter::from_source(&source).unwrap();
    assert_eq!(it.run(), Err(RuntimeError::OutOfBounds));
    assert_eq!(it.cursor(), 29999);
}

#[test]
fn the_tape_has_thirty_thousand_cells() {
    let it = Interpreter::from_source("").unwrap();
    assert_eq!(it.cell(29999), Some(0));
    assert_eq!(it.cell(30000), None);
}

#[test]
fn input_instruction_without_input_is_exhausted() {
    let mut it = Interpreter::from_source(",").unwrap();
    assert_eq!(it.run(), Err(RuntimeError::InputExhausted));
}

#[test]
fn input_exhausts_after_buffer_is_used_up() {
    let mut it = Interpreter::from_source_with_input(",,", b"A".to_vec()).unwrap();
    assert_eq!(it.run(), Err(RuntimeError::InputExhausted));
    assert_eq!(it.cell(0), Some(b'A'));
}

#[test]
fn increment_from_255_wraps_to_zero() {
    // 256 increments pass through 255 and wrap back to 0
    let source = "+".repeat(256);
    let mut it = Interpreter::from_source(&source).unwrap();
    assert_eq!(it.run(), Ok(()));
    assert_eq!(it.cell(0), Some(0));
}

#[test]
fn decrement_from_zero_wraps_to_255() {
    let mut it = Interpreter::from_source("-").unwrap();
    assert_eq!(it.run(), Ok(()));
    assert_eq!(it.cell(0), Some(255));
}

#[test]
fn loop_that_never_zeroes_its_cell_exceeds_every_cap() {
    let mut it = Interpreter::from_source("+[]").unwrap();
    assert_eq!(it.run_for(10000), RunOutcome::OutOfFuel);
}

#[test]
fn loop_body_runs_while_cell_is_non_zero() {
    // multiply 2 by 3 into the next cell
    let mut it = Interpreter::from_source("++[>+++<-].>.").unwrap();
    assert_eq!(it.run(), Ok(()));
    assert_eq!(it.output().as_slice(), &[0x00, 0x06]);
}

#[test]
fn loop_is_skipped_when_cell_is_zero() {
    let mut it = Interpreter::from_source("[+++.].").unwrap();
    assert_eq!(it.run(), Ok(()));
    assert_eq!(it.output().as_slice(), &[0x00]);
}

#[test]
fn empty_program_runs_and_emits_nothing() {
    let mut it = Interpreter::from_source("this is only a comment").unwrap();
    assert_eq!(it.run(), Ok(()));
    assert!(it.output().is_empty());
    assert_eq!(it.cursor(), 0);
}

#[test]
fn run_for_with_enough_fuel_matches_run() {
    let mut bounded = Interpreter::from_source("++[>+++<-]>.").unwrap();
    assert_eq!(bounded.run_for(100), RunOutcome::Done);
    assert_eq!(bounded.output().as_slice(), &[0x06]);
}

#[test]
fn run_for_reports_a_runtime_failure() {
    let mut it = Interpreter::from_source("+[<]").unwrap();
    assert_eq!(
        it.run_for(100),
        RunOutcome::Fail(RuntimeError::OutOfBounds)
    );
}
