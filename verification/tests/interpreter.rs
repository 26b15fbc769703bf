use mojikun::error::{ErrorKind, EvalError};
use mojikun::interpreter::{cell_from_byte, char_from_cell, new, Action, Status};
use mojikun::lexer::lex;
use mojikun::parser::{parse, Node};
use mojikun::runtime;
use std::collections::HashMap;

#[test]
fn test_eval_point_right_node() {
    let runtime = runtime::new();
    let mut interpreter = new(runtime);

    let ast = vec![Node::PointRight];
    interpreter.evaluate(ast, &[], u64::MAX);
    assert_eq!(1, interpreter.runtime().data_pointer())
}

#[test]
fn test_eval_point_left_node() {
    let runtime = runtime::new();
    let mut interpreter = new(runtime);

    let ast = vec![Node::PointRight, Node::PointRight, Node::PointLeft];
    interpreter.evaluate(ast, &[], u64::MAX);
    assert_eq!(1, interpreter.runtime().data_pointer())
}

#[test]
fn test_eval_thumbs_up_node() {
    let runtime = runtime::new();
    let mut interpreter = new(runtime);

    let ast = vec![Node::ThumbsUp];
    interpreter.evaluate(ast, &[], u64::MAX);
    assert_eq!(1, interpreter.runtime().data())
}

#[test]
fn test_eval_thumbs_down_node() {
    let runtime = runtime::new();
    let mut interpreter = new(runtime);

    let ast = vec![Node::ThumbsDown];
    interpreter.evaluate(ast, &[], u64::MAX);
    assert_eq!(-1, interpreter.runtime().data())
}

#[test]
fn test_eval_display_node() {
    let runtime = runtime::new();
    let mut interpreter = new(runtime);

    let ast = vec![Node::ThumbsUp; 72];
    interpreter.evaluate(ast, &[], u64::MAX);
}

#[test]
fn test_eval_save_node() {
    let runtime = runtime::new();
    let _interpreter = new(runtime);
}

#[test]
fn test_eval_loop_node() {
    let runtime = runtime::new();
    let mut interpreter = new(runtime);

    let ast = vec![Node::Loop, Node::ThumbsUp, Node::EndLoop];
    interpreter.evaluate(ast, &[], u64::MAX);
    assert_eq!(0, interpreter.runtime().data())
}

#[test]
fn test_eval_end_loop_node() {
    let runtime = runtime::new();
    let mut interpreter = new(runtime);

    // Loop twice
    let ast = vec![
        Node::ThumbsUp,
        Node::ThumbsUp,
        Node::Loop,
        // Move right once, increment, move left
        Node::PointRight,
        Node::ThumbsUp,
        Node::PointLeft,
        // Decrement so we leave the loop
        Node::ThumbsDown,
        Node::EndLoop,
        // Move right so we can see the 1 we did in the loop
        Node::PointRight,
    ];
    interpreter.evaluate(ast, &[], u64::MAX);
    assert_eq!(2, interpreter.runtime().data())
}

#[test]
fn test_loop_map() {
    let runtime = runtime::new();
    let mut interpreter = new(runtime);

    let mut map = HashMap::new();
    map.insert(0, 1);

    let ast = vec![Node::Loop, Node::EndLoop];
    interpreter.evaluate(ast, &[], u64::MAX);
    assert_eq!(&map, interpreter.loop_map())
}

#[test]
fn test_nested_loop_map() {
    let runtime = runtime::new();
    let mut interpreter = new(runtime);

    let mut map = HashMap::new();
    map.insert(0, 3);
    map.insert(1, 2);

    let ast = vec![Node::Loop, Node::Loop, Node::EndLoop, Node::EndLoop];
    interpreter.evaluate(ast, &[], u64::MAX);
    assert_eq!(&map, interpreter.loop_map())
}

#[test]
#[should_panic(expected = "Unmatched loop begin")]
fn test_uneven_loop() {
    let runtime = runtime::new();
    let mut interpreter = new(runtime);

    let ast = vec![Node::Loop];
    let run = interpreter.evaluate(ast, &[], u64::MAX);
    if let Status::Failed(error) = run.status {
        panic!("{}", error.message());
    }
}

#[test]
#[should_panic(expected = "Unmatched loop end")]
fn test_uneven_end_loop() {
    let runtime = runtime::new();
    let mut interpreter = new(runtime);

    let ast = vec![Node::EndLoop];
    let run = interpreter.evaluate(ast, &[], u64::MAX);
    if let Status::Failed(error) = run.status {
        panic!("{}", error.message());
    }
}

#[test]
fn seventy_two_increments_print_h() {
    let mut interpreter = new(runtime::new());
    let mut ast = vec![Node::ThumbsUp; 72];
    ast.push(Node::Display);
    let run = interpreter.evaluate(ast, &[], u64::MAX);
    assert_eq!(Status::Halted, run.status);
    assert_eq!(vec!['H'], run.output);
    assert_eq!(0, run.consumed);
    assert_eq!(72, interpreter.runtime().data());
    assert_eq!(73, interpreter.runtime().instruction_pointer());
}

#[test]
fn loop_on_a_zero_cell_is_skipped() {
    let mut interpreter = new(runtime::new());
    let ast = vec![Node::Loop, Node::ThumbsUp, Node::EndLoop];
    let run = interpreter.evaluate(ast, &[], u64::MAX);
    assert_eq!(Status::Halted, run.status);
    assert_eq!(0, interpreter.runtime().data());
    assert_eq!(3, interpreter.runtime().instruction_pointer());
    // the one transition that was needed is the jump
    let mut again = new(runtime::new());
    let run = again.evaluate(vec![Node::Loop, Node::ThumbsUp, Node::EndLoop], &[], 1);
    assert_eq!(Status::Halted, run.status);
}

#[test]
fn loop_runs_exactly_twice() {
    let mut interpreter = new(runtime::new());
    let ast = vec![
        Node::ThumbsUp,
        Node::ThumbsUp,
        Node::Loop,
        Node::PointRight,
        Node::ThumbsUp,
        Node::PointLeft,
        Node::ThumbsDown,
        Node::EndLoop,
        Node::PointRight,
    ];
    let run = interpreter.evaluate(ast.clone(), &[], u64::MAX);
    assert_eq!(Status::Halted, run.status);
    assert_eq!(1, interpreter.runtime().data_pointer());
    assert_eq!(2, interpreter.runtime().data());
    assert_eq!(0, interpreter.runtime().cells()[0]);
    // 2 increments, the loop begin, twice the 5 instructions of the body
    // with the loop end, and the last move: 14 transitions, not one less
    let mut exact = new(runtime::new());
    assert_eq!(Status::Halted, exact.evaluate(ast.clone(), &[], 14).status);
    let mut short = new(runtime::new());
    assert_eq!(Status::Paused, short.evaluate(ast, &[], 13).status);
}

#[test]
fn move_left_from_the_initial_position_fails() {
    let mut interpreter = new(runtime::new());
    let run = interpreter.evaluate(vec![Node::PointLeft], &[], u64::MAX);
    assert_eq!(
        Status::Failed(EvalError { kind: ErrorKind::DataPointerOutOfRange, position: 0 }),
        run.status
    );
    assert_eq!(0, interpreter.runtime().data_pointer());
    assert_eq!(0, interpreter.runtime().instruction_pointer());
}

#[test]
fn failure_names_the_instruction_and_keeps_earlier_output() {
    let mut interpreter = new(runtime::new());
    let mut ast = vec![Node::ThumbsUp; 65];
    ast.push(Node::Display);
    ast.push(Node::NoOp);
    ast.push(Node::PointLeft);
    ast.push(Node::Display);
    let run = interpreter.evaluate(ast, &[], u64::MAX);
    assert_eq!(
        Status::Failed(EvalError { kind: ErrorKind::DataPointerOutOfRange, position: 67 }),
        run.status
    );
    assert_eq!(vec!['A'], run.output);
    assert_eq!(67, interpreter.runtime().instruction_pointer());
}

#[test]
fn move_right_off_the_tape_fails() {
    let mut interpreter = new(runtime::new());
    let ast = vec![Node::PointRight; 30000];
    let run = interpreter.evaluate(ast, &[], u64::MAX);
    assert_eq!(
        Status::Failed(EvalError { kind: ErrorKind::DataPointerOutOfRange, position: 29999 }),
        run.status
    );
    assert_eq!(29999, interpreter.runtime().data_pointer());
}

#[test]
fn negative_cell_cannot_be_printed() {
    let mut interpreter = new(runtime::new());
    let run = interpreter.evaluate(vec![Node::NoOp, Node::ThumbsDown, Node::Display], &[], u64::MAX);
    assert_eq!(
        Status::Failed(EvalError { kind: ErrorKind::InvalidOutputValue, position: 2 }),
        run.status
    );
    assert_eq!(Vec::<char>::new(), run.output);
    assert_eq!(-1, interpreter.runtime().data());
}

#[test]
fn cell_127_is_printed_and_128_is_not() {
    let mut interpreter = new(runtime::new());
    let mut ast = vec![Node::ThumbsUp; 127];
    ast.push(Node::Display);
    ast.push(Node::ThumbsUp);
    ast.push(Node::Display);
    let run = interpreter.evaluate(ast, &[], u64::MAX);
    assert_eq!(vec!['\u{7f}'], run.output);
    assert_eq!(
        Status::Failed(EvalError { kind: ErrorKind::InvalidOutputValue, position: 129 }),
        run.status
    );
    assert_eq!(-128, interpreter.runtime().data());
}

#[test]
fn zero_cell_prints_the_nul_character() {
    let mut interpreter = new(runtime::new());
    let run = interpreter.evaluate(vec![Node::Display], &[], u64::MAX);
    assert_eq!(Status::Halted, run.status);
    assert_eq!(vec!['\0'], run.output);
}

#[test]
fn input_is_stored_in_the_cell() {
    let mut interpreter = new(runtime::new());
    let run = interpreter.evaluate(vec![Node::Save], b"a", u64::MAX);
    assert_eq!(Status::Halted, run.status);
    assert_eq!(1, run.consumed);
    assert_eq!(97, interpreter.runtime().data());
}

#[test]
fn input_bytes_above_127_become_negative_cells() {
    let mut interpreter = new(runtime::new());
    let run = interpreter.evaluate(
        vec![Node::Save, Node::PointRight, Node::Save, Node::PointRight, Node::Save],
        &[200, 128, 255, 7],
        u64::MAX,
    );
    assert_eq!(Status::Halted, run.status);
    assert_eq!(3, run.consumed);
    assert_eq!(&[-56i8, -128, -1, 0][..], &interpreter.runtime().cells()[0..4]);
    assert_eq!(-56, cell_from_byte(200));
    assert_eq!(127, cell_from_byte(127));
    assert_eq!(-128, cell_from_byte(128));
    assert_eq!(0, cell_from_byte(0));
}

#[test]
fn input_without_bytes_left_fails() {
    let mut interpreter = new(runtime::new());
    let run = interpreter.evaluate(vec![Node::Save, Node::Display, Node::Save], b"x", u64::MAX);
    assert_eq!(
        Status::Failed(EvalError { kind: ErrorKind::InputExhausted, position: 2 }),
        run.status
    );
    assert_eq!(vec!['x'], run.output);
    assert_eq!(1, run.consumed);
    assert_eq!(120, interpreter.runtime().data());
}

#[test]
fn echo_program_copies_input_to_output() {
    // read; while cell != 0 { print; read }
    let ast = vec![Node::Save, Node::Loop, Node::Display, Node::Save, Node::EndLoop];
    let mut interpreter = new(runtime::new());
    let run = interpreter.evaluate(ast, b"hi!\0rest", u64::MAX);
    assert_eq!(Status::Halted, run.status);
    assert_eq!(vec!['h', 'i', '!'], run.output);
    assert_eq!(4, run.consumed);
}

#[test]
fn unresolved_program_runs_nothing() {
    let mut interpreter = new(runtime::new());
    let first = interpreter.evaluate(vec![Node::ThumbsUp, Node::Loop, Node::EndLoop], &[], 1);
    assert_eq!(Status::Paused, first.status);
    let run = interpreter.evaluate(
        vec![Node::ThumbsUp, Node::Display, Node::EndLoop, Node::Loop],
        &[],
        u64::MAX,
    );
    assert_eq!(
        Status::Failed(EvalError { kind: ErrorKind::UnmatchedLoopEnd, position: 2 }),
        run.status
    );
    assert_eq!(Vec::<char>::new(), run.output);
    assert_eq!(1, interpreter.runtime().data());
    assert_eq!(1, interpreter.runtime().instruction_pointer());
    // the program loaded before is still there
    let mut map = HashMap::new();
    map.insert(1, 2);
    assert_eq!(&map, interpreter.loop_map());
}

#[test]
fn unclosed_loop_is_reported_at_the_last_open_begin() {
    let mut interpreter = new(runtime::new());
    let run = interpreter.evaluate(
        vec![Node::Loop, Node::Loop, Node::EndLoop, Node::Loop, Node::ThumbsUp],
        &[],
        u64::MAX,
    );
    assert_eq!(
        Status::Failed(EvalError { kind: ErrorKind::UnmatchedLoopBegin, position: 3 }),
        run.status
    );
    assert_eq!(0, interpreter.runtime().data());
}

#[test]
fn paused_run_is_taken_up_again() {
    let source = "👍👍👍🔃👉👍👍💻👈👎🔙👉💻";
    let ast = parse(lex(source));
    let mut whole = new(runtime::new());
    let expected = whole.evaluate(ast.clone(), &[], u64::MAX);
    assert_eq!(Status::Halted, expected.status);
    assert_eq!(vec!['\u{2}', '\u{4}', '\u{6}', '\u{6}'], expected.output);

    let mut pieces = new(runtime::new());
    let mut output = Vec::new();
    let mut calls = 0;
    loop {
        let run = pieces.evaluate(ast.clone(), &[], 4);
        output.extend(run.output);
        calls += 1;
        match run.status {
            Status::Paused => {}
            other => {
                assert_eq!(Status::Halted, other);
                break;
            }
        }
    }
    assert_eq!(expected.output, output);
    // 27 transitions in all, 4 to a call
    assert_eq!(7, calls);
    assert_eq!(whole.runtime().cells(), pieces.runtime().cells());
    assert_eq!(whole.runtime().data_pointer(), pieces.runtime().data_pointer());
    assert_eq!(whole.runtime().instruction_pointer(), pieces.runtime().instruction_pointer());
}

#[test]
fn endless_loop_stops_only_at_the_budget() {
    let mut interpreter = new(runtime::new());
    let ast = vec![Node::ThumbsUp, Node::Loop, Node::EndLoop];
    let run = interpreter.evaluate(ast, &[], 1001);
    assert_eq!(Status::Paused, run.status);
    assert_eq!(1, interpreter.runtime().data());
}

#[test]
fn budget_of_zero_runs_nothing() {
    let mut interpreter = new(runtime::new());
    let run = interpreter.evaluate(vec![Node::ThumbsUp], &[], 0);
    assert_eq!(Status::Paused, run.status);
    assert_eq!(0, interpreter.runtime().data());
    let mut empty = new(runtime::new());
    assert_eq!(Status::Halted, empty.evaluate(Vec::new(), &[], 0).status);
}

#[test]
fn nested_loops_multiply() {
    // cell0 = 3; while cell0 { cell1 += 4; while cell1 { cell2 += 1; cell1 -= 1 }; cell0 -= 1 }
    let source = "👍👍👍🔃👉👍👍👍👍🔃👉👍👈👎🔙👈👎🔙👉👉";
    let mut interpreter = new(runtime::new());
    let run = interpreter.evaluate(parse(lex(source)), &[], u64::MAX);
    assert_eq!(Status::Halted, run.status);
    assert_eq!(2, interpreter.runtime().data_pointer());
    assert_eq!(12, interpreter.runtime().data());
    let mut map = HashMap::new();
    map.insert(3, 17);
    map.insert(9, 14);
    assert_eq!(&map, interpreter.loop_map());
}

#[test]
fn independent_engines_do_not_share_state() {
    let ast = vec![Node::ThumbsUp, Node::PointRight, Node::ThumbsDown];
    let mut one = new(runtime::new());
    let mut two = new(runtime::new());
    one.evaluate(ast.clone(), &[], 1);
    two.evaluate(ast.clone(), &[], u64::MAX);
    assert_eq!(0, one.runtime().data_pointer());
    assert_eq!(1, one.runtime().data());
    assert_eq!(1, two.runtime().data_pointer());
    assert_eq!(-1, two.runtime().data());
    one.evaluate(ast, &[], u64::MAX);
    assert_eq!(one.runtime().cells(), two.runtime().cells());
}

#[test]
fn step_by_step_driver() {
    let mut interpreter = new(runtime::new());
    assert!(interpreter.is_halted());
    assert_eq!(Action::Halt, interpreter.step(None));
    assert_eq!(
        Ok(()),
        interpreter.load(vec![Node::Save, Node::ThumbsUp, Node::Display, Node::Save])
    );
    assert!(!interpreter.is_halted());
    assert!(interpreter.awaits_input());
    assert_eq!(Action::Continue, interpreter.step(Some(b'A')));
    assert!(!interpreter.awaits_input());
    assert_eq!(Action::Continue, interpreter.step(None));
    assert_eq!(Action::Emit('B'), interpreter.step(Some(b'z')));
    assert!(interpreter.awaits_input());
    assert_eq!(
        Action::Fail(EvalError { kind: ErrorKind::InputExhausted, position: 3 }),
        interpreter.step(None)
    );
    assert_eq!(3, interpreter.runtime().instruction_pointer());
    assert_eq!(Action::Continue, interpreter.step(Some(0)));
    assert!(interpreter.is_halted());
    assert_eq!(Action::Halt, interpreter.step(Some(1)));
    assert_eq!(0, interpreter.runtime().data());
}

#[test]
fn load_refuses_what_does_not_resolve() {
    let mut interpreter = new(runtime::new());
    assert_eq!(
        Err(EvalError { kind: ErrorKind::UnmatchedLoopBegin, position: 1 }),
        interpreter.load(vec![Node::NoOp, Node::Loop])
    );
    assert_eq!(
        Err(EvalError { kind: ErrorKind::UnmatchedLoopEnd, position: 0 }),
        interpreter.load(vec![Node::EndLoop, Node::Loop])
    );
    assert!(interpreter.loop_map().is_empty());
    assert!(interpreter.is_halted());
}

#[test]
fn characters_of_cells() {
    assert_eq!(Some('H'), char_from_cell(72));
    assert_eq!(Some('\0'), char_from_cell(0));
    assert_eq!(Some('\u{7f}'), char_from_cell(127));
    assert_eq!(None, char_from_cell(-1));
    assert_eq!(None, char_from_cell(-128));
}
