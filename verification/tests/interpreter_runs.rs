use bf_editor::code::Code;
use bf_editor::interpreter::{Effect, Interpreter, InterpreterState};

fn raw_code(s: &str) -> Code {
    let mut c = Code::new();
    for (i, ch) in s.chars().enumerate() {
        c.insert(i, ch);
    }
    c
}

fn run(interp: &mut Interpreter, limit: usize) -> usize {
    for n in 0..limit {
        assert!(interp.can_step());
        if interp.exec_current_step(None) == Some(Effect::End) {
            return n;
        }
    }
    panic!("program did not end");
}

#[test]
fn fresh_state_is_zeroed() {
    let s = InterpreterState::new(5);
    assert_eq!(s.tape(), &vec![0u8; 5]);
    assert!(s.output().is_empty());
    assert_eq!(s.ptr, 0);
    assert_eq!(s.step, 0);
}

#[test]
fn loop_multiplies() {
    let mut interp = Interpreter::new(raw_code("++++++++[>++++++++<-]>+."), 10);
    run(&mut interp, 10_000);
    assert_eq!(interp.state().output(), &vec![65u8]);
    assert_eq!(interp.state().tape()[1], 65);
    assert_eq!(interp.state().tape()[0], 0);
}

#[test]
fn end_is_reported_and_changes_nothing() {
    let mut interp = Interpreter::new(raw_code("+"), 3);
    assert_eq!(interp.exec_current_step(None), None);
    assert_eq!(interp.exec_current_step(None), Some(Effect::End));
    assert_eq!(interp.exec_current_step(None), Some(Effect::End));
    assert_eq!(interp.state().step, 1);
    assert_eq!(interp.state().tape(), &vec![1u8, 0, 0]);
}

#[test]
fn non_commands_pass() {
    let mut interp = Interpreter::new(raw_code("a+"), 1);
    assert_eq!(interp.exec_current_step(None), Some(Effect::Pass));
    assert_eq!(interp.state().step, 1);
    assert_eq!(interp.exec_current_step(None), None);
    assert_eq!(interp.state().tape(), &vec![1u8]);
}

#[test]
fn input_is_requested_then_stored() {
    let mut interp = Interpreter::new(raw_code(",."), 2);
    assert_eq!(interp.exec_current_step(Some(9)), Some(Effect::AskInput));
    assert_eq!(interp.state().step, 0);
    assert_eq!(interp.exec_current_step(Some(7)), None);
    assert_eq!(interp.state().tape(), &vec![7u8, 0]);
    assert_eq!(interp.exec_current_step(Some(7)), None);
    assert_eq!(interp.state().output(), &vec![7u8]);
    assert_eq!(interp.exec_current_step(None), Some(Effect::End));
}

#[test]
fn missing_input_stores_zero() {
    let mut interp = Interpreter::new(raw_code("+,"), 1);
    interp.exec_current_step(None);
    assert_eq!(interp.exec_current_step(None), Some(Effect::AskInput));
    assert_eq!(interp.exec_current_step(None), None);
    assert_eq!(interp.state().tape(), &vec![0u8]);
}

#[test]
fn cells_wrap_around() {
    let mut interp = Interpreter::new(raw_code("-.+."), 1);
    run(&mut interp, 10);
    assert_eq!(interp.state().output(), &vec![255u8, 0]);
}

#[test]
fn open_bracket_on_zero_skips_the_loop() {
    let mut interp = Interpreter::new(raw_code("[+]+"), 1);
    assert_eq!(interp.exec_current_step(None), None);
    assert_eq!(interp.state().step, 3);
    run(&mut interp, 10);
    assert_eq!(interp.state().tape(), &vec![1u8]);
}

#[test]
fn close_bracket_goes_back_to_its_open_bracket() {
    let mut interp = Interpreter::new(raw_code("+[-]"), 1);
    interp.exec_current_step(None);
    interp.exec_current_step(None);
    interp.exec_current_step(None);
    assert_eq!(interp.state().step, 3);
    assert_eq!(interp.exec_current_step(None), None);
    assert_eq!(interp.state().step, 1);
    assert_eq!(interp.exec_current_step(None), None);
    assert_eq!(interp.state().step, 4);
    assert_eq!(interp.exec_current_step(None), Some(Effect::End));
}

#[test]
fn pointer_moves() {
    let mut interp = Interpreter::new(raw_code(">>+<"), 3);
    run(&mut interp, 10);
    assert_eq!(interp.state().ptr, 1);
    assert_eq!(interp.state().tape(), &vec![0u8, 0, 1]);
}

#[test]
fn can_step_refuses_undefined_moves() {
    let interp = Interpreter::new(raw_code("<"), 1);
    assert!(!interp.can_step());
    let mut interp = Interpreter::new(raw_code(">+"), 1);
    assert!(interp.can_step());
    interp.exec_current_step(None);
    assert!(!interp.can_step());
}

#[test]
fn reset_starts_over_with_same_tape() {
    let mut interp = Interpreter::new(raw_code("+>+."), 4);
    run(&mut interp, 10);
    interp.reset();
    assert_eq!(interp.state().tape(), &vec![0u8; 4]);
    assert!(interp.state().output().is_empty());
    assert_eq!(interp.state().step, 0);
    assert_eq!(interp.state().ptr, 0);
    assert_eq!(interp.code().code(), &vec!['+', '>', '+', '.']);
}

#[test]
fn rebuilding_the_map_keeps_the_run() {
    let mut interp = Interpreter::new(raw_code("[]+"), 1);
    interp.build_bracklet_map();
    assert_eq!(interp.exec_current_step(None), None);
    assert_eq!(interp.state().step(), 2);
    interp.build_bracklet_map();
    assert_eq!(interp.state().step(), 2);
    assert_eq!(interp.exec_current_step(None), None);
    assert_eq!(interp.state().tape(), &vec![1u8]);
}

#[test]
fn reset_clears_a_pending_input_request() {
    let mut interp = Interpreter::new(raw_code(",+"), 1);
    assert_eq!(interp.exec_current_step(None), Some(Effect::AskInput));
    interp.reset();
    assert_eq!(interp.exec_current_step(Some(5)), Some(Effect::AskInput));
    assert_eq!(interp.state().step(), 0);
    assert_eq!(interp.state().tape(), &vec![0u8]);
    assert_eq!(interp.exec_current_step(Some(5)), None);
    assert_eq!(interp.state().tape(), &vec![5u8]);
    assert_eq!(interp.state().step(), 1);
}

#[test]
fn state_getters_match_fields() {
    let mut interp = Interpreter::new(raw_code(">+"), 2);
    interp.exec_current_step(None);
    assert_eq!(interp.state().ptr(), 1);
    assert_eq!(interp.state().ptr, 1);
    assert_eq!(interp.state().step(), 1);
}

#[test]
fn whole_run_matches_standard_brainfuck() {
    let mut interp = Interpreter::new(raw_code(",[.-]>,."), 2);
    let input = [3u8, 9u8];
    let mut k = 0;
    let mut pending = false;
    for _ in 0..1000 {
        assert!(interp.can_step());
        let entry = if pending { Some(input[k]) } else { None };
        if pending {
            k += 1;
        }
        pending = false;
        match interp.exec_current_step(entry) {
            Some(Effect::End) => break,
            Some(Effect::AskInput) => pending = true,
            _ => {}
        }
    }
    assert_eq!(interp.state().output(), &vec![3u8, 2, 1, 9]);
    assert_eq!(interp.state().tape(), &vec![0u8, 9]);
    assert_eq!(interp.state().ptr(), 1);
    assert_eq!(k, 2);
}
