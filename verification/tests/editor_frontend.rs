use bf_editor::code::Code;
use bf_editor::controller::{
    Controller, ExecOptions, ExecutionState, FrontendEvent, Mode, DEFAULT_TAPE_SIZE,
};
use bf_editor::frontend::{EditorState, InputEvent, Key};
use bf_editor::interpreter::Interpreter;
use bf_editor::visual::{highlight, CodeVisualisation, Highlight};

fn raw_code(s: &str) -> Code {
    let mut c = Code::new();
    for (i, ch) in s.chars().enumerate() {
        c.insert(i, ch);
    }
    c
}

fn chars(s: &str) -> Vec<char> {
    s.chars().collect()
}

#[test]
fn default_options() {
    let o = ExecOptions::default();
    assert_eq!(o.delay_ms, 0);
    assert_eq!(o.tape_size, 30_000);
    assert_eq!(DEFAULT_TAPE_SIZE, 30_000);
}

#[test]
fn display_lines_of_a_loop() {
    let mut cv = CodeVisualisation::new();
    let lines = cv.indent(&chars("[+]")).clone();
    assert_eq!(lines, vec![chars("[ "), chars("  + "), chars("] ")]);
}

#[test]
fn display_lines_break_at_newlines_and_drop_the_tail() {
    let mut cv = CodeVisualisation::new();
    let lines = cv.indent(&chars("ab\ncd")).clone();
    assert_eq!(lines, vec![chars("ab ")]);
}

#[test]
fn cursor_location_and_moves() {
    let mut cv = CodeVisualisation::new();
    cv.indent(&chars("[+]"));
    assert_eq!(cv.cursor_loc(1), (0, 1));
    assert_eq!(cv.cursor_loc(3), (1, 1));
    assert_eq!(cv.cursor_loc(7), (2, 1));
    assert_eq!(cv.cursor_loc(8), (0, 0));
    assert_eq!(cv.cursor_down(1), 3);
    assert_eq!(cv.cursor_up(3), 1);
    assert_eq!(cv.cursor_down(5), 7);
    assert_eq!(cv.cursor_up(5), 1);
    assert_eq!(cv.cursor_down(7), 7);
    assert_eq!(cv.cursor_up(1), 1);
}

#[test]
fn render_scrolls_to_the_cursor() {
    let mut cv = CodeVisualisation::new();
    cv.indent(&chars("[+]"));
    let mut pos = (0usize, 0usize);
    let (rows, cursor) = cv.render(2, 2, 7, &mut pos);
    assert_eq!(cursor, (1, 2));
    assert_eq!(pos, (0, 1));
    assert_eq!(rows, vec![chars("  "), chars("] ")]);
    let (rows, cursor) = cv.render(1, 5, 5, &mut pos);
    assert_eq!(cursor, (3, 1));
    assert_eq!(pos, (3, 1));
    assert_eq!(rows, vec![chars(" "), chars("")]);
}

#[test]
fn highlight_classes() {
    assert_eq!(highlight('['), Highlight::Loop);
    assert_eq!(highlight(']'), Highlight::Loop);
    assert_eq!(highlight('.'), Highlight::Io);
    assert_eq!(highlight(','), Highlight::Io);
    assert_eq!(highlight('+'), Highlight::Arithmetic);
    assert_eq!(highlight('<'), Highlight::Movement);
    assert_eq!(highlight('x'), Highlight::Plain);
}

#[test]
fn keys_while_editing() {
    let mut e = EditorState::new();
    let m = Mode::Edition;
    assert_eq!(e.handle_input(InputEvent::Key(Key::Char('+')), m, 0), FrontendEvent::CharTyped(0, '+'));
    assert_eq!(e.cursor_pos(), 1);
    assert_eq!(e.handle_input(InputEvent::Key(Key::Backspace), m, 1), FrontendEvent::CharErased(0));
    assert_eq!(e.cursor_pos(), 0);
    assert_eq!(e.handle_input(InputEvent::Key(Key::Backspace), m, 1), FrontendEvent::NoEvent);
    assert_eq!(e.handle_input(InputEvent::Key(Key::Delete), m, 1), FrontendEvent::CharErased(0));
    assert_eq!(e.handle_input(InputEvent::Key(Key::Right), m, 3), FrontendEvent::NoEvent);
    assert_eq!(e.cursor_pos(), 1);
    e.handle_input(InputEvent::Key(Key::Right), m, 3);
    e.handle_input(InputEvent::Key(Key::Right), m, 3);
    assert_eq!(e.cursor_pos(), 2);
    e.handle_input(InputEvent::Key(Key::Left), m, 3);
    assert_eq!(e.cursor_pos(), 1);
    assert_eq!(e.handle_input(InputEvent::Key(Key::F(5)), m, 3), FrontendEvent::Run);
    assert_eq!(e.handle_input(InputEvent::Key(Key::Esc), m, 3), FrontendEvent::Quit);
    assert_eq!(e.handle_input(InputEvent::Resize, m, 3), FrontendEvent::Resized);
    assert_eq!(e.handle_input(InputEvent::Other, m, 3), FrontendEvent::NoEvent);
}

#[test]
fn up_and_down_keys_follow_display_lines() {
    let mut e = EditorState::new();
    e.cv.indent(&chars("[+]"));
    e.cursor_offset = 1;
    e.handle_input(InputEvent::Key(Key::Down), Mode::Edition, 3);
    assert_eq!(e.cursor_pos(), 3);
    e.handle_input(InputEvent::Key(Key::Up), Mode::Edition, 3);
    assert_eq!(e.cursor_pos(), 1);
}

#[test]
fn space_pauses_then_resumes() {
    let mut e = EditorState::new();
    let running = Mode::Execution(ExecutionState::Running);
    let paused = Mode::Execution(ExecutionState::Paused);
    assert_eq!(e.handle_input(InputEvent::Key(Key::Char(' ')), running, 0), FrontendEvent::Pause);
    assert_eq!(e.handle_input(InputEvent::Key(Key::Char(' ')), paused, 0), FrontendEvent::Play);
    assert_eq!(e.handle_input(InputEvent::Key(Key::Esc), paused, 0), FrontendEvent::Stop);
    assert_eq!(e.handle_input(InputEvent::Key(Key::Char('x')), running, 0), FrontendEvent::NoEvent);
}

#[test]
fn input_box_while_asked() {
    let mut e = EditorState::new();
    let asking = Mode::Execution(ExecutionState::AskingInput);
    assert_eq!(e.handle_input(InputEvent::Key(Key::Char('q')), asking, 0), FrontendEvent::NoEvent);
    assert_eq!(e.input_char, 'q');
    assert_eq!(e.handle_input(InputEvent::Key(Key::Enter), asking, 0), FrontendEvent::CharProvided('q'));
    assert_eq!(e.input_char, '\0');
    e.handle_input(InputEvent::Key(Key::Char('z')), asking, 0);
    e.handle_input(InputEvent::Key(Key::Backspace), asking, 0);
    assert_eq!(e.input_char, '\0');
    assert_eq!(e.handle_input(InputEvent::Key(Key::Esc), asking, 0), FrontendEvent::Stop);
}

#[test]
fn accepts_checks_limits() {
    let e = EditorState::new();
    assert!(!e.accepts(InputEvent::Key(Key::Right), Mode::Edition, 0));
    assert!(e.accepts(InputEvent::Key(Key::Right), Mode::Edition, 2));
    assert!(e.accepts(InputEvent::Key(Key::Down), Mode::Edition, 2));
    assert!(e.accepts(InputEvent::Key(Key::Right), Mode::Execution(ExecutionState::Running), 0));
}

#[test]
fn a_whole_session() {
    let interp = Interpreter::new(raw_code(",."), 2);
    let mut c = Controller::new(ExecOptions { delay_ms: 10, tape_size: 2 }, interp);
    assert_eq!(c.mode(), Mode::Edition);
    assert!(c.handle_event(FrontendEvent::Run));
    assert_eq!(c.mode(), Mode::Execution(ExecutionState::Running));
    assert!(!c.tick(5));
    assert!(c.tick(10));
    assert_eq!(c.mode(), Mode::Execution(ExecutionState::AskingInput));
    assert!(!c.tick(100));
    assert!(c.handle_event(FrontendEvent::CharProvided('A')));
    assert_eq!(c.mode(), Mode::Execution(ExecutionState::Running));
    assert!(c.tick(10));
    assert!(c.tick(10));
    assert_eq!(c.model().state().output(), &vec![65u8]);
    assert!(c.tick(10));
    assert_eq!(c.mode(), Mode::Edition);
    assert!(!c.handle_event(FrontendEvent::Quit));
}

#[test]
fn pause_play_stop_and_ignored_edits() {
    let interp = Interpreter::new(raw_code("a+"), 1);
    let mut c = Controller::new(ExecOptions::default(), interp);
    assert!(c.handle_event(FrontendEvent::CharTyped(0, '+')));
    assert_eq!(c.model().code().code(), &vec!['a', '+']);
    assert!(c.handle_event(FrontendEvent::CharErased(7)));
    assert_eq!(c.model().code().code(), &vec!['a', '+']);
    assert_eq!(c.mode(), Mode::Edition);
    c.handle_event(FrontendEvent::Run);
    c.handle_event(FrontendEvent::Pause);
    assert_eq!(c.mode(), Mode::Execution(ExecutionState::Paused));
    assert!(!c.tick(0));
    c.handle_event(FrontendEvent::Play);
    assert_eq!(c.mode(), Mode::Execution(ExecutionState::Running));
    assert!(!c.tick(0));
    assert!(c.tick(0));
    assert_eq!(c.model().state().tape(), &vec![1u8]);
    c.handle_event(FrontendEvent::Stop);
    assert_eq!(c.mode(), Mode::Edition);
    assert!(c.handle_event(FrontendEvent::Quit) == false);
}

#[test]
fn skipped_character_does_not_restart_timer() {
    let interp = Interpreter::new(raw_code("x"), 1);
    let mut c = Controller::new(ExecOptions::default(), interp);
    c.handle_event(FrontendEvent::Run);
    assert!(!c.tick(0));
    assert!(c.tick(0));
    assert_eq!(c.mode(), Mode::Edition);
}

#[test]
fn run_after_stop_starts_fresh_even_when_input_was_asked() {
    let interp = Interpreter::new(raw_code(",+"), 1);
    let mut c = Controller::new(ExecOptions::default(), interp);
    c.handle_event(FrontendEvent::Run);
    assert!(c.tick(0));
    assert_eq!(c.mode(), Mode::Execution(ExecutionState::AskingInput));
    c.handle_event(FrontendEvent::Stop);
    c.handle_event(FrontendEvent::Run);
    assert_eq!(c.mode(), Mode::Execution(ExecutionState::Running));
    assert_eq!(c.model().state().step(), 0);
    assert!(c.tick(0));
    assert_eq!(c.mode(), Mode::Execution(ExecutionState::AskingInput));
    assert_eq!(c.model().state().tape(), &vec![0u8]);
}

#[test]
fn display_lines_match_the_program_lines() {
    let text = "+[->+<]\n.";
    let mut cv = CodeVisualisation::new();
    let shown = cv.indent(&chars(text)).clone();
    let lines = Code::from_string(text.to_string()).lines();
    assert_eq!(shown, lines);
}

#[test]
fn up_undoes_down() {
    let mut cv = CodeVisualisation::new();
    cv.indent(&chars("[+][-]"));
    for off in 0..4 {
        let down = cv.cursor_down(off);
        assert_eq!(cv.cursor_up(down), off);
    }
}
