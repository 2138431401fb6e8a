//! The editor's reaction to keys: cursor movement, the input box, and the
//! event each key stands for in each mode.
use vstd::prelude::*;
use crate::controller::{next_mode, ExecutionState, FrontendEvent, Mode};
use crate::visual::{
    cursor_down_spec, cursor_loc_spec, cursor_up_spec, sat_sub, up_column, CodeVisualisation,
};

verus! {

/// A key the editor reacts to.
#[derive(PartialEq, Eq, Structural, Clone, Copy, Debug)]
pub enum Key {
    Char(char),
    Enter,
    Backspace,
    Esc,
    /// A function key, by number.
    F(u8),
    Left,
    Right,
    Up,
    Down,
    Delete,
    /// Any other key.
    Other,
}

/// What the terminal reported.
#[derive(PartialEq, Eq, Structural, Clone, Copy, Debug)]
pub enum InputEvent {
    Key(Key),
    Resize,
    /// Anything else (mouse, focus, paste).
    Other,
}

/// The cursor after one step right: one place on, but not past the last
/// character of a program of `code_len` characters.
pub open spec fn right_of(off: int, code_len: int) -> int {
    if off + 1 < code_len - 1 {
        off + 1
    } else {
        code_len - 1
    }
}

/// The effect of `ev` in `mode`: the character in the input box, the cursor
/// offset, and the event reported, given the current input character `ch`,
/// cursor offset `off`, display lines `ls` and program length `code_len`.
pub open spec fn input_outcome(
    ch: char,
    off: int,
    ls: Seq<Seq<char>>,
    ev: InputEvent,
    mode: Mode,
    code_len: int,
) -> (char, int, FrontendEvent) {
    match ev {
        InputEvent::Resize => (ch, off, FrontendEvent::Resized),
        InputEvent::Other => (ch, off, FrontendEvent::NoEvent),
        InputEvent::Key(k) => match mode {
            Mode::Execution(ExecutionState::AskingInput) => match k {
                Key::Char(c) => (c, off, FrontendEvent::NoEvent),
                Key::Enter => ('\0', off, FrontendEvent::CharProvided(ch)),
                Key::Backspace => ('\0', off, FrontendEvent::NoEvent),
                Key::Esc => (ch, off, FrontendEvent::Stop),
                _ => (ch, off, FrontendEvent::NoEvent),
            },
            Mode::Execution(st) => match k {
                Key::Esc => (ch, off, FrontendEvent::Stop),
                Key::Char(' ') => (ch, off, if st == ExecutionState::Running {
                    FrontendEvent::Pause
                } else {
                    FrontendEvent::Play
                }),
                _ => (ch, off, FrontendEvent::NoEvent),
            },
            Mode::Edition => match k {
                Key::Esc => (ch, off, FrontendEvent::Quit),
                Key::F(5) => (ch, off, FrontendEvent::Run),
                Key::Char(c) => (ch, off + 1, FrontendEvent::CharTyped(off as usize, c)),
                Key::Left => (ch, sat_sub(off, 1), FrontendEvent::NoEvent),
                Key::Right => (ch, right_of(off, code_len), FrontendEvent::NoEvent),
                Key::Down => (ch, cursor_down_spec(ls, off), FrontendEvent::NoEvent),
                Key::Up => (ch, cursor_up_spec(ls, off), FrontendEvent::NoEvent),
                Key::Backspace => if off > 0 {
                    (ch, off - 1, FrontendEvent::CharErased((off - 1) as usize))
                } else {
                    (ch, off, FrontendEvent::NoEvent)
                },
                Key::Delete => (ch, off, FrontendEvent::CharErased(off as usize)),
                _ => (ch, off, FrontendEvent::NoEvent),
            },
        },
    }
}

/// The key can be handled without leaving the range of a `usize`: typing
/// and stepping right need room after the cursor, stepping right needs a
/// non-empty program, and moving up or down must land on a representable offset.
pub open spec fn input_defined(
    off: int,
    ls: Seq<Seq<char>>,
    ev: InputEvent,
    mode: Mode,
    code_len: int,
) -> bool {
    mode == Mode::Edition ==> match ev {
        InputEvent::Key(Key::Char(_)) => off < usize::MAX,
        InputEvent::Key(Key::Right) => off < usize::MAX && code_len >= 1,
        InputEvent::Key(Key::Down) => cursor_down_spec(ls, off) <= usize::MAX,
        InputEvent::Key(Key::Up) => cursor_loc_spec(ls, off).0 >= 1 ==> off + up_column(ls, off)
            <= usize::MAX,
        _ => true,
    }
}

/// The editor's own state: the character in the input box, the cursor
/// offset, the display lines and the top-left corner of the visible window.
pub struct EditorState {
    pub input_char: char,
    pub cursor_offset: usize,
    pub cv: CodeVisualisation,
    pub displayed_code_pos: (usize, usize),
}

impl EditorState {
    /// An empty input box, the cursor at the start, no display lines yet.
    pub fn new() -> (e: Self)
        ensures
            e.input_char == '\0',
            e.cursor_offset == 0,
            e.cv@ == Seq::<Seq<char>>::empty(),
            e.displayed_code_pos == (0usize, 0usize),
    {
        EditorState {
            input_char: '\0',
            cursor_offset: 0,
            cv: CodeVisualisation::new(),
            displayed_code_pos: (0, 0),
        }
    }

    /// The cursor offset.
    pub fn cursor_pos(&self) -> (p: usize)
        ensures
            p == self.cursor_offset,
    {
        self.cursor_offset
    }

    /// Moves the cursor one place right, but not past the last character of
    /// a program of `code_len` characters.
    pub fn cursor_right(&mut self, code_len: usize)
        requires
            old(self).cursor_offset < usize::MAX,
            code_len >= 1,
        ensures
            final(self).cursor_offset == right_of(old(self).cursor_offset as int, code_len as int),
            final(self).input_char == old(self).input_char,
            final(self).cv@ == old(self).cv@,
            final(self).displayed_code_pos == old(self).displayed_code_pos,
    {
        let next = self.cursor_offset + 1;
        let last = code_len - 1;
        self.cursor_offset = if next < last {
            next
        } else {
            last
        };
    }

    /// Moves the cursor one place left, staying at 0 at the start.
    pub fn cursor_left(&mut self)
        ensures
            final(self).cursor_offset == sat_sub(old(self).cursor_offset as int, 1),
            final(self).input_char == old(self).input_char,
            final(self).cv@ == old(self).cv@,
            final(self).displayed_code_pos == old(self).displayed_code_pos,
    {
        self.cursor_offset = self.cursor_offset.saturating_sub(1);
    }

    /// Whether [`EditorState::handle_input`] may be given `ev` now.
    pub fn accepts(&self, ev: InputEvent, mode: Mode, code_len: usize) -> (ok: bool)
        ensures
            ok == input_defined(self.cursor_offset as int, self.cv@, ev, mode, code_len as int),
    {
        if mode != Mode::Edition {
            return true;
        }
        let off = self.cursor_offset;
        match ev {
            InputEvent::Key(Key::Char(_)) => off < usize::MAX,
            InputEvent::Key(Key::Right) => off < usize::MAX && code_len >= 1,
            InputEvent::Key(Key::Down) => self.cv.cursor_down_fits(off),
            InputEvent::Key(Key::Up) => self.cv.cursor_up_fits(off),
            _ => true,
        }
    }

    /// Reacts to `ev` in `mode` as [`input_outcome`] says, for a program of
    /// `code_len` characters, and returns the event it stands for.
    pub fn handle_input(&mut self, ev: InputEvent, mode: Mode, code_len: usize) -> (fe: FrontendEvent)
        requires
            input_defined(old(self).cursor_offset as int, old(self).cv@, ev, mode, code_len as int),
        ensures
            ({
                let (ch, off, e) = input_outcome(
                    old(self).input_char,
                    old(self).cursor_offset as int,
                    old(self).cv@,
                    ev,
                    mode,
                    code_len as int,
                );
                &&& final(self).input_char == ch
                &&& final(self).cursor_offset == off
                &&& fe == e
            }),
            final(self).cv@ == old(self).cv@,
            final(self).displayed_code_pos == old(self).displayed_code_pos,
    {
        let key = match ev {
            InputEvent::Resize => {
                return FrontendEvent::Resized;
            },
            InputEvent::Other => {
                return FrontendEvent::NoEvent;
            },
            InputEvent::Key(k) => k,
        };
        let mut fevent = FrontendEvent::NoEvent;
        match mode {
            Mode::Execution(ExecutionState::AskingInput) => match key {
                Key::Char(c) => {
                    self.input_char = c;
                },
                Key::Enter => {
                    fevent = FrontendEvent::CharProvided(self.input_char);
                    self.input_char = '\0';
                },
                Key::Backspace => {
                    self.input_char = '\0';
                },
                Key::Esc => {
                    return FrontendEvent::Stop;
                },
                _ => {},
            },
            Mode::Execution(st) => match key {
                Key::Esc => {
                    return FrontendEvent::Stop;
                },
                Key::Char(' ') => {
                    if st == ExecutionState::Running {
                        return FrontendEvent::Pause;
                    } else {
                        return FrontendEvent::Play;
                    }
                },
                _ => {},
            },
            Mode::Edition => match key {
                Key::Esc => {
                    return FrontendEvent::Quit;
                },
                Key::F(5) => {
                    return FrontendEvent::Run;
                },
                Key::Char(c) => {
                    fevent = FrontendEvent::CharTyped(self.cursor_offset, c);
                    self.cursor_offset = self.cursor_offset + 1;
                },
                Key::Left => {
                    self.cursor_left();
                },
                Key::Right => {
                    self.cursor_right(code_len);
                },
                Key::Down => {
                    self.cursor_offset = self.cv.cursor_down(self.cursor_offset);
                },
                Key::Up => {
                    self.cursor_offset = self.cv.cursor_up(self.cursor_offset);
                },
                Key::Backspace => {
                    if self.cursor_offset > 0 {
                        fevent = FrontendEvent::CharErased(self.cursor_offset - 1);
                        self.cursor_left();
                    }
                },
                Key::Delete => {
                    return FrontendEvent::CharErased(self.cursor_offset);
                },
                _ => {},
            },
        }
        fevent
    }
}


/// Space while running pauses the run, and Space again resumes it.
pub proof fn lemma_space_pauses_then_resumes(ch: char, off: int, ls: Seq<Seq<char>>, code_len: int)
    ensures
        ({
            let running = Mode::Execution(ExecutionState::Running);
            let e1 = input_outcome(ch, off, ls, InputEvent::Key(Key::Char(' ')), running, code_len).2;
            let paused = next_mode(running, e1);
            let e2 = input_outcome(ch, off, ls, InputEvent::Key(Key::Char(' ')), paused, code_len).2;
            &&& e1 == FrontendEvent::Pause
            &&& paused == Mode::Execution(ExecutionState::Paused)
            &&& e2 == FrontendEvent::Play
            &&& next_mode(paused, e2) == running
        }),
{
}

/// Esc during any kind of execution stops it and returns to editing.
pub proof fn lemma_esc_stops_execution(
    ch: char,
    off: int,
    ls: Seq<Seq<char>>,
    code_len: int,
    st: ExecutionState,
)
    ensures
        ({
            let mode = Mode::Execution(st);
            let e = input_outcome(ch, off, ls, InputEvent::Key(Key::Esc), mode, code_len).2;
            e == FrontendEvent::Stop && next_mode(mode, e) == Mode::Edition
        }),
{
}

/// F5 while editing starts a run; Esc while editing quits.
pub proof fn lemma_edition_keys(ch: char, off: int, ls: Seq<Seq<char>>, code_len: int)
    ensures
        input_outcome(ch, off, ls, InputEvent::Key(Key::F(5)), Mode::Edition, code_len).2
            == FrontendEvent::Run,
        next_mode(Mode::Edition, FrontendEvent::Run) == Mode::Execution(ExecutionState::Running),
        input_outcome(ch, off, ls, InputEvent::Key(Key::Esc), Mode::Edition, code_len).2
            == FrontendEvent::Quit,
{
}

/// While asked for input, typing fills the input box, Enter hands its
/// character over and empties it, and the run resumes.
pub proof fn lemma_enter_hands_over_input(ch: char, c: char, off: int, ls: Seq<Seq<char>>, code_len: int)
    ensures
        ({
            let asking = Mode::Execution(ExecutionState::AskingInput);
            let (ch1, off1, e1) = input_outcome(ch, off, ls, InputEvent::Key(Key::Char(c)), asking, code_len);
            let (ch2, off2, e2) = input_outcome(ch1, off1, ls, InputEvent::Key(Key::Enter), asking, code_len);
            &&& e1 == FrontendEvent::NoEvent
            &&& e2 == FrontendEvent::CharProvided(c)
            &&& ch2 == '\0'
            &&& off2 == off
            &&& next_mode(asking, e2) == Mode::Execution(ExecutionState::Running)
        }),
{
}


/// While editing, Delete erases the character under the cursor and leaves
/// the cursor where it is, and Backspace erases the character before the
/// cursor and steps back onto it: Backspace at `off + 1` reports what
/// Delete at `off` reports and leaves the cursor where Delete leaves it.
pub proof fn lemma_delete_and_backspace(ch: char, off: int, ls: Seq<Seq<char>>, code_len: int)
    requires
        0 <= off < usize::MAX,
    ensures
        ({
            let del = input_outcome(ch, off, ls, InputEvent::Key(Key::Delete), Mode::Edition, code_len);
            let back = input_outcome(ch, off + 1, ls, InputEvent::Key(Key::Backspace), Mode::Edition, code_len);
            &&& del.2 == FrontendEvent::CharErased(off as usize)
            &&& del.1 == off
            &&& del.0 == ch
            &&& back.2 == del.2
            &&& back.1 == off
            &&& back.0 == ch
        }),
        input_outcome(ch, 0, ls, InputEvent::Key(Key::Backspace), Mode::Edition, code_len).2
            == FrontendEvent::NoEvent,
{
}

/// Typing while editing reports the character at the cursor and moves the
/// cursor past it.
pub proof fn lemma_typing_inserts_at_cursor(ch: char, c: char, off: int, ls: Seq<Seq<char>>, code_len: int)
    requires
        0 <= off < usize::MAX,
    ensures
        ({
            let r = input_outcome(ch, off, ls, InputEvent::Key(Key::Char(c)), Mode::Edition, code_len);
            r.2 == FrontendEvent::CharTyped(off as usize, c) && r.1 == off + 1 && r.0 == ch
        }),
{
}

} // verus!
