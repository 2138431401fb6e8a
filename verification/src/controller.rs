//! The editor's modes and the decisions that move between them: which
//! event leads where, when the interpreter runs a step, and what the
//! program text becomes when the user edits it.
use vstd::prelude::*;
use crate::brackets::is_bracket_map;
use crate::interpreter::{
    fresh_state, next, step_defined, Effect, Interpreter, InterpreterView,
};

verus! {

/// The number of memory cells a run gets unless told otherwise.
pub const DEFAULT_TAPE_SIZE: usize = 30000usize;

/// How a program is run: the pause between two steps and the number of cells.
pub struct ExecOptions {
    pub delay_ms: u64,
    pub tape_size: usize,
}

impl ExecOptions {
    /// No pause between steps and [`DEFAULT_TAPE_SIZE`] cells.
    pub fn default() -> (o: Self)
        ensures
            o.delay_ms == 0,
            o.tape_size == DEFAULT_TAPE_SIZE,
    {
        ExecOptions { delay_ms: 0, tape_size: DEFAULT_TAPE_SIZE }
    }
}

/// What a program being executed is doing.
#[derive(PartialEq, Eq, Structural, Clone, Copy, Debug)]
pub enum ExecutionState {
    Running,
    Paused,
    AskingInput,
}

/// Whether the user edits the program or watches it run.
#[derive(PartialEq, Eq, Structural, Clone, Copy, Debug)]
pub enum Mode {
    Edition,
    Execution(ExecutionState),
}

/// What the front end reports after reading the user's input.
#[derive(PartialEq, Eq, Structural, Clone, Copy, Debug)]
pub enum FrontendEvent {
    /// Start running the program (F5 while editing).
    Run,
    /// The byte the program asked for (Enter while asked for input).
    CharProvided(char),
    /// A character typed at the given offset while editing.
    CharTyped(usize, char),
    /// The character at the given offset deleted while editing.
    CharErased(usize),
    /// The terminal changed size.
    Resized,
    /// Leave the editor (Esc while editing).
    Quit,
    /// Stop the run and go back to editing (Esc while executing).
    Stop,
    /// Pause the run (Space while running).
    Pause,
    /// Resume the run (Space while paused).
    Play,
    /// Nothing happened.
    NoEvent,
}

/// The mode after `ev`: F5 starts a run from editing; Space pauses and
/// resumes a run; Enter hands over the requested byte and resumes; Esc stops
/// any run; anything else leaves the mode as it is.
pub open spec fn next_mode(mode: Mode, ev: FrontendEvent) -> Mode {
    match (mode, ev) {
        (Mode::Edition, FrontendEvent::Run) => Mode::Execution(ExecutionState::Running),
        (
            Mode::Execution(ExecutionState::AskingInput),
            FrontendEvent::CharProvided(_),
        ) => Mode::Execution(ExecutionState::Running),
        (Mode::Execution(_), FrontendEvent::Stop) => Mode::Edition,
        (
            Mode::Execution(ExecutionState::Running),
            FrontendEvent::Pause,
        ) => Mode::Execution(ExecutionState::Paused),
        (
            Mode::Execution(ExecutionState::Paused),
            FrontendEvent::Play,
        ) => Mode::Execution(ExecutionState::Running),
        _ => mode,
    }
}

/// The low byte of a character's code point: the byte a typed character stands for.
pub open spec fn char_byte(c: char) -> u8 {
    (c as u32) as u8
}

/// The editor session, as plain values.
pub struct ControllerView {
    pub delay_ms: u64,
    pub tape_size: usize,
    pub model: InterpreterView,
    pub mode: Mode,
    pub entry: Option<u8>,
}

/// The editor session: options, the interpreter with its program, the
/// current mode and the last byte the user provided.
pub struct Controller {
    options: ExecOptions,
    model: Interpreter,
    mode: Mode,
    entry: Option<u8>,
}

impl View for Controller {
    type V = ControllerView;

    closed spec fn view(&self) -> ControllerView {
        ControllerView {
            delay_ms: self.options.delay_ms,
            tape_size: self.options.tape_size,
            model: self.model@,
            mode: self.mode,
            entry: self.entry,
        }
    }
}

impl Controller {
    /// A session in edition mode over `model`.
    pub fn new(options: ExecOptions, model: Interpreter) -> (c: Self)
        ensures
            c@.delay_ms == options.delay_ms,
            c@.tape_size == options.tape_size,
            c@.model == model@,
            c@.mode == Mode::Edition,
            c@.entry == None::<u8>,
    {
        Controller { options, model, mode: Mode::Edition, entry: None }
    }

    /// The interpreter and its program.
    pub fn model(&self) -> (m: &Interpreter)
        ensures
            m@ == self@.model,
    {
        &self.model
    }

    /// The current mode.
    pub fn mode(&self) -> (m: Mode)
        ensures
            m == self@.mode,
    {
        self.mode
    }

    /// The run options.
    pub fn options(&self) -> (o: &ExecOptions)
        ensures
            o.delay_ms == self@.delay_ms,
            o.tape_size == self@.tape_size,
    {
        &self.options
    }

    /// Applies an event: the mode moves as [`next_mode`] says; starting a
    /// run resets the interpreter to a fresh run of its program; the byte
    /// handed over becomes the pending input; any other event (typed or
    /// erased characters among them) leaves the interpreter as it is.
    /// Returns `false` when the user leaves the editor.
    pub fn handle_event(&mut self, ev: FrontendEvent) -> (keep_going: bool)
        ensures
            keep_going == !(old(self)@.mode == Mode::Edition && ev == FrontendEvent::Quit),
            final(self)@.mode == next_mode(old(self)@.mode, ev),
            final(self)@.delay_ms == old(self)@.delay_ms,
            final(self)@.tape_size == old(self)@.tape_size,
            final(self)@.entry == match (old(self)@.mode, ev) {
                (
                    Mode::Execution(ExecutionState::AskingInput),
                    FrontendEvent::CharProvided(c),
                ) => Some(char_byte(c)),
                _ => old(self)@.entry,
            },
            ({
                let m0 = old(self)@.model;
                let m1 = final(self)@.model;
                match (old(self)@.mode, ev) {
                    (Mode::Edition, FrontendEvent::Run) => {
                        &&& m1.state == fresh_state(m0.state.tape.len())
                        &&& m1.code == m0.code
                        &&& is_bracket_map(m0.code, m1.map)
                        &&& !m1.waiting
                    },
                    _ => m1 == m0,
                }
            }),
    {
        match self.mode {
            Mode::Edition => match ev {
                FrontendEvent::Quit => {
                    return false;
                },
                FrontendEvent::Run => {
                    self.model.reset();
                    self.mode = Mode::Execution(ExecutionState::Running);
                },
                _ => {},
            },
            Mode::Execution(st) => match ev {
                FrontendEvent::Stop => {
                    self.mode = Mode::Edition;
                },
                FrontendEvent::CharProvided(c) => {
                    if st == ExecutionState::AskingInput {
                        self.entry = Some(c as u8);
                        self.mode = Mode::Execution(ExecutionState::Running);
                    }
                },
                FrontendEvent::Pause => {
                    if st == ExecutionState::Running {
                        self.mode = Mode::Execution(ExecutionState::Paused);
                    }
                },
                FrontendEvent::Play => {
                    if st == ExecutionState::Paused {
                        self.mode = Mode::Execution(ExecutionState::Running);
                    }
                },
                _ => {},
            },
        }
        true
    }

    /// While running, once at least `delay_ms` milliseconds have passed
    /// since the last step (`elapsed_ms`), runs one step with the pending
    /// input byte: a request for input switches to asking for it, the end
    /// of the program switches back to editing. Returns whether the step
    /// timer starts over: after every step but a skipped character.
    pub fn tick(&mut self, elapsed_ms: u64) -> (restart_timer: bool)
        requires
            old(self)@.mode == Mode::Execution(ExecutionState::Running) && elapsed_ms
                >= old(self)@.delay_ms ==> step_defined(old(self)@.model),
        ensures
            final(self)@.delay_ms == old(self)@.delay_ms,
            final(self)@.tape_size == old(self)@.tape_size,
            final(self)@.entry == old(self)@.entry,
            if old(self)@.mode == Mode::Execution(ExecutionState::Running) && elapsed_ms
                >= old(self)@.delay_ms {
                let (m, effect) = next(old(self)@.model, old(self)@.entry);
                &&& final(self)@.model == m
                &&& final(self)@.mode == match effect {
                    Some(Effect::AskInput) => Mode::Execution(ExecutionState::AskingInput),
                    Some(Effect::End) => Mode::Edition,
                    _ => Mode::Execution(ExecutionState::Running),
                }
                &&& restart_timer == (effect != Some(Effect::Pass))
            } else {
                &&& final(self)@.model == old(self)@.model
                &&& final(self)@.mode == old(self)@.mode
                &&& !restart_timer
            },
    {
        if self.mode == Mode::Execution(ExecutionState::Running) && elapsed_ms >= self.options.delay_ms {
            match self.model.exec_current_step(self.entry) {
                Some(Effect::AskInput) => {
                    self.mode = Mode::Execution(ExecutionState::AskingInput);
                    true
                },
                Some(Effect::Pass) => false,
                Some(Effect::End) => {
                    self.mode = Mode::Edition;
                    true
                },
                None => true,
            }
        } else {
            false
        }
    }
}


/// The byte handed over for a typed character is the low byte of its code
/// point: a character below 256 (every ASCII character, so '5' gives 53
/// and 'A' gives 65) is handed over as its own code.
pub proof fn lemma_char_byte(c: char)
    ensures
        char_byte(c) as int == (c as u32) as int % 256,
        (c as u32) < 256 ==> char_byte(c) as u32 == c as u32,
{
    let x: u32 = c as u32;
    assert((x as u8) as u32 == x % 256) by (bit_vector);
}

} // verus!
