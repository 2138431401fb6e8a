//! A Brainfuck interpreter that runs one instruction per call, so that a
//! front end can show every intermediate state.
use vstd::prelude::*;
use crate::brackets::{is_bracket_map, partner, well_bracketed};
use crate::code::Code;

verus! {

/// The memory, pointer, position and output of a run, as plain values.
pub struct StateView {
    pub tape: Seq<u8>,
    pub ptr: usize,
    pub step: usize,
    pub output: Seq<u8>,
}

/// Memory cells, data pointer, position in the program and the bytes printed so far.
#[derive(Clone)]
pub struct InterpreterState {
    tape: Vec<u8>,
    pub ptr: usize,
    pub step: usize,
    output: Vec<u8>,
}

impl View for InterpreterState {
    type V = StateView;

    closed spec fn view(&self) -> StateView {
        StateView { tape: self.tape@, ptr: self.ptr, step: self.step, output: self.output@ }
    }
}

/// The state a run starts from: `tape_size` cells holding 0, everything else at its start.
pub open spec fn fresh_state(tape_size: nat) -> StateView {
    StateView {
        tape: Seq::new(tape_size, |i: int| 0u8),
        ptr: 0,
        step: 0,
        output: Seq::empty(),
    }
}

impl InterpreterState {
    /// A fresh state with `tape_size` zeroed cells.
    pub fn new(tape_size: usize) -> (s: Self)
        ensures
            s@ == fresh_state(tape_size as nat),
    {
        let mut tape: Vec<u8> = Vec::new();
        let mut k: usize = 0;
        while k < tape_size
            invariant
                k <= tape_size,
                tape@ == Seq::new(k as nat, |i: int| 0u8),
            decreases tape_size - k,
        {
            tape.push(0);
            k = k + 1;
            assert(tape@ =~= Seq::new(k as nat, |i: int| 0u8));
        }
        InterpreterState { tape, ptr: 0, step: 0, output: Vec::new() }
    }

    /// The memory cells.
    pub fn tape(&self) -> (t: &Vec<u8>)
        ensures
            t@ == self@.tape,
    {
        &self.tape
    }

    /// The data pointer.
    pub fn ptr(&self) -> (p: usize)
        ensures
            p == self@.ptr,
    {
        self.ptr
    }

    /// The position in the program.
    pub fn step(&self) -> (s: usize)
        ensures
            s == self@.step,
    {
        self.step
    }

    /// The bytes printed so far.
    pub fn output(&self) -> (o: &Vec<u8>)
        ensures
            o@ == self@.output,
    {
        &self.output
    }
}

/// What a step asks of the front end.
#[derive(PartialEq, Eq, Structural, Clone, Copy, Debug)]
pub enum Effect {
    /// The instruction is `,`: the next step stores the byte the user gives.
    AskInput,
    /// The character was no instruction and was skipped.
    Pass,
    /// The program has run to its end.
    End,
}

/// An interpreter, as plain values.
pub struct InterpreterView {
    pub state: StateView,
    pub code: Seq<char>,
    pub map: Seq<usize>,
    pub waiting: bool,
}

/// A run of a program: its state, the program, the bracket map of the
/// program and whether it waits for an input byte.
pub struct Interpreter {
    state: InterpreterState,
    code: Code,
    bracklet_map: Vec<usize>,
    waiting_for_input: bool,
}

impl View for Interpreter {
    type V = InterpreterView;

    closed spec fn view(&self) -> InterpreterView {
        InterpreterView {
            state: self.state@,
            code: self.code@,
            map: self.bracklet_map@,
            waiting: self.waiting_for_input,
        }
    }
}

/// The bracket map belongs to the program and the position lies within it (or just past it).
pub open spec fn interp_wf(v: InterpreterView) -> bool {
    &&& is_bracket_map(v.code, v.map)
    &&& v.state.step <= v.code.len()
    &&& v.code.len() <= usize::MAX
}

/// `x + 1` modulo 256.
pub open spec fn cell_inc(x: u8) -> u8 {
    if x == 255 {
        0
    } else {
        (x + 1) as u8
    }
}

/// `x - 1` modulo 256.
pub open spec fn cell_dec(x: u8) -> u8 {
    if x == 0 {
        255
    } else {
        (x - 1) as u8
    }
}

/// The next step neither moves the pointer below 0 or past `usize::MAX`,
/// nor reads or writes a cell outside the tape.
pub open spec fn step_defined(v: InterpreterView) -> bool {
    let st = v.state;
    st.step < v.code.len() ==> if v.waiting {
        st.ptr < st.tape.len()
    } else {
        let c = v.code[st.step as int];
        &&& c == '<' ==> st.ptr > 0
        &&& c == '>' ==> st.ptr < usize::MAX
        &&& (c == '+' || c == '-' || c == '[' || c == '.') ==> st.ptr < st.tape.len()
    }
}

/// `v` with its state replaced.
pub open spec fn with_state(v: InterpreterView, st: StateView) -> InterpreterView {
    InterpreterView { state: st, ..v }
}

/// `st` moved on to position `step`.
pub open spec fn at_step(st: StateView, step: int) -> StateView {
    StateView { step: step as usize, ..st }
}

/// One step of the interpreter from `v`, given the byte `entry` that the
/// user may have typed: the interpreter afterwards, and what it asks of the
/// front end.
pub open spec fn next(v: InterpreterView, entry: Option<u8>) -> (InterpreterView, Option<Effect>) {
    let st = v.state;
    let s = st.step as int;
    if s == v.code.len() {
        (v, Some(Effect::End))
    } else if v.waiting {
        let byte = match entry {
            Some(b) => b,
            None => 0u8,
        };
        (
            InterpreterView {
                state: StateView { tape: st.tape.update(st.ptr as int, byte), step: (s + 1) as usize, ..st },
                waiting: false,
                ..v
            },
            None,
        )
    } else {
        let c = v.code[s];
        if c == '>' {
            (with_state(v, StateView { ptr: (st.ptr + 1) as usize, step: (s + 1) as usize, ..st }), None)
        } else if c == '<' {
            (with_state(v, StateView { ptr: (st.ptr - 1) as usize, step: (s + 1) as usize, ..st }), None)
        } else if c == '+' {
            (
                with_state(v, StateView {
                    tape: st.tape.update(st.ptr as int, cell_inc(st.tape[st.ptr as int])),
                    step: (s + 1) as usize,
                    ..st
                }),
                None,
            )
        } else if c == '-' {
            (
                with_state(v, StateView {
                    tape: st.tape.update(st.ptr as int, cell_dec(st.tape[st.ptr as int])),
                    step: (s + 1) as usize,
                    ..st
                }),
                None,
            )
        } else if c == '[' {
            if st.tape[st.ptr as int] == 0 {
                (with_state(v, at_step(st, v.map[s] + 1)), None)
            } else {
                (with_state(v, at_step(st, s + 1)), None)
            }
        } else if c == ']' {
            (with_state(v, at_step(st, v.map[s] as int)), None)
        } else if c == '.' {
            (
                with_state(v, StateView {
                    output: st.output.push(st.tape[st.ptr as int]),
                    step: (s + 1) as usize,
                    ..st
                }),
                None,
            )
        } else if c == ',' {
            (InterpreterView { waiting: true, ..v }, Some(Effect::AskInput))
        } else {
            (with_state(v, at_step(st, s + 1)), Some(Effect::Pass))
        }
    }
}

impl Interpreter {
    /// The program is well bracketed, the bracket map is its own and the
    /// position lies within the program or just past it.
    #[verifier::type_invariant]
    spec fn consistent(self) -> bool {
        well_bracketed(self.code@) && interp_wf(self@)
    }

    /// A run of `code` with `tape_size` zeroed cells.
    pub fn new(code: Code, tape_size: usize) -> (interp: Self)
        requires
            well_bracketed(code@),
        ensures
            interp@.state == fresh_state(tape_size as nat),
            interp@.code == code@,
            is_bracket_map(code@, interp@.map),
            !interp@.waiting,
            interp_wf(interp@),
    {
        let map = code.bracklet_map();
        proof {
            code.lemma_len_bound();
        }
        Interpreter {
            state: InterpreterState::new(tape_size),
            bracklet_map: map,
            code: code,
            waiting_for_input: false,
        }
    }

    /// Starts a fresh run of the program: as many zeroed cells as before,
    /// pointer and position at 0, no output, no input pending.
    pub fn reset(&mut self)
        ensures
            final(self)@.state == fresh_state(old(self)@.state.tape.len()),
            final(self)@.code == old(self)@.code,
            is_bracket_map(old(self)@.code, final(self)@.map),
            !final(self)@.waiting,
            interp_wf(final(self)@),
    {
        proof {
            use_type_invariant(&*self);
        }
        self.state = InterpreterState::new(self.state.tape.len());
        self.waiting_for_input = false;
        self.build_bracklet_map();
    }

    /// Recomputes the bracket map from the program.
    pub fn build_bracklet_map(&mut self)
        ensures
            final(self)@.state == old(self)@.state,
            final(self)@.code == old(self)@.code,
            is_bracket_map(old(self)@.code, final(self)@.map),
            final(self)@.waiting == old(self)@.waiting,
            interp_wf(final(self)@),
    {
        proof {
            use_type_invariant(&*self);
        }
        self.bracklet_map = self.code.bracklet_map();
    }

    /// Whether the next step is defined (see [`step_defined`]).
    pub fn can_step(&self) -> (ok: bool)
        ensures
            ok == step_defined(self@),
    {
        let st = &self.state;
        if st.step >= self.code.len() {
            return true;
        }
        if self.waiting_for_input {
            return st.ptr < st.tape.len();
        }
        let c = self.code.code()[st.step];
        if c == '<' {
            st.ptr > 0
        } else if c == '>' {
            st.ptr < usize::MAX
        } else if c == '+' || c == '-' || c == '[' || c == '.' {
            st.ptr < st.tape.len()
        } else {
            true
        }
    }

    /// Runs one step (see [`next`]); `entry` is the byte to store if the
    /// interpreter waits for input, 0 when it is `None`.
    pub fn exec_current_step(&mut self, entry: Option<u8>) -> (effect: Option<Effect>)
        requires
            step_defined(old(self)@),
        ensures
            (final(self)@, effect) == next(old(self)@, entry),
            interp_wf(final(self)@),
    {
        proof {
            use_type_invariant(&*self);
        }
        let ghost v = self@;
        if self.state.step == self.code.len() {
            return Some(Effect::End);
        }
        let mut st = InterpreterState { tape: Vec::new(), ptr: 0, step: 0, output: Vec::new() };
        std::mem::swap(&mut st, &mut self.state);
        let p = st.ptr;
        let s = st.step;
        let effect;
        if self.waiting_for_input {
            st.tape.set(p, entry.unwrap_or(0));
            st.step = s + 1;
            self.waiting_for_input = false;
            effect = None;
        } else {
            let c = self.code.code()[s];
            effect = if c == ',' {
                self.waiting_for_input = true;
                Some(Effect::AskInput)
            } else if c == '>' {
                st.ptr = p + 1;
                st.step = s + 1;
                None
            } else if c == '<' {
                st.ptr = p - 1;
                st.step = s + 1;
                None
            } else if c == '+' {
                let x = st.tape[p];
                st.tape.set(p, x.wrapping_add(1));
                st.step = s + 1;
                None
            } else if c == '-' {
                let x = st.tape[p];
                st.tape.set(p, x.wrapping_sub(1));
                st.step = s + 1;
                None
            } else if c == '[' {
                if st.tape[p] == 0 {
                    proof {
                        assert(partner(v.code, s as int, v.map[s as int] as int));
                    }
                    st.step = self.bracklet_map[s] + 1;
                } else {
                    st.step = s + 1;
                }
                None
            } else if c == ']' {
                proof {
                    assert(partner(v.code, v.map[s as int] as int, s as int));
                }
                st.step = self.bracklet_map[s];
                None
            } else if c == '.' {
                let x = st.tape[p];
                st.output.push(x);
                st.step = s + 1;
                None
            } else {
                st.step = s + 1;
                Some(Effect::Pass)
            };
        }
        self.state = st;
        effect
    }

    /// The state of the run.
    pub fn state(&self) -> (st: &InterpreterState)
        ensures
            st@ == self@.state,
    {
        &self.state
    }

    /// The program being run.
    pub fn code(&self) -> (c: &Code)
        ensures
            c@ == self@.code,
    {
        &self.code
    }
}


/// A step never changes the program, its bracket map or the number of cells,
/// keeps the position within the program, and only ever appends to the output.
pub proof fn lemma_step_keeps_program(v: InterpreterView, entry: Option<u8>)
    requires
        interp_wf(v),
        step_defined(v),
    ensures
        next(v, entry).0.code == v.code,
        next(v, entry).0.map == v.map,
        next(v, entry).0.state.tape.len() == v.state.tape.len(),
        interp_wf(next(v, entry).0),
        v.state.output.is_prefix_of(next(v, entry).0.state.output),
{
    let s = v.state.step as int;
    if s < v.code.len() && !v.waiting {
        let c = v.code[s];
        if c == '[' {
            assert(partner(v.code, s, v.map[s] as int));
        } else if c == ']' {
            assert(partner(v.code, v.map[s] as int, s));
        }
    }
    assert(v.state.output.is_prefix_of(v.state.output.push(0u8)));
}

/// Once the program has run to its end, a step changes nothing and reports the end.
pub proof fn lemma_end_is_final(v: InterpreterView, entry: Option<u8>)
    requires
        v.state.step == v.code.len(),
    ensures
        next(v, entry) == (v, Some(Effect::End)),
{
}

/// Loops follow the bracket structure: a `[` over a zero cell continues just
/// after the `]` that closes it, and a `]` goes back to the `[` it closes.
pub proof fn lemma_jumps_follow_partners(v: InterpreterView, entry: Option<u8>)
    requires
        interp_wf(v),
        v.state.step < v.code.len(),
        !v.waiting,
        v.state.ptr < v.state.tape.len(),
    ensures
        v.code[v.state.step as int] == '[' && v.state.tape[v.state.ptr as int] == 0 ==> exists|j: int|
            partner(v.code, v.state.step as int, j) && next(v, entry).0.state.step == j + 1,
        v.code[v.state.step as int] == ']' ==> exists|i: int|
            partner(v.code, i, v.state.step as int) && next(v, entry).0.state.step == i,
{
    let s = v.state.step as int;
    let c = v.code[s];
    if c == '[' && v.state.tape[v.state.ptr as int] == 0 {
        assert(partner(v.code, s, v.map[s] as int));
        assert(v.map[s] + 1 <= v.code.len());
        assert(next(v, entry).0.state.step == v.map[s] + 1);
    } else if c == ']' {
        assert(partner(v.code, v.map[s] as int, s));
    }
}


/// What a step reports: the end once the position is past the program; a
/// request for input on `,`; nothing on a stored input byte or on any of
/// the other seven commands `>` `<` `+` `-` `.` `[` `]`; and a skip only on
/// a character that is none of the eight commands.
pub proof fn lemma_step_effects(v: InterpreterView, entry: Option<u8>)
    requires
        v.state.step <= v.code.len(),
    ensures
        v.state.step == v.code.len() ==> next(v, entry).1 == Some(Effect::End),
        v.state.step < v.code.len() && v.waiting ==> next(v, entry).1 == None::<Effect>,
        v.state.step < v.code.len() && !v.waiting ==> {
            let c = v.code[v.state.step as int];
            &&& (c == '>' || c == '<' || c == '+' || c == '-' || c == '.' || c == '[' || c == ']')
                ==> next(v, entry).1 == None::<Effect>
            &&& c == ',' ==> next(v, entry).1 == Some(Effect::AskInput)
            &&& next(v, entry).1 == Some(Effect::Pass) <==> !(c == '>' || c == '<' || c == '+' || c
                == '-' || c == '.' || c == '[' || c == ']' || c == ',')
        },
        next(v, entry).1 != Some(Effect::End) ==> v.state.step < v.code.len(),
{
}

/// A command moves on or jumps; only `,` waits in place: after a step that
/// reports nothing or a skip, the interpreter waits for no input.
pub proof fn lemma_no_wait_after_silent_step(v: InterpreterView, entry: Option<u8>)
    requires
        v.state.step < v.code.len(),
    ensures
        next(v, entry).1 != Some(Effect::AskInput) ==> !next(v, entry).0.waiting,
        next(v, entry).1 == Some(Effect::AskInput) ==> next(v, entry).0.waiting
            && next(v, entry).0.state == v.state,
{
}


/// What a step does to the machine: `>` and `<` move the pointer by one,
/// `+` and `-` add and subtract one modulo 256 in the current cell, `.`
/// appends the current cell to the output, a stored input byte (0 when
/// none is given) replaces the current cell; each of these then moves to
/// the next character and touches nothing else. `,` changes no cell,
/// pointer, position or output.
pub proof fn lemma_step_states(v: InterpreterView, entry: Option<u8>)
    requires
        v.state.step < v.code.len(),
        v.state.ptr < v.state.tape.len(),
        v.code.len() <= usize::MAX,
        v.state.tape.len() <= usize::MAX,
    ensures
        ({
            let st = v.state;
            let st2 = next(v, entry).0.state;
            let c = v.code[st.step as int];
            let cell = st.tape[st.ptr as int] as int;
            &&& v.waiting ==> {
                &&& st2.tape == st.tape.update(
                    st.ptr as int,
                    match entry {
                        Some(b) => b,
                        None => 0u8,
                    },
                )
                &&& st2.ptr == st.ptr
                &&& st2.output == st.output
                &&& st2.step == st.step + 1
            }
            &&& !v.waiting ==> {
                &&& c == '>' ==> st2.ptr == st.ptr + 1 && st2.tape == st.tape && st2.output
                    == st.output && st2.step == st.step + 1
                &&& c == '<' && st.ptr > 0 ==> st2.ptr == st.ptr - 1 && st2.tape == st.tape
                    && st2.output == st.output && st2.step == st.step + 1
                &&& c == '+' ==> st2.tape.len() == st.tape.len() && st2.tape[st.ptr as int] as int
                    == (cell + 1) % 256 && (forall|k: int|
                    0 <= k < st.tape.len() && k != st.ptr ==> #[trigger] st2.tape[k] == st.tape[k])
                    && st2.ptr == st.ptr && st2.output == st.output && st2.step == st.step + 1
                &&& c == '-' ==> st2.tape.len() == st.tape.len() && st2.tape[st.ptr as int] as int
                    == (cell + 255) % 256 && (forall|k: int|
                    0 <= k < st.tape.len() && k != st.ptr ==> #[trigger] st2.tape[k] == st.tape[k])
                    && st2.ptr == st.ptr && st2.output == st.output && st2.step == st.step + 1
                &&& c == '.' ==> st2.output == st.output.push(st.tape[st.ptr as int]) && st2.tape
                    == st.tape && st2.ptr == st.ptr && st2.step == st.step + 1
                &&& c == ',' ==> st2 == st
            }
        }),
{
}

} // verus!
