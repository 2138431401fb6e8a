//! Standard Brainfuck semantics, and the proof that a whole run of the
//! step-by-step interpreter computes what it prescribes.
use vstd::prelude::*;
use crate::brackets::{is_bracket_map, lemma_bracket_map_involution, partner};
use crate::interpreter::{
    cell_dec, cell_inc, fresh_state, interp_wf, lemma_step_keeps_program, next, step_defined,
    InterpreterView,
};

verus! {

/// A state of the standard machine: position in the program, cells, data
/// pointer, output, and how many input bytes have been read.
pub struct BfState {
    pub pc: usize,
    pub tape: Seq<u8>,
    pub ptr: usize,
    pub output: Seq<u8>,
    pub read: nat,
}

/// The `k`-th input byte, 0 once the input is used up.
pub open spec fn input_byte(inp: Seq<u8>, k: nat) -> u8 {
    if k < inp.len() {
        inp[k as int]
    } else {
        0
    }
}

/// The standard machine at the start: `n` zeroed cells, nothing read or written.
pub open spec fn bf_start(n: nat) -> BfState {
    BfState { pc: 0, tape: Seq::new(n, |i: int| 0u8), ptr: 0, output: Seq::empty(), read: 0 }
}

/// The next instruction neither moves the pointer below 0 or past
/// `usize::MAX` nor touches a cell outside the tape.
pub open spec fn bf_defined(code: Seq<char>, s: BfState) -> bool {
    s.pc < code.len() ==> {
        let c = code[s.pc as int];
        &&& c == '<' ==> s.ptr > 0
        &&& c == '>' ==> s.ptr < usize::MAX
        &&& (c == '+' || c == '-' || c == '[' || c == ']' || c == '.' || c == ',') ==> s.ptr
            < s.tape.len()
    }
}

/// One instruction of standard Brainfuck, with `m` pairing the brackets:
/// `[` over a zero cell and `]` over a non-zero cell continue just after
/// their partner; `,` reads the next input byte; characters that are no
/// instruction are skipped.
pub open spec fn bf_next(code: Seq<char>, m: Seq<usize>, inp: Seq<u8>, s: BfState) -> BfState {
    let pc = s.pc as int;
    let c = code[pc];
    let cell = s.tape[s.ptr as int];
    let on = (pc + 1) as usize;
    if c == '>' {
        BfState { ptr: (s.ptr + 1) as usize, pc: on, ..s }
    } else if c == '<' {
        BfState { ptr: (s.ptr - 1) as usize, pc: on, ..s }
    } else if c == '+' {
        BfState { tape: s.tape.update(s.ptr as int, cell_inc(cell)), pc: on, ..s }
    } else if c == '-' {
        BfState { tape: s.tape.update(s.ptr as int, cell_dec(cell)), pc: on, ..s }
    } else if c == '.' {
        BfState { output: s.output.push(cell), pc: on, ..s }
    } else if c == ',' {
        BfState {
            tape: s.tape.update(s.ptr as int, input_byte(inp, s.read)),
            read: s.read + 1,
            pc: on,
            ..s
        }
    } else if c == '[' && cell == 0 {
        BfState { pc: (m[pc] + 1) as usize, ..s }
    } else if c == ']' && cell != 0 {
        BfState { pc: (m[pc] + 1) as usize, ..s }
    } else {
        BfState { pc: on, ..s }
    }
}

/// The standard machine run for at most `fuel` instructions: its final
/// state if it reaches the end of the program, `None` otherwise.
pub open spec fn bf_run(code: Seq<char>, m: Seq<usize>, inp: Seq<u8>, s: BfState, fuel: nat) -> Option<
    BfState,
>
    decreases fuel,
{
    if s.pc >= code.len() {
        Some(s)
    } else if fuel == 0 || !bf_defined(code, s) {
        None
    } else {
        bf_run(code, m, inp, bf_next(code, m, inp, s), (fuel - 1) as nat)
    }
}

/// The interpreter driven by a front end that answers the `k`-th request for
/// input with the `k`-th byte of `inp`, for at most `fuel` calls: the
/// interpreter and the number of bytes handed over once it reports the end,
/// `None` if it does not within `fuel` calls or a call would be undefined.
pub open spec fn driven_run(v: InterpreterView, inp: Seq<u8>, read: nat, fuel: nat) -> Option<
    (InterpreterView, nat),
>
    decreases fuel,
{
    if v.state.step >= v.code.len() {
        Some((v, read))
    } else if fuel == 0 || !step_defined(v) {
        None
    } else if v.waiting {
        driven_run(next(v, Some(input_byte(inp, read))).0, inp, read + 1, (fuel - 1) as nat)
    } else {
        driven_run(next(v, None).0, inp, read, (fuel - 1) as nat)
    }
}

/// The interpreter and the standard machine agree on everything they share.
pub open spec fn agrees(v: InterpreterView, read: nat, s: BfState) -> bool {
    &&& v.state.step == s.pc
    &&& v.state.tape == s.tape
    &&& v.state.ptr == s.ptr
    &&& v.state.output == s.output
    &&& read == s.read
}

/// More calls change nothing once the driven run has ended.
proof fn lemma_driven_run_more_fuel(v: InterpreterView, inp: Seq<u8>, read: nat, f1: nat, f2: nat)
    requires
        f1 <= f2,
        driven_run(v, inp, read, f1) is Some,
    ensures
        driven_run(v, inp, read, f2) == driven_run(v, inp, read, f1),
    decreases f1,
{
    if v.state.step < v.code.len() {
        if v.waiting {
            lemma_driven_run_more_fuel(
                next(v, Some(input_byte(inp, read))).0,
                inp,
                read + 1,
                (f1 - 1) as nat,
                (f2 - 1) as nat,
            );
        } else {
            lemma_driven_run_more_fuel(next(v, None).0, inp, read, (f1 - 1) as nat, (f2 - 1) as nat);
        }
    }
}

/// Forward simulation: every instruction of the standard machine takes the
/// interpreter one or two calls, and the two agree afterwards.
proof fn lemma_simulation(v: InterpreterView, inp: Seq<u8>, read: nat, s: BfState, fuel: nat)
    requires
        interp_wf(v),
        !v.waiting,
        agrees(v, read, s),
        bf_run(v.code, v.map, inp, s, fuel) is Some,
    ensures
        ({
            let fin = bf_run(v.code, v.map, inp, s, fuel)->0;
            &&& driven_run(v, inp, read, 2 * fuel) is Some
            &&& ({
                let (w, r) = driven_run(v, inp, read, 2 * fuel)->0;
                agrees(w, r, fin)
            })
        }),
    decreases fuel,
{
    let code = v.code;
    let m = v.map;
    if s.pc >= code.len() {
        return;
    }
    let pc = s.pc as int;
    let c = code[pc];
    let s1 = bf_next(code, m, inp, s);
    let f1 = (fuel - 1) as nat;
    lemma_step_keeps_program(v, None);
    let v1 = next(v, None).0;
    if c == ',' {
        assert(v1.waiting);
        assert(step_defined(v1));
        lemma_step_keeps_program(v1, Some(input_byte(inp, read)));
        let v2 = next(v1, Some(input_byte(inp, read))).0;
        assert(agrees(v2, read + 1, s1));
        lemma_simulation(v2, inp, read + 1, s1, f1);
        assert(driven_run(v, inp, read, 2 * fuel) == driven_run(v2, inp, read + 1, 2 * f1));
    } else if c == ']' {
        assert(partner(code, m[pc] as int, pc));
        lemma_bracket_map_involution(code, m, pc);
        let o = m[pc] as int;
        assert(v1.state.step == o);
        assert(code[o] == '[');
        assert(step_defined(v1));
        lemma_step_keeps_program(v1, None);
        let v2 = next(v1, None).0;
        assert(m[o] == pc);
        assert(agrees(v2, read, s1));
        lemma_simulation(v2, inp, read, s1, f1);
        assert(driven_run(v, inp, read, 2 * fuel) == driven_run(v2, inp, read, 2 * f1));
    } else {
        if c == '[' {
            assert(partner(code, pc, m[pc] as int));
        }
        assert(agrees(v1, read, s1));
        lemma_simulation(v1, inp, read, s1, f1);
        lemma_driven_run_more_fuel(v1, inp, read, 2 * f1, (2 * fuel - 1) as nat);
        assert(driven_run(v, inp, read, 2 * fuel) == driven_run(v1, inp, read, (2 * fuel - 1) as nat));
    }
}

/// A whole run of the interpreter is a standard Brainfuck run: when the
/// standard machine runs the program on `n` zeroed cells and the input
/// `inp` to its end within `fuel` instructions, the interpreter, started
/// fresh and given the `k`-th byte of `inp` at its `k`-th request, reports
/// the end within `2 * fuel` calls with the same cells, pointer and output,
/// having consumed the same number of input bytes.
pub proof fn lemma_run_is_standard_brainfuck(
    code: Seq<char>,
    map: Seq<usize>,
    inp: Seq<u8>,
    n: nat,
    fuel: nat,
)
    requires
        is_bracket_map(code, map),
        code.len() <= usize::MAX,
        bf_run(code, map, inp, bf_start(n), fuel) is Some,
    ensures
        ({
            let start = InterpreterView { state: fresh_state(n), code, map, waiting: false };
            let fin = bf_run(code, map, inp, bf_start(n), fuel)->0;
            let ours = driven_run(start, inp, 0, 2 * fuel);
            &&& ours is Some
            &&& ({
                let (w, r) = ours->0;
                &&& w.state.tape == fin.tape
                &&& w.state.ptr == fin.ptr
                &&& w.state.output == fin.output
                &&& r == fin.read
            })
        }),
{
    let start = InterpreterView { state: fresh_state(n), code, map, waiting: false };
    assert(agrees(start, 0, bf_start(n)));
    lemma_simulation(start, inp, 0, bf_start(n), fuel);
}

} // verus!
