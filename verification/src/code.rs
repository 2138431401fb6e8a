//! The program text being edited and run.
use vstd::prelude::*;
use crate::brackets::{depth, is_bracket_map, lemma_depth_step, partner, well_bracketed};
use crate::text::{
    clean_prefix, cleaned, commands, indent_piece, indent_prefix, indentable, indented, is_blank,
    is_repeated_blank, lemma_cleaned_indentable, push_spaces, lemma_reformat_keeps_commands, run_holds, spaces, split_lines, text_lines,
};

verus! {

/// A Brainfuck program as a sequence of characters.
pub struct Code {
    code: Vec<char>,
}

impl View for Code {
    type V = Seq<char>;

    closed spec fn view(&self) -> Seq<char> {
        self.code@
    }
}

/// Scans the nesting depths of `s`: the final depth when no prefix closes
/// more brackets than it opened and no depth exceeds `limit`, `None` otherwise.
fn scan_depths(s: &Vec<char>, limit: usize) -> (r: Option<usize>)
    ensures
        r is Some <==> forall|n: int|
            0 <= n <= s@.len() ==> 0 <= #[trigger] depth(s@, n) && depth(s@, n) <= limit,
        r is Some ==> r->0 == depth(s@, s@.len() as int),
{
    let mut d: usize = 0;
    let mut i: usize = 0;
    while i < s.len()
        invariant
            i <= s.len(),
            d == depth(s@, i as int),
            forall|n: int| 0 <= n <= i ==> 0 <= #[trigger] depth(s@, n) && depth(s@, n) <= limit,
        decreases s.len() - i,
    {
        proof {
            lemma_depth_step(s@, i as int);
        }
        if s[i] == '[' {
            if d >= limit {
                assert(depth(s@, i + 1) > limit);
                return None;
            }
            d = d + 1;
        } else if s[i] == ']' {
            if d == 0 {
                assert(depth(s@, i + 1) < 0);
                return None;
            }
            d = d - 1;
        }
        i = i + 1;
        assert(forall|n: int| 0 <= n <= i ==> 0 <= #[trigger] depth(s@, n) && depth(s@, n) <= limit);
    }
    Some(d)
}

/// Whether no prefix of `s` closes more brackets than it opened and twice
/// every depth fits in a `usize`: the texts [`Code::from_string`] and
/// [`Code::indent`] accept.
pub fn fits_indentation(s: &Vec<char>) -> (ok: bool)
    ensures
        ok == indentable(s@),
{
    let r = scan_depths(s, usize::MAX / 2);
    assert(r is Some <==> indentable(s@));
    r.is_some()
}

/// Whether every bracket of `s` has a partner: the texts an interpreter can run.
pub fn is_well_bracketed(s: &Vec<char>) -> (ok: bool)
    ensures
        ok == well_bracketed(s@),
{
    proof {
        lemma_depth_bounded(s@);
        assert(s@.len() == s.len());
        assert(forall|n: int| 0 <= n <= s@.len() ==> #[trigger] depth(s@, n) <= usize::MAX);
    }
    match scan_depths(s, usize::MAX) {
        Some(d) => d == 0,
        None => false,
    }
}

/// No prefix of a text reaches a depth beyond its own length.
proof fn lemma_depth_bounded(s: Seq<char>)
    ensures
        forall|n: int| 0 <= n ==> #[trigger] depth(s, n) <= n,
{
    assert forall|n: int| 0 <= n implies #[trigger] depth(s, n) <= n by {
        lemma_depth_le(s, n);
    }
}

proof fn lemma_depth_le(s: Seq<char>, n: int)
    requires
        0 <= n,
    ensures
        depth(s, n) <= n,
    decreases n,
{
    if n > 0 {
        lemma_depth_le(s, n - 1);
    }
}

impl Code {
    /// An empty program.
    pub fn new() -> (c: Self)
        ensures
            c@ == Seq::<char>::empty(),
    {
        Code { code: Vec::new() }
    }

    /// The program read from `raw`, then cleaned and indented.
    pub fn from_string(raw: String) -> (c: Self)
        requires
            indentable(raw@),
        ensures
            c@ == indented(cleaned(raw@)),
            commands(c@) == commands(raw@),
    {
        let mut chars: Vec<char> = Vec::new();
        for ch in it: raw.as_str().chars()
            invariant
                it.seq() == raw@,
                chars@ == it.seq().take(it.index()),
        {
            chars.push(ch);
            assert(chars@ == it.seq().take(it.index() + 1));
        }
        assert(chars@ == raw@);
        let mut c = Code { code: chars };
        c.indent();
        c
    }

    /// Drops every blank that repeats one already present in its run of blanks.
    fn clean(&mut self)
        ensures
            final(self)@ == cleaned(old(self)@),
    {
        let ghost s = self.code@;
        let mut out: Vec<char> = Vec::new();
        let mut space = false;
        let mut enter = false;
        let mut i: usize = 0;
        while i < self.code.len()
            invariant
                s == self.code@,
                i <= s.len(),
                out@ == clean_prefix(s, i as int),
                space == run_holds(s, i as int, ' '),
                enter == run_holds(s, i as int, '\n'),
            decreases s.len() - i,
        {
            let c = self.code[i];
            let keep = if c == ' ' {
                if space {
                    false
                } else {
                    space = true;
                    true
                }
            } else if c == '\n' {
                if enter {
                    false
                } else {
                    enter = true;
                    true
                }
            } else {
                space = false;
                enter = false;
                true
            };
            assert(keep == !is_repeated_blank(s, i as int));
            if keep {
                out.push(c);
            }
            i = i + 1;
        }
        self.code = out;
    }

    /// Cleans the program, then lays it out by bracket depth (see [`indented`]).
    pub fn indent(&mut self)
        requires
            indentable(old(self)@),
        ensures
            final(self)@ == indented(cleaned(old(self)@)),
            commands(final(self)@) == commands(old(self)@),
    {
        proof {
            lemma_cleaned_indentable(self@);
            lemma_reformat_keeps_commands(self@);
        }
        self.clean();
        let ghost t = self.code@;
        let mut out: Vec<char> = Vec::new();
        let mut dept: usize = 0;
        let mut i: usize = 0;
        while i < self.code.len()
            invariant
                t == self.code@,
                indentable(t),
                i <= t.len(),
                dept == depth(t, i as int),
                out@ == indent_prefix(t, i as int),
            decreases t.len() - i,
        {
            let c = self.code[i];
            let ghost before = out@;
            proof {
                lemma_depth_step(t, i as int);
                assert(0 <= depth(t, i + 1) && 2 * depth(t, i + 1) <= usize::MAX);
            }
            if c == '[' {
                dept = dept + 1;
                out.push(c);
                out.push('\n');
                push_spaces(&mut out, 2 * dept);
                assert(out@ == before + indent_piece(c, depth(t, i as int)));
            } else if c == '\n' {
                out.push('\n');
                push_spaces(&mut out, 2 * dept);
                assert(out@ == before + indent_piece(c, depth(t, i as int)));
            } else if c == ']' {
                out.push('\n');
                dept = dept - 1;
                push_spaces(&mut out, 2 * dept);
                out.push(c);
                out.push('\n');
                push_spaces(&mut out, 2 * dept);
                assert(out@ == before + indent_piece(c, depth(t, i as int)));
            } else {
                out.push(c);
                assert(out@ == before + indent_piece(c, depth(t, i as int)));
            }
            i = i + 1;
        }
        self.code = out;
    }

    /// Puts `c` at position `offset`, moving the rest one place on.
    pub fn insert(&mut self, offset: usize, c: char)
        requires
            offset <= old(self)@.len(),
        ensures
            final(self)@ == old(self)@.insert(offset as int, c),
    {
        self.code.insert(offset, c);
    }

    /// Takes out the character at position `offset`.
    pub fn remove(&mut self, offset: usize)
        requires
            offset < old(self)@.len(),
        ensures
            final(self)@ == old(self)@.remove(offset as int),
    {
        self.code.remove(offset);
    }

    /// The program's newline-terminated lines, each with a space in place of
    /// its newline (see [`text_lines`]).
    pub fn lines(&self) -> (lines: Vec<Vec<char>>)
        ensures
            lines.deep_view() == text_lines(self@),
    {
        let ghost s = self.code@;
        let mut lines: Vec<Vec<char>> = Vec::new();
        let mut line: Vec<char> = Vec::new();
        let mut i: usize = 0;
        while i < self.code.len()
            invariant
                s == self.code@,
                i <= s.len(),
                lines.deep_view() == split_lines(s, i as int).0,
                line@ == split_lines(s, i as int).1,
            decreases s.len() - i,
        {
            let c = self.code[i];
            if c == '\n' {
                line.push(' ');
                let ghost old_lines = lines.deep_view();
                let ghost lv = line@;
                assert(line.deep_view() =~= lv);
                lines.push(line);
                assert(lines.deep_view() =~= old_lines.push(lv));
                line = Vec::new();
            } else {
                line.push(c);
            }
            i = i + 1;
        }
        lines
    }

    /// A program is never longer than a `usize` can count.
    pub proof fn lemma_len_bound(&self)
        ensures
            self@.len() <= usize::MAX,
    {
        assert(self.code.len() == self.code@.len());
    }

    /// The program's characters.
    pub fn code(&self) -> (code: &Vec<char>)
        ensures
            code@ == self@,
    {
        &self.code
    }

    /// The number of characters.
    pub fn len(&self) -> (n: usize)
        ensures
            n == self@.len(),
    {
        self.code.len()
    }

    /// For every bracket, the position of its partner; 0 at every other position.
    pub fn bracklet_map(&self) -> (m: Vec<usize>)
        requires
            well_bracketed(self@),
        ensures
            is_bracket_map(self@, m@),
    {
        let ghost s = self.code@;
        let n = self.code.len();
        let mut map: Vec<usize> = Vec::new();
        let mut k: usize = 0;
        while k < n
            invariant
                k <= n,
                map@.len() == k,
                forall|p: int| 0 <= p < k ==> map@[p] == 0,
            decreases n - k,
        {
            map.push(0);
            k = k + 1;
        }
        let mut stack: Vec<usize> = Vec::new();
        let mut i: usize = 0;
        while i < n
            invariant
                s == self.code@,
                n == s.len(),
                well_bracketed(s),
                i <= n,
                map@.len() == n,
                stack@.len() == depth(s, i as int),
                forall|k: int|
                    #![trigger stack@[k]]
                    0 <= k < stack@.len() ==> {
                        &&& stack@[k] < i
                        &&& s[stack@[k] as int] == '['
                        &&& depth(s, stack@[k] as int) == k
                        &&& forall|q: int| stack@[k] < q < i ==> #[trigger] depth(s, q + 1) > k
                    },
                forall|p: int|
                    #![trigger map@[p]]
                    0 <= p < i && s[p] == '[' ==> {
                        ||| partner(s, p, map@[p] as int) && map@[p] < i
                        ||| 0 <= depth(s, p) < stack@.len() && stack@[depth(s, p)] == p
                    },
                forall|p: int|
                    #![trigger map@[p]]
                    0 <= p < i && s[p] == ']' ==> partner(s, map@[p] as int, p),
                forall|p: int|
                    #![trigger map@[p]]
                    0 <= p < n && (p >= i || (s[p] != '[' && s[p] != ']')) ==> map@[p] == 0,
            decreases n - i,
        {
            proof {
                lemma_depth_step(s, i as int);
                assert(depth(s, i as int) >= 0);
                assert(depth(s, i + 1) >= 0);
            }
            let c = self.code[i];
            let ghost old_stack = stack@;
            let ghost old_map = map@;
            if c == '[' {
                stack.push(i);
                i = i + 1;
                assert forall|p: int|
                    #![trigger map@[p]]
                    0 <= p < i && s[p] == '[' implies {
                        ||| partner(s, p, map@[p] as int) && map@[p] < i
                        ||| 0 <= depth(s, p) < stack@.len() && stack@[depth(s, p)] == p
                    } by {
                    if p < i - 1 {
                        assert(old_map[p] == map@[p]);
                        if !(partner(s, p, map@[p] as int) && map@[p] < i - 1) {
                            assert(stack@[depth(s, p)] == old_stack[depth(s, p)]);
                        }
                    }
                }
            } else if c == ']' {
                let origin = stack.pop().unwrap();
                proof {
                    let d = old_stack.len() - 1;
                    assert(old_stack[d] == origin);
                    assert(depth(s, origin as int) == d);
                    assert(partner(s, origin as int, i as int));
                }
                map.set(i, origin);
                map.set(origin, i);
                i = i + 1;
                assert forall|p: int|
                    #![trigger map@[p]]
                    0 <= p < i && s[p] == '[' implies {
                        ||| partner(s, p, map@[p] as int) && map@[p] < i
                        ||| 0 <= depth(s, p) < stack@.len() && stack@[depth(s, p)] == p
                    } by {
                    if p != origin {
                        assert(old_map[p] == map@[p]);
                        if !(partner(s, p, map@[p] as int) && map@[p] < i - 1) {
                            assert(old_stack[depth(s, p)] == p);
                            if depth(s, p) == old_stack.len() - 1 {
                                assert(p == origin);
                            }
                            assert(stack@[depth(s, p)] == old_stack[depth(s, p)]);
                        }
                    }
                }
                assert forall|p: int|
                    #![trigger map@[p]]
                    0 <= p < i && s[p] == ']' implies partner(s, map@[p] as int, p) by {
                    if p < i - 1 {
                        assert(old_map[p] == map@[p]);
                    }
                }
            } else {
                i = i + 1;
                assert forall|p: int|
                    #![trigger map@[p]]
                    0 <= p < i && s[p] == '[' implies {
                        ||| partner(s, p, map@[p] as int) && map@[p] < i
                        ||| 0 <= depth(s, p) < stack@.len() && stack@[depth(s, p)] == p
                    } by {
                    assert(old_map[p] == map@[p]);
                }
            }
        }
        proof {
            assert(stack@.len() == 0);
            assert forall|p: int|
                #![trigger map@[p]]
                0 <= p < s.len() implies if s[p] == '[' {
                    partner(s, p, map@[p] as int)
                } else if s[p] == ']' {
                    partner(s, map@[p] as int, p)
                } else {
                    map@[p] == 0
                } by {}
        }
        map
    }
}

} // verus!
