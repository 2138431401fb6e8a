//! The editor's picture of a program: display lines laid out by bracket
//! depth, cursor placement and movement, the visible window, and the
//! colour class of each character.
use vstd::prelude::*;
use crate::brackets::{depth, lemma_depth_step};
use crate::text::{
    cleaned, indent_piece, indent_prefix, indentable, indented, lemma_split_concat,
    lemma_split_more_concat, lemma_split_more_no_newline, push_spaces, spaces, split_lines,
    split_more, split_step, text_lines,
};

verus! {

/// The display lines closed within the first `n` characters of `s`, and the
/// line still being filled.
pub open spec fn display_prefix(s: Seq<char>, n: int) -> (Seq<Seq<char>>, Seq<char>)
    decreases n,
{
    if n <= 0 {
        (Seq::empty(), Seq::empty())
    } else {
        let (done, cur) = display_prefix(s, n - 1);
        let c = s[n - 1];
        let d = depth(s, n - 1);
        if c == '[' {
            (done.push(cur.push('[').push(' ')), spaces(2 * (d + 1)))
        } else if c == '\n' {
            (done.push(cur.push(' ')), spaces(2 * d))
        } else if c == ']' {
            (
                done.push(cur.push(' ')).push(spaces(2 * (d - 1)).push(']').push(' ')),
                spaces(2 * (d - 1)),
            )
        } else {
            (done, cur.push(c))
        }
    }
}

/// The lines the editor shows for `s`: a line ends after every `[` (kept on
/// its line), at every newline, and around every `]` (alone on its line);
/// each closed line gets a trailing space, each new line two spaces of
/// indentation per open bracket, and text after the last break is not shown.
pub open spec fn display_lines(s: Seq<char>) -> Seq<Seq<char>> {
    display_prefix(s, s.len() as int).0
}

/// Every line holds at least one character.
pub open spec fn all_nonempty(ls: Seq<Seq<char>>) -> bool {
    forall|k: int| 0 <= k < ls.len() ==> #[trigger] ls[k].len() > 0
}

/// Where offset `off` falls when the lines from `k` on are laid end to end:
/// (line, column), or (0, 0) when it lies past them all.
pub open spec fn loc_from(ls: Seq<Seq<char>>, k: int, off: int) -> (int, int)
    decreases ls.len() - k,
{
    if k < 0 || k >= ls.len() {
        (0, 0)
    } else if ls[k].len() > off {
        (k, off)
    } else {
        loc_from(ls, k + 1, off - ls[k].len())
    }
}

/// The (line, column) of character offset `off` in `ls`; (0, 0) past the end.
pub open spec fn cursor_loc_spec(ls: Seq<Seq<char>>, off: int) -> (int, int) {
    loc_from(ls, 0, off)
}

/// The offset one line down from `off`, at the same column or at the last
/// column of the line below when that is shorter; `off` itself on the last line.
pub open spec fn cursor_down_spec(ls: Seq<Seq<char>>, off: int) -> int {
    let (cy, cx) = cursor_loc_spec(ls, off);
    if cy + 2 > ls.len() {
        off
    } else {
        off - cx + ls[cy].len() + if cx < ls[cy + 1].len() - 1 {
            cx
        } else {
            ls[cy + 1].len() - 1
        }
    }
}

/// The column the cursor lands on in the line above.
pub open spec fn up_column(ls: Seq<Seq<char>>, off: int) -> int {
    let (cy, cx) = cursor_loc_spec(ls, off);
    if cx < ls[cy - 1].len() - 1 {
        cx
    } else {
        ls[cy - 1].len() - 1
    }
}

/// The offset one line up from `off`, at the same column or at the last
/// column of the line above when that is shorter; `off` itself on the first line.
pub open spec fn cursor_up_spec(ls: Seq<Seq<char>>, off: int) -> int {
    let (cy, cx) = cursor_loc_spec(ls, off);
    if cy < 1 {
        off
    } else {
        off + up_column(ls, off) - cx - ls[cy - 1].len()
    }
}

/// `a - b`, or 0 when `b` exceeds `a`.
pub open spec fn sat_sub(a: int, b: int) -> int {
    if a > b {
        a - b
    } else {
        0
    }
}

/// The first visible row or column after scrolling so that `cursor` is
/// visible in a window of `size` rows or columns that started at `pos`.
pub open spec fn scroll(pos: int, cursor: int, size: int) -> int {
    let lower = if pos < cursor {
        pos
    } else {
        cursor
    };
    let upper = sat_sub(cursor, size - 1);
    if lower < upper {
        upper
    } else {
        lower
    }
}

/// The smaller of two integers.
pub open spec fn min_int(a: int, b: int) -> int {
    if a < b {
        a
    } else {
        b
    }
}

/// The columns `left .. left + width` of `line`, cut at its end.
pub open spec fn clip(line: Seq<char>, left: int, width: int) -> Seq<char> {
    line.subrange(min_int(left, line.len() as int), min_int(left + width, line.len() as int))
}

/// The rows `top .. top + height` of `ls`, cut at the end, each clipped to
/// the columns `left .. left + width`.
pub open spec fn window_rows(ls: Seq<Seq<char>>, top: int, left: int, width: int, height: int) -> Seq<
    Seq<char>,
> {
    ls.subrange(top, min_int(top + height, ls.len() as int)).map_values(
        |line: Seq<char>| clip(line, left, width),
    )
}

/// How a character is coloured in the editor.
#[derive(PartialEq, Eq, Structural, Clone, Copy, Debug)]
pub enum Highlight {
    /// `[` and `]`
    Loop,
    /// `,` and `.`
    Io,
    /// `+` and `-`
    Arithmetic,
    /// `<` and `>`
    Movement,
    /// everything else
    Plain,
}

/// The colour class of `c`.
pub open spec fn highlight_of(c: char) -> Highlight {
    if c == '[' || c == ']' {
        Highlight::Loop
    } else if c == ',' || c == '.' {
        Highlight::Io
    } else if c == '+' || c == '-' {
        Highlight::Arithmetic
    } else if c == '<' || c == '>' {
        Highlight::Movement
    } else {
        Highlight::Plain
    }
}

/// The colour class the editor gives a character.
pub fn highlight(c: char) -> (h: Highlight)
    ensures
        h == highlight_of(c),
{
    if c == '[' || c == ']' {
        Highlight::Loop
    } else if c == ',' || c == '.' {
        Highlight::Io
    } else if c == '+' || c == '-' {
        Highlight::Arithmetic
    } else if c == '<' || c == '>' {
        Highlight::Movement
    } else {
        Highlight::Plain
    }
}

/// The display lines closed so far all hold a character.
proof fn lemma_display_nonempty(s: Seq<char>, n: int)
    ensures
        all_nonempty(display_prefix(s, n).0),
    decreases n,
{
    if n > 0 {
        lemma_display_nonempty(s, n - 1);
    }
}

/// Where `loc_from` lands: (0, 0), or a column inside a line at or after `k`,
/// with the lines skipped over (the one just before included) accounting for the rest of `off`.
proof fn lemma_loc_bounds(ls: Seq<Seq<char>>, k: int, off: int)
    requires
        0 <= k,
        0 <= off,
    ensures
        ({
            let (cy, cx) = loc_from(ls, k, off);
            ||| cy == 0 && cx == 0
            ||| {
                &&& k <= cy < ls.len()
                &&& 0 <= cx < ls[cy].len()
                &&& cx <= off
                &&& cy > k ==> off - cx >= ls[cy - 1].len()
            }
        }),
    decreases ls.len() - k,
{
    if k < ls.len() && ls[k].len() <= off {
        lemma_loc_bounds(ls, k + 1, off - ls[k].len());
    }
}

/// Display lines of a program, kept ready for drawing the editor.
pub struct CodeVisualisation {
    lines: Vec<Vec<char>>,
}

impl View for CodeVisualisation {
    type V = Seq<Seq<char>>;

    closed spec fn view(&self) -> Seq<Seq<char>> {
        self.lines.deep_view()
    }
}

impl CodeVisualisation {
    #[verifier::type_invariant]
    spec fn lines_nonempty(self) -> bool {
        all_nonempty(self.lines.deep_view())
    }

    /// No lines yet.
    pub fn new() -> (cv: Self)
        ensures
            cv@ == Seq::<Seq<char>>::empty(),
    {
        let cv = CodeVisualisation { lines: Vec::new() };
        assert(cv.lines.deep_view() =~= Seq::<Seq<char>>::empty());
        cv
    }

    /// Lays out `code` as display lines (see [`display_lines`]) and returns them.
    pub fn indent(&mut self, code: &Vec<char>) -> (lines: &Vec<Vec<char>>)
        requires
            indentable(code@),
        ensures
            final(self)@ == display_lines(code@),
            lines.deep_view() == display_lines(code@),
    {
        let ghost s = code@;
        let mut lines: Vec<Vec<char>> = Vec::new();
        let mut dept: usize = 0;
        let mut line: Vec<char> = Vec::new();
        let mut i: usize = 0;
        while i < code.len()
            invariant
                s == code@,
                indentable(s),
                i <= s.len(),
                dept == depth(s, i as int),
                lines.deep_view() == display_prefix(s, i as int).0,
                line@ == display_prefix(s, i as int).1,
            decreases s.len() - i,
        {
            let c = code[i];
            let ghost done = lines.deep_view();
            let ghost cur = line@;
            proof {
                lemma_depth_step(s, i as int);
                assert(0 <= depth(s, i + 1) && 2 * depth(s, i + 1) <= usize::MAX);
            }
            if c == '[' {
                dept = dept + 1;
                line.push(c);
                line.push(' ');
                let ghost lv = line@;
                assert(line.deep_view() =~= lv);
                lines.push(line);
                assert(lines.deep_view() =~= done.push(lv));
                line = Vec::new();
                push_spaces(&mut line, 2 * dept);
            } else if c == '\n' {
                line.push(' ');
                let ghost lv = line@;
                assert(line.deep_view() =~= lv);
                lines.push(line);
                assert(lines.deep_view() =~= done.push(lv));
                line = Vec::new();
                push_spaces(&mut line, 2 * dept);
            } else if c == ']' {
                line.push(' ');
                let ghost lv = line@;
                assert(line.deep_view() =~= lv);
                lines.push(line);
                assert(lines.deep_view() =~= done.push(lv));
                let ghost mid = lines.deep_view();
                dept = dept - 1;
                line = Vec::new();
                push_spaces(&mut line, 2 * dept);
                line.push(c);
                line.push(' ');
                let ghost lv2 = line@;
                assert(line.deep_view() =~= lv2);
                lines.push(line);
                assert(lines.deep_view() =~= mid.push(lv2));
                line = Vec::new();
                push_spaces(&mut line, 2 * dept);
            } else {
                line.push(c);
            }
            i = i + 1;
        }
        proof {
            lemma_display_nonempty(s, s.len() as int);
        }
        self.lines = lines;
        &self.lines
    }

    /// The (line, column) of character offset `off`; (0, 0) past the last line.
    pub fn cursor_loc(&self, off: usize) -> (loc: (usize, usize))
        ensures
            (loc.0 as int, loc.1 as int) == cursor_loc_spec(self@, off as int),
    {
        let ghost ls = self@;
        let mut rest = off;
        let mut i: usize = 0;
        while i < self.lines.len()
            invariant
                ls == self.lines.deep_view(),
                i <= ls.len(),
                loc_from(ls, i as int, rest as int) == cursor_loc_spec(ls, off as int),
            decreases ls.len() - i,
        {
            assert(self.lines[i as int].deep_view().len() == self.lines[i as int]@.len());
            if self.lines[i].len() > rest {
                return (i, rest);
            }
            rest = rest - self.lines[i].len();
            i = i + 1;
        }
        (0, 0)
    }

    /// The pieces of the move one line down from `off`: `None` on the last
    /// line, otherwise the start of the cursor's line, that line's length
    /// and the column reached on the line below, which add up to the new offset.
    fn down_parts(&self, off: usize) -> (parts: Option<(usize, usize, usize)>)
        ensures
            match parts {
                None => cursor_down_spec(self@, off as int) == off,
                Some((start, here, col)) => cursor_down_spec(self@, off as int) == start + here + col,
            },
    {
        proof {
            use_type_invariant(self);
            lemma_loc_bounds(self@, 0, off as int);
        }
        let (cy, cx) = self.cursor_loc(off);
        let n = self.lines.len();
        assert(self@.len() == n);
        if cy + 1 >= n {
            None
        } else {
            proof {
                assert(self.lines[cy as int].deep_view().len() == self.lines[cy as int]@.len());
                assert(self.lines[cy + 1].deep_view().len() == self.lines[cy + 1]@.len());
                assert(self@[cy + 1].len() > 0);
            }
            let below = self.lines[cy + 1].len() - 1;
            let col = if cx < below {
                cx
            } else {
                below
            };
            Some((off - cx, self.lines[cy].len(), col))
        }
    }

    /// The pieces of the move one line up from `off`: `None` on the first
    /// line, otherwise the cursor's column, the column reached on the line
    /// above and that line's length.
    fn up_parts(&self, off: usize) -> (parts: Option<(usize, usize, usize)>)
        ensures
            match parts {
                None => cursor_loc_spec(self@, off as int).0 < 1,
                Some((cx, col, above)) => {
                    &&& cursor_loc_spec(self@, off as int).0 >= 1
                    &&& cx == cursor_loc_spec(self@, off as int).1
                    &&& col == up_column(self@, off as int)
                    &&& col <= cx
                    &&& cursor_up_spec(self@, off as int) == off + col - cx - above
                    &&& off - cx >= above
                },
            },
    {
        proof {
            use_type_invariant(self);
            lemma_loc_bounds(self@, 0, off as int);
        }
        let (cy, cx) = self.cursor_loc(off);
        if cy < 1 {
            None
        } else {
            proof {
                assert(self.lines[cy - 1].deep_view().len() == self.lines[cy - 1]@.len());
                assert(self@[cy - 1].len() > 0);
            }
            let above = self.lines[cy - 1].len();
            let col = if cx < above - 1 {
                cx
            } else {
                above - 1
            };
            Some((cx, col, above))
        }
    }

    /// The offset one line down (see [`cursor_down_spec`]).
    pub fn cursor_down(&self, off: usize) -> (r: usize)
        requires
            cursor_down_spec(self@, off as int) <= usize::MAX,
        ensures
            r == cursor_down_spec(self@, off as int),
    {
        match self.down_parts(off) {
            None => off,
            Some((start, here, col)) => start + here + col,
        }
    }

    /// Whether the offset one line down from `off` fits in a `usize`.
    pub fn cursor_down_fits(&self, off: usize) -> (ok: bool)
        ensures
            ok == (cursor_down_spec(self@, off as int) <= usize::MAX),
    {
        match self.down_parts(off) {
            None => true,
            Some((start, here, col)) => here <= usize::MAX - start && col <= usize::MAX - start - here,
        }
    }

    /// Whether the arithmetic of moving one line up from `off` stays within a `usize`.
    pub fn cursor_up_fits(&self, off: usize) -> (ok: bool)
        ensures
            ok == (cursor_loc_spec(self@, off as int).0 >= 1 ==> off + up_column(self@, off as int)
                <= usize::MAX),
    {
        match self.up_parts(off) {
            None => true,
            Some((_cx, col, _above)) => col <= usize::MAX - off,
        }
    }

    /// The offset one line up (see [`cursor_up_spec`]).
    pub fn cursor_up(&self, off: usize) -> (r: usize)
        requires
            cursor_loc_spec(self@, off as int).0 >= 1 ==> off + up_column(self@, off as int)
                <= usize::MAX,
        ensures
            r == cursor_up_spec(self@, off as int),
    {
        match self.up_parts(off) {
            None => off,
            Some((cx, col, above)) => off + col - cx - above,
        }
    }

    /// Scrolls the window whose top-left corner is `*displayed_code_pos`
    /// (column, row) so that the cursor at offset `off` is inside a window of
    /// `width` columns and `height` rows, and returns the visible part of
    /// every visible line together with the cursor's (column, row).
    pub fn render(
        &self,
        width: usize,
        height: usize,
        off: usize,
        displayed_code_pos: &mut (usize, usize),
    ) -> (out: (Vec<Vec<char>>, (usize, usize)))
        requires
            width >= 1,
            height >= 1,
            scroll(old(displayed_code_pos).0 as int, cursor_loc_spec(self@, off as int).1, width as int)
                + width <= usize::MAX,
            scroll(old(displayed_code_pos).1 as int, cursor_loc_spec(self@, off as int).0, height as int)
                + height <= usize::MAX,
        ensures
            ({
                let (cy, cx) = cursor_loc_spec(self@, off as int);
                let left = scroll(old(displayed_code_pos).0 as int, cx, width as int);
                let top = scroll(old(displayed_code_pos).1 as int, cy, height as int);
                &&& final(displayed_code_pos).0 == left
                &&& final(displayed_code_pos).1 == top
                &&& out.0.deep_view() == window_rows(self@, top, left, width as int, height as int)
                &&& out.1.0 == cx
                &&& out.1.1 == cy
            }),
    {
        proof {
            lemma_loc_bounds(self@, 0, off as int);
        }
        let ghost ls = self@;
        let (cy, cx) = self.cursor_loc(off);
        let left_low = if displayed_code_pos.0 < cx {
            displayed_code_pos.0
        } else {
            cx
        };
        let left = if left_low < cx.saturating_sub(width - 1) {
            cx.saturating_sub(width - 1)
        } else {
            left_low
        };
        let top_low = if displayed_code_pos.1 < cy {
            displayed_code_pos.1
        } else {
            cy
        };
        let top = if top_low < cy.saturating_sub(height - 1) {
            cy.saturating_sub(height - 1)
        } else {
            top_low
        };
        *displayed_code_pos = (left, top);
        let n = self.lines.len();
        let start = if top < n {
            top
        } else {
            n
        };
        let end = if start + height < n {
            start + height
        } else {
            n
        };
        assert(top <= end);
        let mut rows: Vec<Vec<char>> = Vec::new();
        let mut r = top;
        while r < end
            invariant
                ls == self.lines.deep_view(),
                n == ls.len(),
                top <= r <= end <= n,
                left + width <= usize::MAX,
                end == min_int(top + height, n as int),
                rows.deep_view() == window_rows(ls, top as int, left as int, width as int, height as int).take(
                    r - top,
                ),
            decreases end - r,
        {
            let line = &self.lines[r];
            assert(line.deep_view() == line@);
            let len = line.len();
            let a = if left < len {
                left
            } else {
                len
            };
            let b = if left + width < len {
                left + width
            } else {
                len
            };
            let mut piece: Vec<char> = Vec::new();
            let mut k = a;
            while k < b
                invariant
                    a <= k <= b <= len,
                    len == line@.len(),
                    piece@ == line@.subrange(a as int, k as int),
                decreases b - k,
            {
                piece.push(line[k]);
                k = k + 1;
                assert(piece@ =~= line@.subrange(a as int, k as int));
            }
            let ghost old_rows = rows.deep_view();
            let ghost pv = piece@;
            assert(piece.deep_view() =~= pv);
            assert(pv == clip(ls[r as int], left as int, width as int));
            rows.push(piece);
            assert(rows.deep_view() =~= old_rows.push(pv));
            r = r + 1;
            assert(rows.deep_view() =~= window_rows(ls, top as int, left as int, width as int, height as int).take(
                r - top,
            ));
        }
        assert(window_rows(ls, top as int, left as int, width as int, height as int).take(end - top)
            =~= window_rows(ls, top as int, left as int, width as int, height as int));
        (rows, (cx, cy))
    }
}


/// Feeding one character is one split step.
proof fn lemma_split_one(st: (Seq<Seq<char>>, Seq<char>), x: char)
    ensures
        split_more(st, seq![x]) == split_step(st, x),
{
    assert(seq![x].drop_last() == Seq::<char>::empty());
    assert(split_more(st, Seq::<char>::empty()) == st);
    assert(seq![x].last() == x);
}

/// A run of spaces holds no newline.
proof fn lemma_spaces_no_newline(k: int)
    ensures
        forall|i: int| 0 <= i < spaces(k).len() ==> #[trigger] spaces(k)[i] != '\n',
{
}

/// Display lines and the lines of the indented text agree prefix by prefix,
/// open line included.
proof fn lemma_display_prefix_split(t: Seq<char>, n: int)
    requires
        0 <= n <= t.len(),
    ensures
        display_prefix(t, n) == split_lines(indent_prefix(t, n), indent_prefix(t, n).len() as int),
    decreases n,
{
    if n == 0 {
    } else {
        lemma_display_prefix_split(t, n - 1);
        let p = indent_prefix(t, n - 1);
        let c = t[n - 1];
        let d = depth(t, n - 1);
        let piece = indent_piece(c, d);
        assert(indent_prefix(t, n) == p + piece);
        lemma_split_concat(p, piece);
        let st = display_prefix(t, n - 1);
        let e = Seq::<char>::empty();
        if c == '[' {
            let sp = spaces(2 * (d + 1));
            lemma_spaces_no_newline(2 * (d + 1));
            assert(seq!['[', '\n'] == seq!['['] + seq!['\n']);
            lemma_split_more_concat(st, seq!['[', '\n'], sp);
            lemma_split_more_concat(st, seq!['['], seq!['\n']);
            lemma_split_one(st, '[');
            lemma_split_one(split_step(st, '['), '\n');
            let st2 = split_more(st, seq!['[', '\n']);
            lemma_split_more_no_newline(st2, sp);
            assert(e + sp == sp);
        } else if c == '\n' {
            let sp = spaces(2 * d);
            lemma_spaces_no_newline(2 * d);
            lemma_split_more_concat(st, seq!['\n'], sp);
            lemma_split_one(st, '\n');
            lemma_split_more_no_newline(split_step(st, '\n'), sp);
            assert(e + sp == sp);
        } else if c == ']' {
            let sp = spaces(2 * (d - 1));
            lemma_spaces_no_newline(2 * (d - 1));
            let u1 = seq!['\n'];
            let u3 = seq![']', '\n'];
            assert(u3 == seq![']'] + seq!['\n']);
            lemma_split_more_concat(st, u1 + sp + u3, sp);
            lemma_split_more_concat(st, u1 + sp, u3);
            lemma_split_more_concat(st, u1, sp);
            lemma_split_one(st, '\n');
            let a1 = split_step(st, '\n');
            lemma_split_more_no_newline(a1, sp);
            assert(e + sp == sp);
            let a2 = split_more(a1, sp);
            lemma_split_more_concat(a2, seq![']'], seq!['\n']);
            lemma_split_one(a2, ']');
            lemma_split_one(split_step(a2, ']'), '\n');
            let a3 = split_more(a2, u3);
            lemma_split_more_no_newline(a3, sp);
        } else {
            lemma_split_one(st, c);
        }
    }
}

/// The editor's display lines of a text are the lines of its indented form.
pub proof fn lemma_display_lines_are_indented_lines(t: Seq<char>)
    ensures
        display_lines(t) == text_lines(indented(t)),
{
    lemma_display_prefix_split(t, t.len() as int);
}

/// For a text that cleaning leaves as it is, the editor's display lines are
/// the lines of the program [`crate::code::Code::from_string`] makes of it.
pub proof fn lemma_display_lines_of_clean_text(t: Seq<char>)
    requires
        cleaned(t) == t,
    ensures
        display_lines(t) == text_lines(indented(cleaned(t))),
{
    lemma_display_lines_are_indented_lines(t);
}


/// The number of characters in the lines from `k` on.
pub open spec fn total_len_from(ls: Seq<Seq<char>>, k: int) -> int
    decreases ls.len() - k,
{
    if k < 0 || k >= ls.len() {
        0
    } else {
        ls[k].len() + total_len_from(ls, k + 1)
    }
}

/// An offset inside the lines from `k` on lands on one of them.
proof fn lemma_loc_inside(ls: Seq<Seq<char>>, k: int, off: int)
    requires
        0 <= k,
        0 <= off < total_len_from(ls, k),
    ensures
        ({
            let (cy, cx) = loc_from(ls, k, off);
            k <= cy < ls.len() && 0 <= cx < ls[cy].len() && cx <= off
        }),
    decreases ls.len() - k,
{
    if k < ls.len() && ls[k].len() <= off {
        lemma_loc_inside(ls, k + 1, off - ls[k].len());
    }
}

/// Skipping to the start of the next line and `x` columns on lands there.
proof fn lemma_loc_next_line(ls: Seq<Seq<char>>, k: int, off: int, x: int)
    requires
        0 <= k,
        0 <= off < total_len_from(ls, k),
        loc_from(ls, k, off).0 + 1 < ls.len(),
        0 <= x < ls[loc_from(ls, k, off).0 + 1].len(),
    ensures
        loc_from(ls, k, off - loc_from(ls, k, off).1 + ls[loc_from(ls, k, off).0].len() + x) == (
            loc_from(ls, k, off).0 + 1,
            x,
        ),
    decreases ls.len() - k,
{
    lemma_loc_inside(ls, k, off);
    if ls[k].len() > off {
        assert(loc_from(ls, k + 1, x) == (k + 1, x));
    } else {
        let o2 = off - ls[k].len();
        lemma_loc_inside(ls, k + 1, o2);
        lemma_loc_next_line(ls, k + 1, o2, x);
    }
}

/// Moving the cursor down and then up brings it back, when the column it
/// stood on exists on the line below.
pub proof fn lemma_up_undoes_down(ls: Seq<Seq<char>>, off: int)
    requires
        0 <= off < total_len_from(ls, 0),
        cursor_loc_spec(ls, off).0 + 1 < ls.len(),
        cursor_loc_spec(ls, off).1 < ls[cursor_loc_spec(ls, off).0 + 1].len(),
    ensures
        cursor_up_spec(ls, cursor_down_spec(ls, off)) == off,
{
    let (cy, cx) = cursor_loc_spec(ls, off);
    lemma_loc_inside(ls, 0, off);
    lemma_loc_next_line(ls, 0, off, cx);
    let down = cursor_down_spec(ls, off);
    assert(down == off - cx + ls[cy].len() + cx);
    assert(cursor_loc_spec(ls, down) == (cy + 1, cx));
}


/// Every one of the eight commands is coloured as a command, the two of
/// each pair alike (`[` `]`, `,` `.`, `+` `-`, `<` `>`) and the four pairs
/// apart; every other character is plain.
pub proof fn lemma_highlight_classes(c: char)
    ensures
        highlight_of('[') == Highlight::Loop,
        highlight_of(',') == Highlight::Io,
        highlight_of('+') == Highlight::Arithmetic,
        highlight_of('<') == Highlight::Movement,
        highlight_of('[') == highlight_of(']'),
        highlight_of(',') == highlight_of('.'),
        highlight_of('+') == highlight_of('-'),
        highlight_of('<') == highlight_of('>'),
        highlight_of('[') != highlight_of(','),
        highlight_of('[') != highlight_of('+'),
        highlight_of('[') != highlight_of('<'),
        highlight_of(',') != highlight_of('+'),
        highlight_of(',') != highlight_of('<'),
        highlight_of('+') != highlight_of('<'),
        highlight_of(c) != Highlight::Plain <==> (c == '[' || c == ']' || c == ',' || c == '.' || c
            == '+' || c == '-' || c == '<' || c == '>'),
{
}


/// The number of characters in the lines `k .. j`.
pub open spec fn len_between(ls: Seq<Seq<char>>, k: int, j: int) -> int
    decreases j - k,
{
    if k >= j {
        0
    } else {
        ls[k].len() + len_between(ls, k + 1, j)
    }
}

proof fn lemma_loc_sum(ls: Seq<Seq<char>>, k: int, off: int)
    requires
        0 <= k,
        0 <= off < total_len_from(ls, k),
    ensures
        ({
            let (cy, cx) = loc_from(ls, k, off);
            len_between(ls, k, cy) + cx == off
        }),
    decreases ls.len() - k,
{
    lemma_loc_inside(ls, k, off);
    if ls[k].len() <= off {
        let o2 = off - ls[k].len();
        lemma_loc_sum(ls, k + 1, o2);
        lemma_loc_inside(ls, k + 1, o2);
        let (cy, cx) = loc_from(ls, k + 1, o2);
        assert(loc_from(ls, k, off) == (cy, cx));
        assert(len_between(ls, k, cy) == ls[k].len() + len_between(ls, k + 1, cy));
    } else {
        assert(len_between(ls, k, k) == 0);
    }
}

/// The cursor location names the character at the offset: for an offset
/// inside the lines, the column lies inside the line, and the lengths of
/// the lines before it plus the column give back the offset.
pub proof fn lemma_cursor_loc_is_offset(ls: Seq<Seq<char>>, off: int)
    requires
        0 <= off < total_len_from(ls, 0),
    ensures
        ({
            let (cy, cx) = cursor_loc_spec(ls, off);
            &&& 0 <= cy < ls.len()
            &&& 0 <= cx < ls[cy].len()
            &&& len_between(ls, 0, cy) + cx == off
        }),
{
    lemma_loc_inside(ls, 0, off);
    lemma_loc_sum(ls, 0, off);
}

/// After scrolling, the cursor lies inside the window, and a window that
/// already showed the cursor does not move.
pub proof fn lemma_scroll_shows_cursor(pos: int, cursor: int, size: int)
    requires
        0 <= pos,
        0 <= cursor,
        1 <= size,
    ensures
        scroll(pos, cursor, size) <= cursor < scroll(pos, cursor, size) + size,
        pos <= cursor < pos + size ==> scroll(pos, cursor, size) == pos,
        0 <= scroll(pos, cursor, size),
{
}

} // verus!
