//! The text transformations the editor applies to a program: collapsing
//! blank runs, re-indenting by bracket depth, and splitting into lines.
use vstd::prelude::*;
use crate::brackets::depth;

verus! {

/// The two blank characters the formatter normalises.
pub open spec fn is_blank(c: char) -> bool {
    c == ' ' || c == '\n'
}

/// Whether the run of blanks that ends the first `n` characters of `s`
/// already contains the character `c`.
pub open spec fn run_holds(s: Seq<char>, n: int, c: char) -> bool
    decreases n,
{
    if n <= 0 {
        false
    } else if s[n - 1] == c {
        true
    } else if is_blank(s[n - 1]) {
        run_holds(s, n - 1, c)
    } else {
        false
    }
}

/// The character at `i` repeats a blank already present in the blank run it belongs to.
pub open spec fn is_repeated_blank(s: Seq<char>, i: int) -> bool {
    is_blank(s[i]) && run_holds(s, i, s[i])
}

/// The first `n` characters of `s` with every repeated blank dropped.
pub open spec fn clean_prefix(s: Seq<char>, n: int) -> Seq<char>
    decreases n,
{
    if n <= 0 {
        Seq::empty()
    } else if is_repeated_blank(s, n - 1) {
        clean_prefix(s, n - 1)
    } else {
        clean_prefix(s, n - 1).push(s[n - 1])
    }
}

/// `s` with every run of blanks reduced to at most one space and one newline,
/// each kept at its first occurrence in the run.
pub open spec fn cleaned(s: Seq<char>) -> Seq<char> {
    clean_prefix(s, s.len() as int)
}

/// `n` spaces.
pub open spec fn spaces(n: int) -> Seq<char> {
    Seq::new(n as nat, |i: int| ' ')
}

/// What the indenter writes for character `c` met at nesting depth `d`.
pub open spec fn indent_piece(c: char, d: int) -> Seq<char> {
    if c == '[' {
        seq!['[', '\n'] + spaces(2 * (d + 1))
    } else if c == '\n' {
        seq!['\n'] + spaces(2 * d)
    } else if c == ']' {
        seq!['\n'] + spaces(2 * (d - 1)) + seq![']', '\n'] + spaces(2 * (d - 1))
    } else {
        seq![c]
    }
}

/// The indented form of the first `n` characters of `s`.
pub open spec fn indent_prefix(s: Seq<char>, n: int) -> Seq<char>
    decreases n,
{
    if n <= 0 {
        Seq::empty()
    } else {
        indent_prefix(s, n - 1) + indent_piece(s[n - 1], depth(s, n - 1))
    }
}

/// `s` laid out by nesting depth: a line break after every `[`, around every
/// `]`, and two spaces of indentation per open bracket after every break.
pub open spec fn indented(s: Seq<char>) -> Seq<char> {
    indent_prefix(s, s.len() as int)
}

/// No prefix of `s` closes more brackets than it opened, and twice the depth
/// of every prefix fits in a `usize` (the width of the indentation).
pub open spec fn indentable(s: Seq<char>) -> bool {
    forall|n: int| 0 <= n <= s.len() ==> 0 <= #[trigger] depth(s, n) && 2 * depth(s, n) <= usize::MAX
}

/// The non-blank characters of `s`, in order: the program proper.
pub open spec fn commands(s: Seq<char>) -> Seq<char> {
    s.filter(|c: char| !is_blank(c))
}

/// The lines of the first `n` characters of `s` that a newline has closed,
/// each shown with a space in place of its newline, and the unfinished line after them.
pub open spec fn split_lines(s: Seq<char>, n: int) -> (Seq<Seq<char>>, Seq<char>)
    decreases n,
{
    if n <= 0 {
        (Seq::empty(), Seq::empty())
    } else {
        let (done, cur) = split_lines(s, n - 1);
        if s[n - 1] == '\n' {
            (done.push(cur.push(' ')), Seq::empty())
        } else {
            (done, cur.push(s[n - 1]))
        }
    }
}

/// The newline-terminated lines of `s`, each ending in a space; text after
/// the last newline is not a line.
pub open spec fn text_lines(s: Seq<char>) -> Seq<Seq<char>> {
    split_lines(s, s.len() as int).0
}

/// Appending a character leaves the depth of every old prefix unchanged.
pub proof fn lemma_depth_push(t: Seq<char>, c: char, k: int)
    requires
        0 <= k <= t.len(),
    ensures
        depth(t.push(c), k) == depth(t, k),
    decreases k,
{
    if k > 0 {
        lemma_depth_push(t, c, k - 1);
        assert(t.push(c)[k - 1] == t[k - 1]);
    }
}

/// Every depth reached by a prefix of the cleaned text is reached by a prefix
/// of the raw text, and both texts end at the same depth.
pub proof fn lemma_clean_depths(s: Seq<char>, n: int)
    requires
        0 <= n <= s.len(),
    ensures
        depth(clean_prefix(s, n), clean_prefix(s, n).len() as int) == depth(s, n),
        forall|k: int|
            0 <= k <= clean_prefix(s, n).len() ==> exists|m: int|
                0 <= m <= n && #[trigger] depth(clean_prefix(s, n), k) == depth(s, m),
    decreases n,
{
    if n > 0 {
        lemma_clean_depths(s, n - 1);
        let p = clean_prefix(s, n - 1);
        let q = clean_prefix(s, n);
        if is_repeated_blank(s, n - 1) {
            assert(q == p);
            assert forall|k: int| 0 <= k <= q.len() implies exists|m: int|
                0 <= m <= n && #[trigger] depth(q, k) == depth(s, m) by {
                let m = choose|m: int| 0 <= m <= n - 1 && #[trigger] depth(p, k) == depth(s, m);
                assert(0 <= m <= n && depth(q, k) == depth(s, m));
            }
        } else {
            let c = s[n - 1];
            assert(q == p.push(c));
            lemma_depth_push(p, c, p.len() as int);
            assert(q[p.len() as int] == c);
            assert(depth(q, q.len() as int) == depth(s, n));
            assert forall|k: int| 0 <= k <= q.len() implies exists|m: int|
                0 <= m <= n && #[trigger] depth(q, k) == depth(s, m) by {
                if k == q.len() {
                    assert(depth(q, k) == depth(s, n));
                } else {
                    lemma_depth_push(p, c, k);
                    let m = choose|m: int| 0 <= m <= n - 1 && #[trigger] depth(p, k) == depth(s, m);
                    assert(0 <= m <= n && depth(q, k) == depth(s, m));
                }
            }
        }
    }
}

/// Cleaning keeps a text indentable.
pub proof fn lemma_cleaned_indentable(s: Seq<char>)
    requires
        indentable(s),
    ensures
        indentable(cleaned(s)),
{
    lemma_clean_depths(s, s.len() as int);
    let t = cleaned(s);
    assert forall|k: int| 0 <= k <= t.len() implies 0 <= #[trigger] depth(t, k) && 2 * depth(t, k)
        <= usize::MAX by {
        let m = choose|m: int| 0 <= m <= s.len() && #[trigger] depth(t, k) == depth(s, m);
        assert(0 <= depth(s, m));
    }
}


/// Blank characters are no commands.
pub proof fn lemma_commands_push(s: Seq<char>, c: char)
    ensures
        commands(s.push(c)) == if is_blank(c) {
            commands(s)
        } else {
            commands(s).push(c)
        },
{
    s.lemma_filter_push(c, |c: char| !is_blank(c));
}

/// A run of spaces holds no command.
pub proof fn lemma_commands_spaces(n: int)
    requires
        0 <= n,
    ensures
        commands(spaces(n)) == Seq::<char>::empty(),
    decreases n,
{
    if n > 0 {
        lemma_commands_spaces(n - 1);
        assert(spaces(n) == spaces(n - 1).push(' '));
        lemma_commands_push(spaces(n - 1), ' ');
    } else {
        assert(spaces(n) == Seq::<char>::empty());
        reveal(Seq::filter);
    }
}

/// The commands of a concatenation.
pub proof fn lemma_commands_add(a: Seq<char>, b: Seq<char>)
    ensures
        commands(a + b) == commands(a) + commands(b),
{
    Seq::filter_distributes_over_add(a, b, |c: char| !is_blank(c));
}

/// The piece the indenter writes for `c` carries exactly the command `c`, if `c` is one.
pub proof fn lemma_commands_piece(c: char, d: int)
    requires
        0 <= d,
        c == ']' ==> 1 <= d,
    ensures
        commands(indent_piece(c, d)) == if is_blank(c) {
            Seq::<char>::empty()
        } else {
            seq![c]
        },
{
    let e = Seq::<char>::empty();
    lemma_commands_push(e, '[');
    lemma_commands_push(e.push('['), '\n');
    lemma_commands_push(e, '\n');
    lemma_commands_push(e, ']');
    lemma_commands_push(e.push(']'), '\n');
    lemma_commands_push(e, c);
    reveal(Seq::filter);
    assert(commands(e) == e);
    assert(seq!['[', '\n'] == e.push('[').push('\n'));
    assert(seq![']', '\n'] == e.push(']').push('\n'));
    assert(seq!['\n'] == e.push('\n'));
    assert(seq![c] == e.push(c));
    if c == '[' {
        lemma_commands_spaces(2 * (d + 1));
        lemma_commands_add(seq!['[', '\n'], spaces(2 * (d + 1)));
    } else if c == '\n' {
        lemma_commands_spaces(2 * d);
        lemma_commands_add(seq!['\n'], spaces(2 * d));
    } else if c == ']' {
        let sp = spaces(2 * (d - 1));
        lemma_commands_spaces(2 * (d - 1));
        lemma_commands_add(seq!['\n'], sp);
        lemma_commands_add(seq!['\n'] + sp, seq![']', '\n']);
        lemma_commands_add(seq!['\n'] + sp + seq![']', '\n'], sp);
        assert(e + e == e);
        assert(e + seq![']'] == seq![']']);
        assert(seq![']'] + e == seq![']']);
    }
}

/// Cleaning the first `n` characters drops only blanks.
pub proof fn lemma_clean_commands(s: Seq<char>, n: int)
    requires
        0 <= n <= s.len(),
    ensures
        commands(clean_prefix(s, n)) == commands(s.take(n)),
    decreases n,
{
    if n == 0 {
        assert(s.take(0) == Seq::<char>::empty());
    } else {
        lemma_clean_commands(s, n - 1);
        assert(s.take(n) == s.take(n - 1).push(s[n - 1]));
        lemma_commands_push(s.take(n - 1), s[n - 1]);
        if !is_repeated_blank(s, n - 1) {
            lemma_commands_push(clean_prefix(s, n - 1), s[n - 1]);
        }
    }
}

/// Indenting the first `n` characters adds only blanks.
pub proof fn lemma_indent_commands(s: Seq<char>, n: int)
    requires
        0 <= n <= s.len(),
        indentable(s),
    ensures
        commands(indent_prefix(s, n)) == commands(s.take(n)),
    decreases n,
{
    if n == 0 {
        assert(s.take(0) == Seq::<char>::empty());
    } else {
        lemma_indent_commands(s, n - 1);
        let c = s[n - 1];
        let d = depth(s, n - 1);
        assert(0 <= depth(s, n - 1));
        assert(0 <= depth(s, n));
        lemma_commands_piece(c, d);
        lemma_commands_add(indent_prefix(s, n - 1), indent_piece(c, d));
        assert(s.take(n) == s.take(n - 1).push(c));
        lemma_commands_push(s.take(n - 1), c);
        if !is_blank(c) {
            assert(commands(s.take(n - 1)) + seq![c] == commands(s.take(n - 1)).push(c));
        } else {
            assert(commands(s.take(n - 1)) + Seq::<char>::empty() == commands(s.take(n - 1)));
        }
    }
}

/// Reformatting changes only blanks: the cleaned, re-indented text holds
/// the same commands, in the same order, as the text it came from.
pub proof fn lemma_reformat_keeps_commands(s: Seq<char>)
    requires
        indentable(s),
    ensures
        commands(indented(cleaned(s))) == commands(s),
{
    lemma_clean_commands(s, s.len() as int);
    assert(s.take(s.len() as int) == s);
    lemma_cleaned_indentable(s);
    let t = cleaned(s);
    lemma_indent_commands(t, t.len() as int);
    assert(t.take(t.len() as int) == t);
}

/// Appends `n` spaces.
pub(crate) fn push_spaces(out: &mut Vec<char>, n: usize)
    ensures
        final(out)@ == old(out)@ + spaces(n as int),
{
    let mut k: usize = 0;
    while k < n
        invariant
            k <= n,
            out@ == old(out)@ + spaces(k as int),
        decreases n - k,
    {
        out.push(' ');
        k = k + 1;
        assert(spaces(k as int) == spaces((k - 1) as int).push(' '));
    }
}


/// Appending a character leaves the blank runs of every old prefix unchanged.
pub proof fn lemma_run_holds_push(a: Seq<char>, y: char, k: int, c: char)
    requires
        0 <= k <= a.len(),
    ensures
        run_holds(a.push(y), k, c) == run_holds(a, k, c),
    decreases k,
{
    if k > 0 {
        lemma_run_holds_push(a, y, k - 1, c);
        assert(a.push(y)[k - 1] == a[k - 1]);
    }
}

/// The cleaned prefix ends in the same blank run as the raw prefix, as far
/// as spaces and newlines go, and holds no repeated blank.
proof fn lemma_clean_prefix_runs(s: Seq<char>, n: int)
    requires
        0 <= n <= s.len(),
    ensures
        run_holds(clean_prefix(s, n), clean_prefix(s, n).len() as int, ' ') == run_holds(s, n, ' '),
        run_holds(clean_prefix(s, n), clean_prefix(s, n).len() as int, '\n') == run_holds(s, n, '\n'),
        forall|i: int|
            0 <= i < clean_prefix(s, n).len() ==> !#[trigger] is_repeated_blank(clean_prefix(s, n), i),
    decreases n,
{
    if n > 0 {
        lemma_clean_prefix_runs(s, n - 1);
        let p = clean_prefix(s, n - 1);
        let x = s[n - 1];
        if !is_repeated_blank(s, n - 1) {
            let q = p.push(x);
            let m = p.len() as int;
            assert(q[m] == x);
            lemma_run_holds_push(p, x, m, ' ');
            lemma_run_holds_push(p, x, m, '\n');
            lemma_run_holds_push(p, x, m, x);
            assert forall|i: int| 0 <= i < q.len() implies !#[trigger] is_repeated_blank(q, i) by {
                if i < m {
                    assert(q[i] == p[i]);
                    lemma_run_holds_push(p, x, i, p[i]);
                    assert(!is_repeated_blank(p, i));
                }
            }
        }
    }
}

/// A text without repeated blanks is left as it is by cleaning, prefix by prefix.
proof fn lemma_clean_prefix_of_clean(t: Seq<char>, n: int)
    requires
        0 <= n <= t.len(),
        forall|i: int| 0 <= i < t.len() ==> !#[trigger] is_repeated_blank(t, i),
    ensures
        clean_prefix(t, n) == t.take(n),
    decreases n,
{
    if n > 0 {
        lemma_clean_prefix_of_clean(t, n - 1);
        assert(!is_repeated_blank(t, n - 1));
        assert(t.take(n) == t.take(n - 1).push(t[n - 1]));
    } else {
        assert(t.take(0) == Seq::<char>::empty());
    }
}

/// Cleaning is idempotent: a cleaned text has no blank left to drop.
pub proof fn lemma_clean_idempotent(s: Seq<char>)
    ensures
        cleaned(cleaned(s)) == cleaned(s),
{
    let t = cleaned(s);
    lemma_clean_prefix_runs(s, s.len() as int);
    lemma_clean_prefix_of_clean(t, t.len() as int);
    assert(t.take(t.len() as int) == t);
}


/// The effect of one more character on the (closed lines, open line) split.
pub open spec fn split_step(st: (Seq<Seq<char>>, Seq<char>), c: char) -> (Seq<Seq<char>>, Seq<char>) {
    if c == '\n' {
        (st.0.push(st.1.push(' ')), Seq::empty())
    } else {
        (st.0, st.1.push(c))
    }
}

/// The split after feeding the characters of `b`, one by one, to `st`.
pub open spec fn split_more(st: (Seq<Seq<char>>, Seq<char>), b: Seq<char>) -> (Seq<Seq<char>>, Seq<char>)
    decreases b.len(),
{
    if b.len() == 0 {
        st
    } else {
        split_step(split_more(st, b.drop_last()), b.last())
    }
}

/// Appending a character leaves the split of every old prefix unchanged.
proof fn lemma_split_push(a: Seq<char>, y: char, k: int)
    requires
        0 <= k <= a.len(),
    ensures
        split_lines(a.push(y), k) == split_lines(a, k),
    decreases k,
{
    if k > 0 {
        lemma_split_push(a, y, k - 1);
        assert(a.push(y)[k - 1] == a[k - 1]);
    }
}

/// Splitting `a + b` is splitting `a` and then feeding `b`.
pub proof fn lemma_split_concat(a: Seq<char>, b: Seq<char>)
    ensures
        split_lines(a + b, (a.len() + b.len()) as int) == split_more(split_lines(a, a.len() as int), b),
    decreases b.len(),
{
    if b.len() == 0 {
        assert(a + b == a);
    } else {
        let b0 = b.drop_last();
        lemma_split_concat(a, b0);
        assert(a + b == (a + b0).push(b.last()));
        lemma_split_push(a + b0, b.last(), (a.len() + b0.len()) as int);
        assert((a + b)[(a.len() + b.len() - 1) as int] == b.last());
    }
}

/// Feeding `u + v` is feeding `u` and then `v`.
pub proof fn lemma_split_more_concat(st: (Seq<Seq<char>>, Seq<char>), u: Seq<char>, v: Seq<char>)
    ensures
        split_more(st, u + v) == split_more(split_more(st, u), v),
    decreases v.len(),
{
    if v.len() == 0 {
        assert(u + v == u);
    } else {
        lemma_split_more_concat(st, u, v.drop_last());
        assert((u + v).drop_last() == u + v.drop_last());
        assert((u + v).last() == v.last());
    }
}

/// Feeding characters that hold no newline only extends the open line.
pub proof fn lemma_split_more_no_newline(st: (Seq<Seq<char>>, Seq<char>), w: Seq<char>)
    requires
        forall|i: int| 0 <= i < w.len() ==> #[trigger] w[i] != '\n',
    ensures
        split_more(st, w) == (st.0, st.1 + w),
    decreases w.len(),
{
    if w.len() == 0 {
        assert(st.1 + w == st.1);
    } else {
        let w0 = w.drop_last();
        assert forall|i: int| 0 <= i < w0.len() implies #[trigger] w0[i] != '\n' by {
            assert(w0[i] == w[i]);
        }
        lemma_split_more_no_newline(st, w0);
        assert(w.last() == w[w.len() - 1]);
        assert((st.1 + w0).push(w.last()) == st.1 + w);
    }
}


/// Indenting more of the text only appends to what was written before.
pub proof fn lemma_indent_prefix_extends(s: Seq<char>, i: int, n: int)
    requires
        0 <= i <= n,
    ensures
        indent_prefix(s, i).len() <= indent_prefix(s, n).len(),
        forall|k: int|
            0 <= k < indent_prefix(s, i).len() ==> #[trigger] indent_prefix(s, n)[k] == indent_prefix(s, i)[k],
    decreases n - i,
{
    if i < n {
        lemma_indent_prefix_extends(s, i, n - 1);
        let p = indent_prefix(s, n - 1);
        let q = indent_prefix(s, n);
        assert(q == p + indent_piece(s[n - 1], depth(s, n - 1)));
        assert forall|k: int| 0 <= k < indent_prefix(s, i).len() implies #[trigger] q[k]
            == indent_prefix(s, i)[k] by {
            assert(q[k] == p[k]);
        }
    }
}

/// Every newline of the program keeps its line break, and the line after it
/// starts with two spaces for every loop open at that point: in the
/// reformatted text, the newline written for the `i`-th character of the
/// cleaned text is followed by `2 * d` spaces, `d` being the number of `[`
/// before it minus the number of `]`.
pub proof fn lemma_newline_indents(s: Seq<char>, i: int)
    requires
        indentable(s),
        0 <= i < cleaned(s).len(),
        cleaned(s)[i] == '\n',
    ensures
        ({
            let t = cleaned(s);
            let out = indented(t);
            let o = indent_prefix(t, i).len() as int;
            let d = depth(t, i);
            &&& 0 <= d
            &&& o + 1 + 2 * d <= out.len()
            &&& out[o] == '\n'
            &&& forall|k: int| 1 <= k <= 2 * d ==> #[trigger] out[o + k] == ' '
        }),
{
    let t = cleaned(s);
    lemma_cleaned_indentable(s);
    assert(0 <= depth(t, i));
    let d = depth(t, i);
    let p = indent_prefix(t, i);
    let q = indent_prefix(t, i + 1);
    let piece = indent_piece('\n', d);
    assert(q == p + piece);
    assert(piece.len() == 1 + 2 * d);
    lemma_indent_prefix_extends(t, i + 1, t.len() as int);
    let out = indented(t);
    let o = p.len() as int;
    assert(out[o] == q[o]);
    assert(q[o] == piece[0]);
    assert forall|k: int| 1 <= k <= 2 * d implies #[trigger] out[o + k] == ' ' by {
        assert(out[o + k] == q[o + k]);
        assert(q[o + k] == piece[k]);
        assert(piece[k] == spaces(2 * d)[k - 1]);
    }
}


/// What is written for the `i`-th character stands in the whole indented
/// text right after what is written for the characters before it.
proof fn lemma_piece_in_output(t: Seq<char>, i: int)
    requires
        0 <= i < t.len(),
    ensures
        ({
            let o = indent_prefix(t, i).len() as int;
            let piece = indent_piece(t[i], depth(t, i));
            &&& o + piece.len() <= indented(t).len()
            &&& forall|k: int| 0 <= k < piece.len() ==> indented(t)[o + k] == #[trigger] piece[k]
        }),
{
    let p = indent_prefix(t, i);
    let piece = indent_piece(t[i], depth(t, i));
    let q = indent_prefix(t, i + 1);
    assert(q == p + piece);
    lemma_indent_prefix_extends(t, i + 1, t.len() as int);
    assert forall|k: int| 0 <= k < piece.len() implies indented(t)[p.len() + k] == #[trigger] piece[k] by {
        assert(indented(t)[p.len() + k] == q[p.len() + k]);
    }
}

/// Loops are laid out one level deeper: in the reformatted text, a `[`
/// found at depth `d` is followed by a line break and `2 * (d + 1)` spaces;
/// a `]` found at depth `d` stands alone on its own line, indented by
/// `2 * (d - 1)` spaces, and the line after it is indented the same way.
pub proof fn lemma_brackets_indent(s: Seq<char>, i: int)
    requires
        indentable(s),
        0 <= i < cleaned(s).len(),
        cleaned(s)[i] == '[' || cleaned(s)[i] == ']',
    ensures
        ({
            let t = cleaned(s);
            let out = indented(t);
            let o = indent_prefix(t, i).len() as int;
            let d = depth(t, i);
            &&& t[i] == '[' ==> {
                &&& 0 <= d
                &&& o + 2 + 2 * (d + 1) <= out.len()
                &&& out[o] == '[' && out[o + 1] == '\n'
                &&& forall|k: int| 2 <= k < 2 + 2 * (d + 1) ==> #[trigger] out[o + k] == ' '
            }
            &&& t[i] == ']' ==> {
                let w = 2 * (d - 1);
                &&& 1 <= d
                &&& o + 3 + 2 * w <= out.len()
                &&& out[o] == '\n'
                &&& (forall|k: int| 1 <= k <= w ==> #[trigger] out[o + k] == ' ')
                &&& out[o + w + 1] == ']' && out[o + w + 2] == '\n'
                &&& forall|k: int| w + 3 <= k < w + 3 + w ==> #[trigger] out[o + k] == ' '
            }
        }),
{
    let t = cleaned(s);
    lemma_cleaned_indentable(s);
    assert(0 <= depth(t, i) && 0 <= depth(t, i + 1));
    let d = depth(t, i);
    lemma_piece_in_output(t, i);
    let o = indent_prefix(t, i).len() as int;
    let out = indented(t);
    let piece = indent_piece(t[i], d);
    if t[i] == '[' {
        assert(out[o] == piece[0]);
        assert(out[o + 1] == piece[1]);
        assert forall|k: int| 2 <= k < 2 + 2 * (d + 1) implies #[trigger] out[o + k] == ' ' by {
            assert(out[o + k] == piece[k]);
        }
    } else {
        let w = 2 * (d - 1);
        assert(out[o] == piece[0]);
        assert forall|k: int| 1 <= k <= w implies #[trigger] out[o + k] == ' ' by {
            assert(out[o + k] == piece[k]);
        }
        assert(out[o + w + 1] == piece[w + 1]);
        assert(out[o + w + 2] == piece[w + 2]);
        assert forall|k: int| w + 3 <= k < w + 3 + w implies #[trigger] out[o + k] == ' ' by {
            assert(out[o + k] == piece[k]);
        }
    }
}


/// A blank `c` followed by nothing but blanks is still in the run.
proof fn lemma_run_holds_from(t: Seq<char>, i: int, j: int, c: char)
    requires
        0 <= i < j <= t.len(),
        t[i] == c,
        forall|k: int| i < k < j ==> is_blank(#[trigger] t[k]),
    ensures
        run_holds(t, j, c),
    decreases j,
{
    if j - 1 > i && t[j - 1] != c {
        lemma_run_holds_from(t, i, j - 1, c);
    }
}

/// A blank run holding `c` has an occurrence of `c` followed by nothing but blanks.
proof fn lemma_run_holds_witness(t: Seq<char>, j: int, c: char)
    requires
        0 <= j <= t.len(),
        run_holds(t, j, c),
    ensures
        exists|i: int|
            0 <= i < j && #[trigger] t[i] == c && forall|k: int| i < k < j ==> is_blank(#[trigger] t[k]),
    decreases j,
{
    if t[j - 1] == c {
        assert(t[j - 1] == c && forall|k: int| j - 1 < k < j ==> is_blank(#[trigger] t[k]));
    } else {
        lemma_run_holds_witness(t, j - 1, c);
        let i = choose|i: int|
            0 <= i < j - 1 && #[trigger] t[i] == c && forall|k: int| i < k < j - 1 ==> is_blank(#[trigger] t[k]);
        assert(forall|k: int| i < k < j ==> is_blank(#[trigger] t[k]));
    }
}

/// `s` has no blank that repeats an equal blank with only blanks between them.
pub open spec fn no_blank_repeats(s: Seq<char>) -> bool {
    forall|i: int, j: int|
        0 <= i < j < s.len() && #[trigger] s[i] == #[trigger] s[j] && is_blank(s[i]) ==> exists|k: int|
            i < k < j && !is_blank(#[trigger] s[k])
}

/// After cleaning, no two spaces and no two newlines remain with nothing
/// but blanks between them.
pub proof fn lemma_cleaned_has_no_blank_repeats(s: Seq<char>)
    ensures
        no_blank_repeats(cleaned(s)),
{
    let t = cleaned(s);
    lemma_clean_prefix_runs(s, s.len() as int);
    assert forall|i: int, j: int|
        0 <= i < j < t.len() && #[trigger] t[i] == #[trigger] t[j] && is_blank(t[i]) implies exists|k: int|
        i < k < j && !is_blank(#[trigger] t[k]) by {
        if forall|k: int| i < k < j ==> is_blank(#[trigger] t[k]) {
            lemma_run_holds_from(t, i, j, t[j]);
            assert(is_repeated_blank(t, j));
        }
    }
}

/// Cleaning leaves a text without such repeats exactly as it is: only
/// repeated blanks are ever dropped.
pub proof fn lemma_clean_keeps_clean_text(s: Seq<char>)
    requires
        no_blank_repeats(s),
    ensures
        cleaned(s) == s,
{
    assert forall|j: int| 0 <= j < s.len() implies !#[trigger] is_repeated_blank(s, j) by {
        if is_repeated_blank(s, j) {
            lemma_run_holds_witness(s, j, s[j]);
            let i = choose|i: int|
                0 <= i < j && #[trigger] s[i] == s[j] && forall|k: int| i < k < j ==> is_blank(#[trigger] s[k]);
            assert(s[i] == s[j]);
        }
    }
    lemma_clean_prefix_of_clean(s, s.len() as int);
    assert(s.take(s.len() as int) == s);
}


/// The lines joined back, each trailing space turned into the newline it stands for.
pub open spec fn join_lines(ls: Seq<Seq<char>>) -> Seq<char>
    decreases ls.len(),
{
    if ls.len() == 0 {
        Seq::empty()
    } else {
        join_lines(ls.drop_last()) + ls.last().drop_last().push('\n')
    }
}

proof fn lemma_split_lines_parts(s: Seq<char>, n: int)
    requires
        0 <= n <= s.len(),
    ensures
        join_lines(split_lines(s, n).0) + split_lines(s, n).1 == s.take(n),
        forall|k: int|
            0 <= k < split_lines(s, n).0.len() ==> {
                let l = #[trigger] split_lines(s, n).0[k];
                &&& l.len() >= 1
                &&& l.last() == ' '
                &&& forall|x: int| 0 <= x < l.len() - 1 ==> l[x] != '\n'
            },
        forall|x: int| 0 <= x < split_lines(s, n).1.len() ==> split_lines(s, n).1[x] != '\n',
    decreases n,
{
    if n == 0 {
        assert(s.take(0) == Seq::<char>::empty());
    } else {
        lemma_split_lines_parts(s, n - 1);
        let (done, cur) = split_lines(s, n - 1);
        let c = s[n - 1];
        assert(s.take(n) == s.take(n - 1).push(c));
        if c == '\n' {
            let l = cur.push(' ');
            let nd = done.push(l);
            assert(nd.drop_last() == done);
            assert(l.drop_last() == cur);
            assert(join_lines(nd) == join_lines(done) + cur.push('\n'));
            assert(join_lines(nd) + Seq::<char>::empty() == s.take(n));
            assert forall|k: int| 0 <= k < nd.len() implies {
                let l2 = #[trigger] nd[k];
                &&& l2.len() >= 1
                &&& l2.last() == ' '
                &&& forall|x: int| 0 <= x < l2.len() - 1 ==> l2[x] != '\n'
            } by {
                if k < done.len() {
                    assert(nd[k] == done[k]);
                } else {
                    assert(nd[k] == l);
                    assert forall|x: int| 0 <= x < l.len() - 1 implies l[x] != '\n' by {
                        assert(l[x] == cur[x]);
                    }
                }
            }
        } else {
            assert(join_lines(done) + cur.push(c) == (join_lines(done) + cur).push(c));
        }
    }
}

/// The lines of a text are the text itself cut at its newlines: each line
/// holds no newline but ends in a space standing for its newline, and
/// joining the lines back (space turned into newline) and adding the
/// unfinished tail gives back the text.
pub proof fn lemma_lines_rebuild_text(s: Seq<char>)
    ensures
        join_lines(text_lines(s)) + split_lines(s, s.len() as int).1 == s,
        forall|k: int|
            0 <= k < text_lines(s).len() ==> {
                let l = #[trigger] text_lines(s)[k];
                &&& l.len() >= 1
                &&& l.last() == ' '
                &&& forall|x: int| 0 <= x < l.len() - 1 ==> l[x] != '\n'
            },
        forall|x: int|
            0 <= x < split_lines(s, s.len() as int).1.len() ==> split_lines(s, s.len() as int).1[x]
                != '\n',
{
    lemma_split_lines_parts(s, s.len() as int);
    assert(s.take(s.len() as int) == s);
}

} // verus!
