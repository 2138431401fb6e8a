//! Bracket nesting of a Brainfuck program: depth, balance and matching pairs.
use vstd::prelude::*;

verus! {

/// Change of nesting depth caused by one character.
pub open spec fn step_depth(c: char) -> int {
    if c == '[' {
        1
    } else if c == ']' {
        -1
    } else {
        0
    }
}

/// Net nesting depth after the first `n` characters of `s`:
/// one level up for every `[`, one level down for every `]`.
pub open spec fn depth(s: Seq<char>, n: int) -> int
    decreases n,
{
    if n <= 0 {
        0
    } else {
        depth(s, n - 1) + step_depth(s[n - 1])
    }
}

/// No prefix of `s` closes more brackets than it opened.
pub open spec fn never_underflows(s: Seq<char>) -> bool {
    forall|n: int| 0 <= n <= s.len() ==> #[trigger] depth(s, n) >= 0
}

/// Every `[` of `s` is closed by a later `]` and no `]` is left unmatched.
pub open spec fn well_bracketed(s: Seq<char>) -> bool {
    never_underflows(s) && depth(s, s.len() as int) == 0
}

/// The `]` at position `j` is the one that closes the `[` at position `i`:
/// it is the first position after `i` at which the depth falls back to
/// the depth just before `i`.
pub open spec fn partner(s: Seq<char>, i: int, j: int) -> bool {
    &&& 0 <= i < j < s.len()
    &&& s[i] == '['
    &&& s[j] == ']'
    &&& depth(s, j + 1) == depth(s, i)
    &&& forall|k: int| i < k < j ==> #[trigger] depth(s, k + 1) > depth(s, i)
}

/// `m` sends every `[` of `s` to the `]` that closes it, every `]` back to
/// the `[` it closes, and holds 0 at every other position.
pub open spec fn is_bracket_map(s: Seq<char>, m: Seq<usize>) -> bool {
    &&& m.len() == s.len()
    &&& forall|i: int|
        #![trigger m[i]]
        0 <= i < s.len() ==> if s[i] == '[' {
            partner(s, i, m[i] as int)
        } else if s[i] == ']' {
            partner(s, m[i] as int, i)
        } else {
            m[i] == 0
        }
}

/// The depth after one more character.
pub proof fn lemma_depth_step(s: Seq<char>, n: int)
    requires
        0 <= n,
    ensures
        depth(s, n + 1) == depth(s, n) + step_depth(s[n]),
{
}

/// A `[` has at most one closing partner.
pub proof fn lemma_partner_unique_close(s: Seq<char>, i: int, j1: int, j2: int)
    requires
        partner(s, i, j1),
        partner(s, i, j2),
    ensures
        j1 == j2,
{
    if j1 < j2 {
        assert(depth(s, j1 + 1) > depth(s, i));
    } else if j2 < j1 {
        assert(depth(s, j2 + 1) > depth(s, i));
    }
}

/// A `]` closes at most one `[`.
pub proof fn lemma_partner_unique_open(s: Seq<char>, i1: int, i2: int, j: int)
    requires
        partner(s, i1, j),
        partner(s, i2, j),
    ensures
        i1 == i2,
{
    if i1 < i2 {
        lemma_depth_step(s, i2 - 1);
        if i2 - 1 > i1 {
            assert(depth(s, (i2 - 1) + 1) > depth(s, i1));
        }
    } else if i2 < i1 {
        lemma_depth_step(s, i1 - 1);
        if i1 - 1 > i2 {
            assert(depth(s, (i1 - 1) + 1) > depth(s, i2));
        }
    }
}

/// Following a bracket map twice from any bracket leads back to that bracket,
/// and the map always leads from a bracket to the opposite kind.
pub proof fn lemma_bracket_map_involution(s: Seq<char>, m: Seq<usize>, i: int)
    requires
        is_bracket_map(s, m),
        0 <= i < s.len(),
        s[i] == '[' || s[i] == ']',
    ensures
        0 <= m[i] < s.len(),
        s[i] == '[' ==> s[m[i] as int] == ']',
        s[i] == ']' ==> s[m[i] as int] == '[',
        m[m[i] as int] == i,
{
    let j = m[i] as int;
    if s[i] == '[' {
        assert(partner(s, i, j));
        assert(partner(s, m[j] as int, j));
        lemma_partner_unique_open(s, i, m[j] as int, j);
    } else {
        assert(partner(s, j, i));
        assert(partner(s, j, m[j] as int));
        lemma_partner_unique_close(s, j, i, m[j] as int);
    }
}

} // verus!
