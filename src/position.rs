//! Source positions of the characters of an input.
use vstd::prelude::*;
use crate::token::Pos;

verus! {

/// The position that follows a character `c` read at `p`.
pub open spec fn advance(p: Pos, c: char) -> Pos {
    if c == '\n' {
        (p.0 + 1, 0)
    } else {
        (p.0, p.1 + 1)
    }
}

/// The position of the character at index `i` of `s` (or, for `i == s.len()`,
/// the position just past the input).
pub open spec fn pos_at(s: Seq<char>, i: nat) -> Pos
    decreases i,
{
    if i == 0 {
        (0, 0)
    } else {
        advance(pos_at(s, (i - 1) as nat), s[i - 1])
    }
}

/// Whether position `p` comes strictly before `q` in reading order.
pub open spec fn before(p: Pos, q: Pos) -> bool {
    p.0 < q.0 || (p.0 == q.0 && p.1 < q.1)
}

/// Positions grow strictly along the input, so a position names at most one
/// character and a span names one slice of the input.
pub proof fn lemma_positions_increase(s: Seq<char>, i: nat, j: nat)
    requires
        i < j,
    ensures
        before(pos_at(s, i), pos_at(s, j)),
    decreases j,
{
    if i < j - 1 {
        lemma_positions_increase(s, i, (j - 1) as nat);
    }
}

} // verus!
