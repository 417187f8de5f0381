//! Properties of the lexer, proved of its model.
use vstd::prelude::*;
use crate::chars::{continues_number, continues_symbol, delimiter, white_space};
use crate::machine::{dispatch, lex_spec, pending_atom, scan, step, Mode, Scan};
use crate::position::{before, lemma_positions_increase, pos_at};
use crate::token::{SpannedModel, TokenModel};

verus! {

proof fn lemma_scan_blank(s: Seq<char>, n: nat)
    requires
        n <= s.len(),
        forall|i: int| 0 <= i < s.len() ==> white_space(#[trigger] s[i]),
    ensures
        scan(s, n).mode == Mode::Normal,
        scan(s, n).toks == Seq::<SpannedModel>::empty(),
    decreases n,
{
    if n > 0 {
        lemma_scan_blank(s, (n - 1) as nat);
        assert(white_space(s[n - 1]));
    }
}

/// An input made only of white space has no tokens.
pub proof fn lemma_whitespace_only(s: Seq<char>)
    requires
        forall|i: int| 0 <= i < s.len() ==> white_space(#[trigger] s[i]),
    ensures
        lex_spec(s) == Ok::<Seq<SpannedModel>, crate::token::LexErrorModel>(Seq::empty()),
{
    lemma_scan_blank(s, s.len());
}

/// How many tokens of `toks` are `t`.
pub open spec fn count_tok(toks: Seq<SpannedModel>, t: TokenModel) -> nat
    decreases toks.len(),
{
    if toks.len() == 0 {
        0
    } else {
        count_tok(toks.drop_last(), t) + if toks.last().tok == t {
            1nat
        } else {
            0nat
        }
    }
}

/// How many of the first `n` characters of `s` are `c` and stand outside
/// string literals.
pub open spec fn count_outside_strings(s: Seq<char>, c: char, n: nat) -> nat
    decreases n,
{
    if n == 0 {
        0
    } else {
        count_outside_strings(s, c, (n - 1) as nat) + if s[n - 1] == c && !(scan(
            s,
            (n - 1) as nat,
        ).mode is InString) {
            1nat
        } else {
            0nat
        }
    }
}

proof fn lemma_count_push(toks: Seq<SpannedModel>, x: SpannedModel, t: TokenModel)
    ensures
        count_tok(toks.push(x), t) == count_tok(toks, t) + if x.tok == t {
            1nat
        } else {
            0nat
        },
{
    assert(toks.push(x).drop_last() =~= toks);
}

/// A paren character and the token it gives.
pub open spec fn paren_pair(c: char, t: TokenModel) -> bool {
    (c == '(' && t == TokenModel::LParen) || (c == ')' && t == TokenModel::RParen)
}

proof fn lemma_dispatch_parens(
    s: Seq<char>,
    toks: Seq<SpannedModel>,
    i: nat,
    c: char,
    t: TokenModel,
)
    requires
        i < s.len(),
        paren_pair(c, t),
    ensures
        count_tok(dispatch(s, toks, i).toks, t) == count_tok(toks, t) + if s[i as int] == c {
            1nat
        } else {
            0nat
        },
{
    let after = dispatch(s, toks, i);
    if after.toks != toks {
        lemma_count_push(toks, after.toks.last(), t);
    }
}

proof fn lemma_scan_parens(s: Seq<char>, n: nat, c: char, t: TokenModel)
    requires
        n <= s.len(),
        paren_pair(c, t),
    ensures
        count_tok(scan(s, n).toks, t) == count_outside_strings(s, c, n),
    decreases n,
{
    if n > 0 {
        let i = (n - 1) as nat;
        lemma_scan_parens(s, i, c, t);
        let st = scan(s, i);
        let d = s[i as int];
        match st.mode {
            Mode::Normal => lemma_dispatch_parens(s, st.toks, i, c, t),
            Mode::InString(escaped) => {
                if !escaped && d == '"' {
                    lemma_count_push(st.toks, step(s, st, i).toks.last(), t);
                }
            },
            _ => {
                if !((st.mode == Mode::InSymbol && continues_symbol(d)) || (st.mode
                    == Mode::InNumber && continues_number(d))) {
                    let x = pending_atom(s, st, i);
                    lemma_count_push(st.toks, x, t);
                    lemma_dispatch_parens(s, st.toks.push(x), i, c, t);
                }
            },
        }
    }
}

/// Each paren outside string literals gives exactly one paren token.
pub proof fn lemma_paren_tokens(s: Seq<char>)
    ensures
        lex_spec(s) is Ok ==> count_tok(lex_spec(s)->Ok_0, TokenModel::LParen)
            == count_outside_strings(s, '(', s.len()) && count_tok(
            lex_spec(s)->Ok_0,
            TokenModel::RParen,
        ) == count_outside_strings(s, ')', s.len()),
{
    lemma_scan_parens(s, s.len(), '(', TokenModel::LParen);
    lemma_scan_parens(s, s.len(), ')', TokenModel::RParen);
    let st = scan(s, s.len());
    if st.mode == Mode::InSymbol || st.mode == Mode::InNumber {
        lemma_count_push(st.toks, pending_atom(s, st, s.len()), TokenModel::LParen);
        lemma_count_push(st.toks, pending_atom(s, st, s.len()), TokenModel::RParen);
    }
}

/// In an expression whose parens balance outside string literals, the
/// tokens hold as many opening as closing parens.
pub proof fn lemma_balanced_parens(s: Seq<char>)
    requires
        lex_spec(s) is Ok,
        count_outside_strings(s, '(', s.len()) == count_outside_strings(s, ')', s.len()),
    ensures
        count_tok(lex_spec(s)->Ok_0, TokenModel::LParen) == count_tok(
            lex_spec(s)->Ok_0,
            TokenModel::RParen,
        ),
{
    lemma_paren_tokens(s);
}

/// The token `t` was read from the characters `a` to `b` of `s`, both
/// inclusive: its span names them, and they spell the token. A string token
/// spans its quotes, and its text is what stands between them.
pub open spec fn reads_back(s: Seq<char>, t: SpannedModel, a: nat, b: nat) -> bool {
    &&& a <= b < s.len()
    &&& t.start == pos_at(s, a)
    &&& t.end == pos_at(s, b)
    &&& match t.tok {
        TokenModel::Symbol(x) => s.subrange(a as int, b + 1 as int) == x,
        TokenModel::Number(x) => s.subrange(a as int, b + 1 as int) == x,
        TokenModel::String(x) => s.subrange(a as int, b + 1 as int) == seq!['"'] + x + seq!['"'],
        TokenModel::LParen => a == b && s[a as int] == '(',
        TokenModel::RParen => a == b && s[a as int] == ')',
        TokenModel::Quote => a == b && s[a as int] == '\'',
    }
}

/// Some slice of `s` reads back as the token `t`.
pub open spec fn slices_input(s: Seq<char>, t: SpannedModel) -> bool {
    exists|a: nat, b: nat| reads_back(s, t, a, b)
}

/// What holds of the state after reading `n` characters of `s`.
spec fn scan_reads_back(s: Seq<char>, n: nat, st: Scan) -> bool {
    &&& st.mode != Mode::Normal ==> st.mark < n
    &&& st.mode is InString ==> s[st.mark as int] == '"'
    &&& forall|k: int| 0 <= k < st.toks.len() ==> slices_input(s, #[trigger] st.toks[k])
}

proof fn lemma_push_reads_back(
    s: Seq<char>,
    toks: Seq<SpannedModel>,
    x: SpannedModel,
    a: nat,
    b: nat,
)
    requires
        forall|k: int| 0 <= k < toks.len() ==> slices_input(s, #[trigger] toks[k]),
        reads_back(s, x, a, b),
    ensures
        forall|k: int| 0 <= k < toks.push(x).len() ==> slices_input(s, #[trigger] toks.push(x)[k]),
{
    assert forall|k: int| 0 <= k < toks.push(x).len() implies slices_input(
        s,
        #[trigger] toks.push(x)[k],
    ) by {
        if k < toks.len() {
            assert(toks.push(x)[k] == toks[k]);
        } else {
            assert(toks.push(x)[k] == x);
        }
    }
}

proof fn lemma_dispatch_reads_back(s: Seq<char>, toks: Seq<SpannedModel>, i: nat)
    requires
        i < s.len(),
        forall|k: int| 0 <= k < toks.len() ==> slices_input(s, #[trigger] toks[k]),
    ensures
        scan_reads_back(s, i + 1, dispatch(s, toks, i)),
{
    let after = dispatch(s, toks, i);
    if after.toks != toks {
        lemma_push_reads_back(s, toks, after.toks.last(), i, i);
    }
}

proof fn lemma_scan_reads_back(s: Seq<char>, n: nat)
    requires
        n <= s.len(),
    ensures
        scan_reads_back(s, n, scan(s, n)),
    decreases n,
{
    if n > 0 {
        let i = (n - 1) as nat;
        lemma_scan_reads_back(s, i);
        let st = scan(s, i);
        let d = s[i as int];
        match st.mode {
            Mode::Normal => lemma_dispatch_reads_back(s, st.toks, i),
            Mode::InString(escaped) => {
                if !escaped && d == '"' {
                    let x = step(s, st, i).toks.last();
                    assert(s.subrange(st.mark as int, i + 1 as int) =~= seq!['"'] + s.subrange(
                        st.mark + 1 as int,
                        i as int,
                    ) + seq!['"']);
                    lemma_push_reads_back(s, st.toks, x, st.mark, i);
                    assert(st.toks.push(x) == step(s, st, i).toks);
                }
            },
            _ => {
                if !((st.mode == Mode::InSymbol && continues_symbol(d)) || (
                st.mode == Mode::InNumber && continues_number(d))) {
                    let x = pending_atom(s, st, i);
                    lemma_push_reads_back(s, st.toks, x, st.mark, (i - 1) as nat);
                    lemma_dispatch_reads_back(s, st.toks.push(x), i);
                }
            },
        }
    }
}

/// Every token reads back from the input: the slice at its span is its text
/// (between the quotes, for a string, whose escapes stay as written).
pub proof fn lemma_round_trip(s: Seq<char>, k: int)
    requires
        lex_spec(s) is Ok,
        0 <= k < lex_spec(s)->Ok_0.len(),
    ensures
        slices_input(s, lex_spec(s)->Ok_0[k]),
{
    lemma_scan_reads_back(s, s.len());
    let st = scan(s, s.len());
    if st.mode == Mode::InSymbol || st.mode == Mode::InNumber {
        let x = pending_atom(s, st, s.len());
        lemma_push_reads_back(s, st.toks, x, st.mark, (s.len() - 1) as nat);
    }
}

/// Lexing depends on the input alone: the same characters give the same
/// tokens, or the same error, every time.
pub proof fn lemma_lex_deterministic(s: Seq<char>, t: Seq<char>)
    requires
        s == t,
    ensures
        lex_spec(s) == lex_spec(t),
{
}

/// A number ends where a character that cannot continue it follows: a digit
/// or `.` extends it, while any other character that is neither a delimiter
/// nor a quote closes the number at the character before and starts a symbol
/// there (so `3.14` is one number, and `3abc` is the number `3` and the
/// symbol `abc`).
pub proof fn lemma_number_boundary(s: Seq<char>, i: nat)
    requires
        i < s.len(),
        scan(s, i).mode == Mode::InNumber,
    ensures
        continues_number(s[i as int]) ==> scan(s, i + 1) == scan(s, i),
        !continues_number(s[i as int]) && !delimiter(s[i as int]) && s[i as int] != '"' ==> {
            let st = scan(s, i);
            &&& scan(s, i + 1).mode == Mode::InSymbol
            &&& scan(s, i + 1).mark == i
            &&& scan(s, i + 1).toks == st.toks.push(pending_atom(s, st, i))
            &&& pending_atom(s, st, i).tok == TokenModel::Number(
                s.subrange(st.mark as int, i as int),
            )
            &&& pending_atom(s, st, i).end == pos_at(s, (i - 1) as nat)
        },
{
}

/// Each token of `toks` ends before the next one starts, and the last ends
/// before `p`.
pub open spec fn ordered_before(toks: Seq<SpannedModel>, p: crate::token::Pos) -> bool {
    &&& forall|k: int| 0 <= k < toks.len() - 1 ==> before(#[trigger] toks[k].end, toks[k + 1].start)
    &&& toks.len() > 0 ==> before(toks.last().end, p)
}

/// Where the state after reading `n` characters of `s` may emit next.
spec fn next_start(s: Seq<char>, n: nat, st: Scan) -> crate::token::Pos {
    if st.mode == Mode::Normal {
        pos_at(s, n)
    } else {
        pos_at(s, st.mark)
    }
}

proof fn lemma_ordered_later(s: Seq<char>, toks: Seq<SpannedModel>, a: nat, m: nat)
    requires
        ordered_before(toks, pos_at(s, a)),
        a <= m,
    ensures
        ordered_before(toks, pos_at(s, m)),
{
    if a < m {
        lemma_positions_increase(s, a, m);
    }
}

proof fn lemma_ordered_push(
    s: Seq<char>,
    toks: Seq<SpannedModel>,
    x: SpannedModel,
    a: nat,
    b: nat,
    m: nat,
)
    requires
        ordered_before(toks, pos_at(s, a)),
        x.start == pos_at(s, a),
        x.end == pos_at(s, b),
        b < m,
    ensures
        ordered_before(toks.push(x), pos_at(s, m)),
{
    lemma_positions_increase(s, b, m);
    let t = toks.push(x);
    assert forall|k: int| 0 <= k < t.len() - 1 implies before(
        #[trigger] t[k].end,
        t[k + 1].start,
    ) by {
        if k < toks.len() - 1 {
            assert(t[k] == toks[k] && t[k + 1] == toks[k + 1]);
        } else {
            assert(t[k] == toks.last() && t[k + 1] == x);
        }
    }
}

proof fn lemma_dispatch_order(s: Seq<char>, toks: Seq<SpannedModel>, i: nat)
    requires
        i < s.len(),
        ordered_before(toks, pos_at(s, i)),
    ensures
        ordered_before(dispatch(s, toks, i).toks, next_start(s, i + 1, dispatch(s, toks, i))),
{
    let after = dispatch(s, toks, i);
    if after.toks != toks {
        lemma_ordered_push(s, toks, after.toks.last(), i, i, i + 1);
    } else if after.mode == Mode::Normal {
        lemma_ordered_later(s, toks, i, i + 1);
    }
}

proof fn lemma_scan_order(s: Seq<char>, n: nat)
    requires
        n <= s.len(),
    ensures
        ordered_before(scan(s, n).toks, next_start(s, n, scan(s, n))),
    decreases n,
{
    if n > 0 {
        let i = (n - 1) as nat;
        lemma_scan_order(s, i);
        let st = scan(s, i);
        let d = s[i as int];
        match st.mode {
            Mode::Normal => lemma_dispatch_order(s, st.toks, i),
            Mode::InString(escaped) => {
                if !escaped && d == '"' {
                    lemma_ordered_push(s, st.toks, step(s, st, i).toks.last(), st.mark, i, n);
                }
            },
            _ => {
                if !((st.mode == Mode::InSymbol && continues_symbol(d)) || (st.mode
                    == Mode::InNumber && continues_number(d))) {
                    let x = pending_atom(s, st, i);
                    lemma_ordered_push(s, st.toks, x, st.mark, (i - 1) as nat, i);
                    lemma_dispatch_order(s, st.toks.push(x), i);
                }
            },
        }
    }
}

/// Tokens come in reading order and do not overlap: each starts no later
/// than it ends, and ends before the next one starts.
pub proof fn lemma_tokens_in_order(s: Seq<char>)
    requires
        lex_spec(s) is Ok,
    ensures
        ordered_before(lex_spec(s)->Ok_0, pos_at(s, s.len())),
        forall|k: int|
            0 <= k < lex_spec(s)->Ok_0.len() ==> {
                let t = #[trigger] lex_spec(s)->Ok_0[k];
                t.start == t.end || before(t.start, t.end)
            },
{
    lemma_scan_order(s, s.len());
    lemma_scan_reads_back(s, s.len());
    let st = scan(s, s.len());
    if st.mode == Mode::InSymbol || st.mode == Mode::InNumber {
        let x = pending_atom(s, st, s.len());
        lemma_ordered_push(s, st.toks, x, st.mark, (s.len() - 1) as nat, s.len());
    }
    let toks = lex_spec(s)->Ok_0;
    assert forall|k: int| 0 <= k < toks.len() implies {
        let t = #[trigger] toks[k];
        t.start == t.end || before(t.start, t.end)
    } by {
        lemma_round_trip(s, k);
        let (a, b) = choose|a: nat, b: nat| reads_back(s, toks[k], a, b);
        if a < b {
            lemma_positions_increase(s, a, b);
        }
    }
}

} // verus!
