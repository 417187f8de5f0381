//! The lexer as a state machine over the input, stated as spec functions.
//!
//! The state after reading a prefix of the input records the mode, the index
//! at which the pending token began, and the tokens emitted so far. The text of
//! a pending atom is the input from that index on; the text of a pending string
//! is the input after its opening quote.
use vstd::prelude::*;
use crate::chars::{continues_number, continues_symbol, digit, white_space};
use crate::position::pos_at;
use crate::token::{LexErrorModel, SpannedModel, TokenModel};

verus! {

/// What the scanner is doing between two characters.
#[derive(Debug, Clone, Copy, PartialEq, Eq, Structural)]
pub enum Mode {
    /// Waiting for the start of a token.
    Normal,
    /// Reading a symbol.
    InSymbol,
    /// Reading a number.
    InNumber,
    /// Reading a string; the flag says that the last character was an
    /// unconsumed backslash.
    InString(bool),
}

/// The state of the scanner after reading a prefix of the input.
pub struct Scan {
    pub mode: Mode,
    /// Where the pending atom or string began (its opening quote, for a string).
    pub mark: nat,
    /// The tokens emitted so far, in order.
    pub toks: Seq<SpannedModel>,
}

/// A token read from the characters `a` to `b` of `s`, both inclusive.
pub open spec fn spanned(tok: TokenModel, s: Seq<char>, a: nat, b: nat) -> SpannedModel {
    SpannedModel { tok, start: pos_at(s, a), end: pos_at(s, b) }
}

/// The atom token of the given mode, with its text.
pub open spec fn atom(mode: Mode, text: Seq<char>) -> TokenModel {
    if mode == Mode::InNumber {
        TokenModel::Number(text)
    } else {
        TokenModel::Symbol(text)
    }
}

/// The pending atom of `st`, when the input is read up to index `i`, excluded.
pub open spec fn pending_atom(s: Seq<char>, st: Scan, i: nat) -> SpannedModel {
    spanned(atom(st.mode, s.subrange(st.mark as int, i as int)), s, st.mark, (i - 1) as nat)
}

/// Reading `s[i]` while waiting for a token, with `toks` emitted so far.
pub open spec fn dispatch(s: Seq<char>, toks: Seq<SpannedModel>, i: nat) -> Scan {
    let c = s[i as int];
    if white_space(c) {
        Scan { mode: Mode::Normal, mark: i, toks }
    } else if c == '(' {
        Scan { mode: Mode::Normal, mark: i, toks: toks.push(spanned(TokenModel::LParen, s, i, i)) }
    } else if c == ')' {
        Scan { mode: Mode::Normal, mark: i, toks: toks.push(spanned(TokenModel::RParen, s, i, i)) }
    } else if c == '\'' {
        Scan { mode: Mode::Normal, mark: i, toks: toks.push(spanned(TokenModel::Quote, s, i, i)) }
    } else if c == '"' {
        Scan { mode: Mode::InString(false), mark: i, toks }
    } else if digit(c) {
        Scan { mode: Mode::InNumber, mark: i, toks }
    } else {
        Scan { mode: Mode::InSymbol, mark: i, toks }
    }
}

/// Reading `s[i]` in state `st`.
pub open spec fn step(s: Seq<char>, st: Scan, i: nat) -> Scan {
    let c = s[i as int];
    match st.mode {
        Mode::Normal => dispatch(s, st.toks, i),
        Mode::InSymbol => if continues_symbol(c) {
            st
        } else {
            dispatch(s, st.toks.push(pending_atom(s, st, i)), i)
        },
        Mode::InNumber => if continues_number(c) {
            st
        } else {
            dispatch(s, st.toks.push(pending_atom(s, st, i)), i)
        },
        Mode::InString(escaped) => if escaped {
            Scan { mode: Mode::InString(false), ..st }
        } else if c == '\\' {
            Scan { mode: Mode::InString(true), ..st }
        } else if c == '"' {
            let text = s.subrange(st.mark + 1 as int, i as int);
            Scan {
                mode: Mode::Normal,
                mark: st.mark,
                toks: st.toks.push(spanned(TokenModel::String(text), s, st.mark, i)),
            }
        } else {
            st
        },
    }
}

/// The state after reading the first `n` characters of `s`.
pub open spec fn scan(s: Seq<char>, n: nat) -> Scan
    decreases n,
{
    if n == 0 {
        Scan { mode: Mode::Normal, mark: 0, toks: Seq::empty() }
    } else {
        step(s, scan(s, (n - 1) as nat), (n - 1) as nat)
    }
}

/// The outcome once the whole of `s` has been read into `st`.
pub open spec fn finish(s: Seq<char>, st: Scan) -> Result<Seq<SpannedModel>, LexErrorModel> {
    match st.mode {
        Mode::Normal => Ok(st.toks),
        Mode::InSymbol => Ok(st.toks.push(pending_atom(s, st, s.len()))),
        Mode::InNumber => Ok(st.toks.push(pending_atom(s, st, s.len()))),
        Mode::InString(escaped) => if escaped {
            Err(
                LexErrorModel::UnterminatedEscape {
                    start: pos_at(s, st.mark),
                    escape: pos_at(s, (s.len() - 1) as nat),
                },
            )
        } else {
            Err(LexErrorModel::UnterminatedString { start: pos_at(s, st.mark) })
        },
    }
}

/// The tokens of `s`, or the error that stops lexing it.
pub open spec fn lex_spec(s: Seq<char>) -> Result<Seq<SpannedModel>, LexErrorModel> {
    finish(s, scan(s, s.len()))
}

} // verus!
