//! The executable lexer: one forward pass over the input, proved to follow
//! the state machine of `machine`.
use vstd::prelude::*;
use crate::chars::{extends_number, extends_symbol, is_digit, is_white_space};
use crate::machine::{dispatch, lex_spec, pending_atom, scan, step, Mode, Scan};
use crate::position::{advance, pos_at};
use crate::token::{
    models, pos_view, LexError, LexErrorModel, Position, SpannedModel, SpannedToken, Token,
};

verus! {

/// Relies on `FromIterator<&char>` for `String`: the string holds the
/// characters in the order the iterator yields them.
#[verifier::external_body]
fn text_of(buf: &Vec<char>) -> (r: String)
    ensures
        r@ == buf@,
{
    buf.iter().collect()
}

/// Relies on `str::chars`: it yields the characters of the string in order
/// (collected here into a `Vec`).
#[verifier::external_body]
fn chars_of(s: &str) -> (r: Vec<char>)
    ensures
        r@ == s@,
{
    s.chars().collect()
}

proof fn lemma_models_push(v: Seq<SpannedToken>, t: SpannedToken)
    ensures
        models(v.push(t)) == models(v).push(t@),
{
    assert(models(v.push(t)) =~= models(v).push(t@));
}

/// The result of lexing, seen through the models of its values.
pub open spec fn outcome(r: Result<Vec<SpannedToken>, LexError>) -> Result<
    Seq<SpannedModel>,
    LexErrorModel,
> {
    match r {
        Ok(v) => Ok(models(v@)),
        Err(e) => Err(e@),
    }
}

/// The position after a character `c` read at `p`.
fn next_position(p: Position, c: char) -> (r: Position)
    requires
        p.0 + p.1 < usize::MAX,
    ensures
        pos_view(r) == advance(pos_view(p), c),
{
    if c == '\n' {
        (p.0 + 1, 0)
    } else {
        (p.0, p.1 + 1)
    }
}

struct Scanner {
    mode: Mode,
    /// The characters of the pending atom or string.
    buf: Vec<char>,
    /// Where the pending atom or string began.
    start: Position,
    tokens: Vec<SpannedToken>,
}

impl Scanner {
    /// The scanner holds the model state `st` of reading `s` up to index `i`.
    spec fn agrees(&self, s: Seq<char>, i: nat, st: Scan) -> bool {
        &&& self.mode == st.mode
        &&& models(self.tokens@) == st.toks
        &&& self.mode != Mode::Normal ==> st.mark < i && pos_view(self.start) == pos_at(
            s,
            st.mark,
        )
        &&& (self.mode == Mode::InSymbol || self.mode == Mode::InNumber) ==> self.buf@
            == s.subrange(st.mark as int, i as int)
        &&& self.mode is InString ==> self.buf@ == s.subrange(st.mark + 1 as int, i as int)
    }

    /// Reads `c`, the character at index `i`, while waiting for a token.
    fn dispatch(
        &mut self,
        c: char,
        at: Position,
        Ghost(s): Ghost<Seq<char>>,
        Ghost(i): Ghost<nat>,
    )
        requires
            i < s.len(),
            s[i as int] == c,
            pos_view(at) == pos_at(s, i),
        ensures
            final(self).agrees(s, i + 1, dispatch(s, models(old(self).tokens@), i)),
    {
        if is_white_space(c) {
            self.mode = Mode::Normal;
        } else if c == '(' || c == ')' || c == '\'' {
            let tok = if c == '(' {
                Token::LParen
            } else if c == ')' {
                Token::RParen
            } else {
                Token::Quote
            };
            let t = SpannedToken::new(tok, at, at);
            proof {
                lemma_models_push(self.tokens@, t);
            }
            self.tokens.push(t);
            self.mode = Mode::Normal;
        } else {
            self.start = at;
            self.buf = Vec::new();
            if c == '"' {
                self.mode = Mode::InString(false);
                assert(self.buf@ =~= s.subrange(i + 1 as int, i + 1 as int));
            } else {
                self.buf.push(c);
                self.mode = if is_digit(c) {
                    Mode::InNumber
                } else {
                    Mode::InSymbol
                };
                assert(self.buf@ =~= s.subrange(i as int, i + 1 as int));
            }
        }
    }

    /// Emits the pending atom, whose last character was read at `end`.
    fn emit_atom(
        &mut self,
        end: Position,
        Ghost(s): Ghost<Seq<char>>,
        Ghost(i): Ghost<nat>,
        Ghost(st): Ghost<Scan>,
    )
        requires
            old(self).agrees(s, i, st),
            old(self).mode == Mode::InSymbol || old(self).mode == Mode::InNumber,
            i <= s.len(),
            pos_view(end) == pos_at(s, (i - 1) as nat),
        ensures
            models(final(self).tokens@) == st.toks.push(pending_atom(s, st, i)),
    {
        let text = text_of(&self.buf);
        let tok = match self.mode {
            Mode::InNumber => Token::Number(text),
            _ => Token::Symbol(text),
        };
        let t = SpannedToken::new(tok, self.start, end);
        proof {
            lemma_models_push(self.tokens@, t);
        }
        self.tokens.push(t);
    }

    /// Reads `c`, the character at index `i`, which stands at `at`; `prev` is
    /// where the character before it stands.
    fn read(
        &mut self,
        c: char,
        at: Position,
        prev: Position,
        Ghost(s): Ghost<Seq<char>>,
        Ghost(i): Ghost<nat>,
    )
        requires
            old(self).agrees(s, i, scan(s, i)),
            i < s.len(),
            s[i as int] == c,
            pos_view(at) == pos_at(s, i),
            i > 0 ==> pos_view(prev) == pos_at(s, (i - 1) as nat),
        ensures
            final(self).agrees(s, i + 1, scan(s, i + 1)),
    {
        let ghost st = scan(s, i);
        assert(scan(s, i + 1) == step(s, st, i));
        match self.mode {
            Mode::Normal => {
                self.dispatch(c, at, Ghost(s), Ghost(i));
            },
            Mode::InSymbol | Mode::InNumber => {
                let extends = match self.mode {
                    Mode::InNumber => extends_number(c),
                    _ => extends_symbol(c),
                };
                if extends {
                    self.buf.push(c);
                    assert(self.buf@ =~= s.subrange(st.mark as int, i + 1 as int));
                } else {
                    self.emit_atom(prev, Ghost(s), Ghost(i), Ghost(st));
                    self.dispatch(c, at, Ghost(s), Ghost(i));
                }
            },
            Mode::InString(escaped) => {
                if !escaped && c == '"' {
                    let text = text_of(&self.buf);
                    let t = SpannedToken::new(Token::String(text), self.start, at);
                    proof {
                        lemma_models_push(self.tokens@, t);
                    }
                    self.tokens.push(t);
                    self.mode = Mode::Normal;
                } else {
                    self.buf.push(c);
                    self.mode = Mode::InString(!escaped && c == '\\');
                    assert(self.buf@ =~= s.subrange(st.mark + 1 as int, i + 1 as int));
                }
            },
        }
    }
}

/// Lexes a sequence of characters.
///
/// Returns the tokens of the input in order, or the error that stopped
/// lexing: the input ended inside a string.
pub fn iter_lex(input: &[char]) -> (r: Result<Vec<SpannedToken>, LexError>)
    ensures
        outcome(r) == lex_spec(input@),
{
    let ghost s = input@;
    let mut sc = Scanner {
        mode: Mode::Normal,
        buf: Vec::new(),
        start: (0, 0),
        tokens: Vec::new(),
    };
    let mut pos: Position = (0, 0);
    let mut prev: Position = (0, 0);
    let mut i: usize = 0;
    assert(models(sc.tokens@) =~= Seq::<SpannedModel>::empty());
    while i < input.len()
        invariant
            s == input@,
            i <= s.len(),
            sc.agrees(s, i as nat, scan(s, i as nat)),
            pos_view(pos) == pos_at(s, i as nat),
            pos.0 + pos.1 <= i,
            i > 0 ==> pos_view(prev) == pos_at(s, (i - 1) as nat),
        decreases s.len() - i,
    {
        let c = input[i];
        sc.read(c, pos, prev, Ghost(s), Ghost(i as nat));
        prev = pos;
        pos = next_position(pos, c);
        i = i + 1;
    }
    let ghost st = scan(s, s.len());
    match sc.mode {
        Mode::Normal => Ok(sc.tokens),
        Mode::InSymbol | Mode::InNumber => {
            sc.emit_atom(prev, Ghost(s), Ghost(s.len()), Ghost(st));
            Ok(sc.tokens)
        },
        Mode::InString(escaped) => {
            if escaped {
                Err(LexError::UnterminatedEscape { start: sc.start, escape: prev })
            } else {
                Err(LexError::UnterminatedString { start: sc.start })
            }
        },
    }
}

/// Lexes a string; the same as `iter_lex` on its characters.
pub fn lex(input: &str) -> (r: Result<Vec<SpannedToken>, LexError>)
    ensures
        outcome(r) == lex_spec(input@),
{
    let chars = chars_of(input);
    iter_lex(chars.as_slice())
}

} // verus!
