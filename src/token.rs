//! Tokens, spans and lexing errors, with their mathematical models.
use vstd::prelude::*;

verus! {

/// A source position: (line, column), both counted from 0.
pub type Position = (usize, usize);

/// The model of a source position.
pub type Pos = (nat, nat);

pub open spec fn pos_view(p: Position) -> Pos {
    (p.0 as nat, p.1 as nat)
}

/// A lexical token. Atom and string tokens carry their text, copied from the
/// input; escape sequences in strings are kept exactly as written.
#[derive(Debug, PartialEq, Eq)]
pub enum Token {
    LParen,
    RParen,
    Symbol(String),
    Number(String),
    String(String),
    Quote,
}

/// The model of a token: its kind, with the text as a sequence of characters.
pub enum TokenModel {
    LParen,
    RParen,
    Symbol(Seq<char>),
    Number(Seq<char>),
    String(Seq<char>),
    Quote,
}

impl View for Token {
    type V = TokenModel;

    open spec fn view(&self) -> TokenModel {
        match self {
            Token::LParen => TokenModel::LParen,
            Token::RParen => TokenModel::RParen,
            Token::Symbol(t) => TokenModel::Symbol(t@),
            Token::Number(t) => TokenModel::Number(t@),
            Token::String(t) => TokenModel::String(t@),
            Token::Quote => TokenModel::Quote,
        }
    }
}

/// A token with the positions of the first and the last character it was
/// read from, both inclusive.
#[derive(Debug, PartialEq, Eq)]
pub struct SpannedToken {
    pub tok: Token,
    pub start: Position,
    pub end: Position,
}

/// The model of a spanned token.
pub struct SpannedModel {
    pub tok: TokenModel,
    pub start: Pos,
    pub end: Pos,
}

impl View for SpannedToken {
    type V = SpannedModel;

    open spec fn view(&self) -> SpannedModel {
        SpannedModel { tok: self.tok@, start: pos_view(self.start), end: pos_view(self.end) }
    }
}

impl SpannedToken {
    pub fn new(tok: Token, start: Position, end: Position) -> (r: Self)
        ensures
            r.tok == tok,
            r.start == start,
            r.end == end,
    {
        SpannedToken { tok, start, end }
    }
}

impl Clone for Token {
    fn clone(&self) -> (r: Self)
        ensures
            r == *self,
    {
        match self {
            Token::LParen => Token::LParen,
            Token::RParen => Token::RParen,
            Token::Symbol(t) => Token::Symbol(t.clone()),
            Token::Number(t) => Token::Number(t.clone()),
            Token::String(t) => Token::String(t.clone()),
            Token::Quote => Token::Quote,
        }
    }
}

impl Clone for SpannedToken {
    fn clone(&self) -> (r: Self)
        ensures
            r == *self,
    {
        SpannedToken { tok: self.tok.clone(), start: self.start, end: self.end }
    }
}

/// The models of a sequence of tokens, in order.
pub open spec fn models(v: Seq<SpannedToken>) -> Seq<SpannedModel> {
    v.map_values(|t: SpannedToken| t@)
}

/// Why an input could not be lexed.
#[derive(Debug, Clone, Copy, PartialEq, Eq)]
pub enum LexError {
    /// The input ended inside a string; `start` is the opening quote.
    UnterminatedString { start: Position },
    /// The input ended inside a string right after a backslash; `start` is
    /// the opening quote and `escape` the backslash.
    UnterminatedEscape { start: Position, escape: Position },
}

/// The model of a lexing error.
pub enum LexErrorModel {
    UnterminatedString { start: Pos },
    UnterminatedEscape { start: Pos, escape: Pos },
}

impl View for LexError {
    type V = LexErrorModel;

    open spec fn view(&self) -> LexErrorModel {
        match self {
            LexError::UnterminatedString { start } => LexErrorModel::UnterminatedString {
                start: pos_view(*start),
            },
            LexError::UnterminatedEscape { start, escape } => LexErrorModel::UnterminatedEscape {
                start: pos_view(*start),
                escape: pos_view(*escape),
            },
        }
    }
}

} // verus!
