use lisp_lexer::lexer::{iter_lex, lex};
use lisp_lexer::token::{LexError, SpannedToken, Token};

fn chars(s: &str) -> Vec<char> {
    s.chars().collect()
}

fn compare_tokens(actual: Vec<SpannedToken>, expected: Vec<SpannedToken>) {
    assert_eq!(actual.len(), expected.len());
    for (a, e) in actual.into_iter().zip(expected.into_iter()) {
        assert_eq!(a.start, e.start);
        assert_eq!(a.end, e.end);
        match (a.tok, e.tok) {
            (Token::LParen, Token::LParen) => {}
            (Token::RParen, Token::RParen) => {}
            (Token::Quote, Token::Quote) => {}
            (Token::Symbol(a_s), Token::Symbol(e_s)) => assert_eq!(a_s, e_s),
            (Token::Number(a_n), Token::Number(e_n)) => assert_eq!(a_n, e_n),
            (Token::String(a_s), Token::String(e_s)) => assert_eq!(a_s, e_s),
            _ => panic!("Token mismatch"),
        }
    }
}

fn sym(s: &str, start: (usize, usize), end: (usize, usize)) -> SpannedToken {
    SpannedToken::new(Token::Symbol(s.to_string()), start, end)
}

fn num(s: &str, start: (usize, usize), end: (usize, usize)) -> SpannedToken {
    SpannedToken::new(Token::Number(s.to_string()), start, end)
}

fn punct(tok: Token, at: (usize, usize)) -> SpannedToken {
    SpannedToken::new(tok, at, at)
}

#[test]
fn test_simple_expression() {
    let input = chars("(+ 1 2)");
    let expected = vec![
        SpannedToken::new(Token::LParen, (0, 0), (0, 0)),
        SpannedToken::new(Token::Symbol("+".to_string()), (0, 1), (0, 1)),
        SpannedToken::new(Token::Number("1".to_string()), (0, 3), (0, 3)),
        SpannedToken::new(Token::Number("2".to_string()), (0, 5), (0, 5)),
        SpannedToken::new(Token::RParen, (0, 6), (0, 6)),
    ];
    compare_tokens(lex("(+ 1 2)").unwrap(), expected.clone());
    compare_tokens(iter_lex(&input).unwrap(), expected);
}

// A string spans its quotes: the closing quote here stands at column 16.
#[test]
fn test_string_and_quote() {
    let text = r#"'(hello "world\n")"#;
    let expected = vec![
        SpannedToken::new(Token::Quote, (0, 0), (0, 0)),
        SpannedToken::new(Token::LParen, (0, 1), (0, 1)),
        SpannedToken::new(Token::Symbol("hello".to_string()), (0, 2), (0, 6)),
        SpannedToken::new(Token::String("world\\n".to_string()), (0, 8), (0, 16)),
        SpannedToken::new(Token::RParen, (0, 17), (0, 17)),
    ];
    compare_tokens(lex(text).unwrap(), expected.clone());
    compare_tokens(iter_lex(&chars(text)).unwrap(), expected);
}

#[test]
fn test_multiline_input() {
    let text = "(define (factorial n)\n  (if (= n 0)\n      1\n      (* n (factorial (- n 1)))))";
    let expected = vec![
        SpannedToken::new(Token::LParen, (0, 0), (0, 0)),
        SpannedToken::new(Token::Symbol("define".to_string()), (0, 1), (0, 6)),
        SpannedToken::new(Token::LParen, (0, 8), (0, 8)),
        SpannedToken::new(Token::Symbol("factorial".to_string()), (0, 9), (0, 17)),
        SpannedToken::new(Token::Symbol("n".to_string()), (0, 19), (0, 19)),
        SpannedToken::new(Token::RParen, (0, 20), (0, 20)),
        SpannedToken::new(Token::LParen, (1, 2), (1, 2)),
        SpannedToken::new(Token::Symbol("if".to_string()), (1, 3), (1, 4)),
        SpannedToken::new(Token::LParen, (1, 6), (1, 6)),
        SpannedToken::new(Token::Symbol("=".to_string()), (1, 7), (1, 7)),
        SpannedToken::new(Token::Symbol("n".to_string()), (1, 9), (1, 9)),
        SpannedToken::new(Token::Number("0".to_string()), (1, 11), (1, 11)),
        SpannedToken::new(Token::RParen, (1, 12), (1, 12)),
        SpannedToken::new(Token::Number("1".to_string()), (2, 6), (2, 6)),
        SpannedToken::new(Token::LParen, (3, 6), (3, 6)),
        SpannedToken::new(Token::Symbol("*".to_string()), (3, 7), (3, 7)),
        SpannedToken::new(Token::Symbol("n".to_string()), (3, 9), (3, 9)),
        SpannedToken::new(Token::LParen, (3, 11), (3, 11)),
        SpannedToken::new(Token::Symbol("factorial".to_string()), (3, 12), (3, 20)),
        SpannedToken::new(Token::LParen, (3, 22), (3, 22)),
        SpannedToken::new(Token::Symbol("-".to_string()), (3, 23), (3, 23)),
        SpannedToken::new(Token::Symbol("n".to_string()), (3, 25), (3, 25)),
        SpannedToken::new(Token::Number("1".to_string()), (3, 27), (3, 27)),
        SpannedToken::new(Token::RParen, (3, 28), (3, 28)),
        SpannedToken::new(Token::RParen, (3, 29), (3, 29)),
        SpannedToken::new(Token::RParen, (3, 30), (3, 30)),
        SpannedToken::new(Token::RParen, (3, 31), (3, 31)),
        SpannedToken::new(Token::RParen, (3, 32), (3, 32)),
    ];
    compare_tokens(lex(text).unwrap(), expected.clone());
    compare_tokens(iter_lex(&chars(text)).unwrap(), expected);
}

// The string spans both of its quotes (columns 21 to 44), so what follows it
// stands one column further on.
#[test]
fn test_edge_cases() {
    let text = r#"(symbol1Symbol2 3.14 "string with \"escape\"" '())"#;
    let expected = vec![
        SpannedToken::new(Token::LParen, (0, 0), (0, 0)),
        SpannedToken::new(Token::Symbol("symbol1Symbol2".to_string()), (0, 1), (0, 14)),
        SpannedToken::new(Token::Number("3.14".to_string()), (0, 16), (0, 19)),
        SpannedToken::new(
            Token::String("string with \\\"escape\\\"".to_string()),
            (0, 21),
            (0, 44),
        ),
        SpannedToken::new(Token::Quote, (0, 46), (0, 46)),
        SpannedToken::new(Token::LParen, (0, 47), (0, 47)),
        SpannedToken::new(Token::RParen, (0, 48), (0, 48)),
        SpannedToken::new(Token::RParen, (0, 49), (0, 49)),
    ];
    compare_tokens(lex(text).unwrap(), expected.clone());
    compare_tokens(iter_lex(&chars(text)).unwrap(), expected);
}

#[test]
fn empty_input_has_no_tokens() {
    assert_eq!(lex(""), Ok(vec![]));
    assert_eq!(iter_lex(&[]), Ok(vec![]));
}

#[test]
fn whitespace_only_input_has_no_tokens() {
    assert_eq!(lex(" \t\n  \r\n\u{a0}\u{2003}\u{3000}"), Ok(vec![]));
}

#[test]
fn whitespace_matches_std_for_every_char() {
    for c in (0u32..=0x10ffff).filter_map(char::from_u32) {
        let r = iter_lex(&[c]);
        if c.is_whitespace() {
            assert_eq!(r, Ok(vec![]), "{:?}", c);
        } else if c == '"' {
            assert_eq!(r, Err(LexError::UnterminatedString { start: (0, 0) }));
        } else {
            assert_eq!(r.map(|v| v.len()), Ok(1), "{:?}", c);
        }
    }
}

#[test]
fn paren_tokens_match_paren_characters() {
    let text = "((a \"(\" b) (c (d)) ')";
    let toks = lex(text).unwrap();
    let opens = toks.iter().filter(|t| t.tok == Token::LParen).count();
    let closes = toks.iter().filter(|t| t.tok == Token::RParen).count();
    assert_eq!(opens, 4);
    assert_eq!(closes, 4);
}

#[test]
fn tokens_read_back_from_their_spans() {
    let text = "(foo 12.5 \"a\\\"b\"\n  bar-baz)";
    let lines: Vec<Vec<char>> = text.split('\n').map(|l| l.chars().collect()).collect();
    let toks = lex(text).unwrap();
    assert_eq!(toks.len(), 6);
    for t in toks {
        assert_eq!(t.start.0, t.end.0);
        let slice: String = lines[t.start.0][t.start.1..=t.end.1].iter().collect();
        match t.tok {
            Token::Symbol(s) | Token::Number(s) => assert_eq!(slice, s),
            Token::String(s) => assert_eq!(slice, format!("\"{}\"", s)),
            Token::LParen => assert_eq!(slice, "("),
            Token::RParen => assert_eq!(slice, ")"),
            Token::Quote => assert_eq!(slice, "'"),
        }
    }
}

#[test]
fn lexing_twice_gives_the_same_tokens() {
    let text = "(list 'a \"b\" 3)\n(x)";
    assert_eq!(lex(text), lex(text));
    assert_eq!(lex(text), iter_lex(&chars(text)));
}

#[test]
fn number_followed_by_letters_splits() {
    compare_tokens(
        lex("3abc").unwrap(),
        vec![num("3", (0, 0), (0, 0)), sym("abc", (0, 1), (0, 3))],
    );
    compare_tokens(lex("3.14").unwrap(), vec![num("3.14", (0, 0), (0, 3))]);
    compare_tokens(
        lex("1.2.3x").unwrap(),
        vec![num("1.2.3", (0, 0), (0, 4)), sym("x", (0, 5), (0, 5))],
    );
}

#[test]
fn symbol_may_hold_digits_and_punctuation() {
    let text = "a1!$%&*+-./:<=>?@^_~";
    compare_tokens(lex(text).unwrap(), vec![sym(text, (0, 0), (0, 19))]);
    compare_tokens(lex("héllo").unwrap(), vec![sym("héllo", (0, 0), (0, 4))]);
}

#[test]
fn symbol_ends_at_a_character_it_cannot_hold() {
    compare_tokens(
        lex("a#b").unwrap(),
        vec![sym("a", (0, 0), (0, 0)), sym("#b", (0, 1), (0, 2))],
    );
}

#[test]
fn escaped_quote_does_not_end_a_string() {
    let toks = lex(r#""a\"b" c"#).unwrap();
    compare_tokens(
        toks,
        vec![
            SpannedToken::new(Token::String("a\\\"b".to_string()), (0, 0), (0, 5)),
            sym("c", (0, 7), (0, 7)),
        ],
    );
}

#[test]
fn atoms_end_at_delimiters_and_quotes() {
    compare_tokens(
        lex("ab'cd(12)3\"x\"y").unwrap(),
        vec![
            sym("ab", (0, 0), (0, 1)),
            punct(Token::Quote, (0, 2)),
            sym("cd", (0, 3), (0, 4)),
            punct(Token::LParen, (0, 5)),
            num("12", (0, 6), (0, 7)),
            punct(Token::RParen, (0, 8)),
            num("3", (0, 9), (0, 9)),
            SpannedToken::new(Token::String("x".to_string()), (0, 10), (0, 12)),
            sym("y", (0, 13), (0, 13)),
        ],
    );
}

#[test]
fn atom_at_end_of_line_ends_on_that_line() {
    compare_tokens(
        lex("ab\ncd").unwrap(),
        vec![sym("ab", (0, 0), (0, 1)), sym("cd", (1, 0), (1, 1))],
    );
}

#[test]
fn string_may_span_lines() {
    compare_tokens(
        lex("\"a\nb\" c").unwrap(),
        vec![
            SpannedToken::new(Token::String("a\nb".to_string()), (0, 0), (1, 1)),
            sym("c", (1, 3), (1, 3)),
        ],
    );
}

#[test]
fn unterminated_string_reports_its_opening_quote() {
    assert_eq!(lex("(foo \"bar"), Err(LexError::UnterminatedString { start: (0, 5) }));
    assert_eq!(lex("x\n  \""), Err(LexError::UnterminatedString { start: (1, 2) }));
}

#[test]
fn unterminated_escape_reports_the_backslash() {
    assert_eq!(
        lex("(a \"bc\\"),
        Err(LexError::UnterminatedEscape { start: (0, 3), escape: (0, 6) })
    );
}

#[test]
fn tokens_come_in_reading_order() {
    let text = "(a \"b c\"\n 12 'd)x";
    let toks = lex(text).unwrap();
    assert_eq!(toks.len(), 8);
    for t in &toks {
        assert!(t.start <= t.end);
    }
    for w in toks.windows(2) {
        assert!(w[0].end < w[1].start);
    }
}

#[test]
fn cloned_token_is_equal() {
    let t = SpannedToken::new(Token::String("a\\n".to_string()), (2, 3), (2, 7));
    assert_eq!(t.clone(), t);
}
