use haplo::lexer::{lex, LexError, Lexer, Span, TokenKind};

fn kinds(src: &str) -> Vec<TokenKind> {
    lex(src).unwrap().into_iter().map(|t| t.kind).collect()
}

fn spans(src: &str) -> Vec<Span> {
    lex(src).unwrap().into_iter().map(|t| t.span).collect()
}

fn at(line: u32, col: u32) -> Span {
    Span { line, col }
}

fn ident(name: &str) -> TokenKind {
    TokenKind::Ident(name.to_string())
}

#[test]
fn empty_text_is_the_end_mark() {
    assert_eq!(kinds(""), vec![TokenKind::Eof]);
    assert_eq!(kinds("  \n\n\t-- nothing"), vec![TokenKind::Eof]);
}

#[test]
fn all_symbols() {
    assert_eq!(
        kinds("+ - * / ^ @ == != < <= > >= = : -> , ; |> ( ) [ ]"),
        vec![
            TokenKind::Plus,
            TokenKind::Minus,
            TokenKind::Star,
            TokenKind::Slash,
            TokenKind::Caret,
            TokenKind::At,
            TokenKind::EqEq,
            TokenKind::BangEq,
            TokenKind::Lt,
            TokenKind::Le,
            TokenKind::Gt,
            TokenKind::Ge,
            TokenKind::Eq,
            TokenKind::Colon,
            TokenKind::Arrow,
            TokenKind::Comma,
            TokenKind::Semicolon,
            TokenKind::Pipe,
            TokenKind::LParen,
            TokenKind::RParen,
            TokenKind::LBrack,
            TokenKind::RBrack,
            TokenKind::Eof,
        ]
    );
}

#[test]
fn keywords_and_names() {
    assert_eq!(
        kinds("let in if then else lets _x a_1' é9"),
        vec![
            TokenKind::Let,
            TokenKind::In,
            TokenKind::If,
            TokenKind::Then,
            TokenKind::Else,
            ident("lets"),
            ident("_x"),
            ident("a_1'"),
            ident("é9"),
            TokenKind::Eof,
        ]
    );
}

#[test]
fn names_beyond_ascii() {
    assert_eq!(kinds("重み α2"), vec![ident("重み"), ident("α2"), TokenKind::Eof]);
}

#[test]
fn a_name_has_one_closing_prime() {
    assert_eq!(kinds("x'y"), vec![ident("x'"), ident("y"), TokenKind::Eof]);
}

#[test]
fn integers() {
    assert_eq!(kinds("1_000"), vec![TokenKind::Int(1000), TokenKind::Eof]);
    assert_eq!(kinds("007"), vec![TokenKind::Int(7), TokenKind::Eof]);
    assert_eq!(
        kinds("9223372036854775807"),
        vec![TokenKind::Int(i64::MAX), TokenKind::Eof]
    );
    assert_eq!(
        kinds("-5"),
        vec![TokenKind::Minus, TokenKind::Int(5), TokenKind::Eof]
    );
}

#[test]
fn floats_keep_their_text() {
    assert_eq!(
        kinds("1_0.5 2E+10 3.25e-1 7e2"),
        vec![
            TokenKind::Float("10.5".to_string()),
            TokenKind::Float("2E+10".to_string()),
            TokenKind::Float("3.25e-1".to_string()),
            TokenKind::Float("7e2".to_string()),
            TokenKind::Eof,
        ]
    );
}

#[test]
fn integer_too_large() {
    match lex("x = 9223372036854775808") {
        Err(LexError::MalformedNumber { raw, line, col }) => {
            assert_eq!((raw.as_str(), line, col), ("9223372036854775808", 1, 5));
        }
        other => panic!("expected a malformed number, got {:?}", other),
    }
}

#[test]
fn exponent_without_digits() {
    match lex("\n 1_2e+") {
        Err(e) => {
            assert_eq!(e.message(), "不正な数値リテラル \"1_2e+\" (2:2)");
            assert!(matches!(e, LexError::MalformedNumber { line: 2, col: 2, .. }));
        }
        other => panic!("expected an error, got {:?}", other),
    }
}

#[test]
fn unexpected_character() {
    match lex("a #") {
        Err(e) => {
            assert_eq!(e.message(), "予期しない文字 '#' (1:3)");
            assert!(matches!(e, LexError::UnexpectedChar { ch: '#', line: 1, col: 3 }));
        }
        other => panic!("expected an error, got {:?}", other),
    }
    match lex("\u{7}") {
        Err(e) => assert_eq!(e.message(), "予期しない文字 '\\u{7}' (1:1)"),
        other => panic!("expected an error, got {:?}", other),
    }
    assert!(matches!(lex("!"), Err(LexError::UnexpectedChar { ch: '!', .. })));
    assert!(matches!(lex("|"), Err(LexError::UnexpectedChar { ch: '|', .. })));
}

#[test]
fn unclosed_comment() {
    match lex("x\n  {- {- -}") {
        Err(e) => {
            assert_eq!(e.message(), "ブロックコメントが閉じられていません (2:3)");
            assert!(matches!(e, LexError::UnterminatedBlockComment { line: 2, col: 3 }));
        }
        other => panic!("expected an error, got {:?}", other),
    }
}

#[test]
fn places_of_tokens() {
    assert_eq!(
        spans("a = 1\n\n  b"),
        vec![at(1, 1), at(1, 3), at(1, 5), at(1, 6), at(3, 3), at(3, 4)]
    );
}

#[test]
fn line_breaks_count_once() {
    assert_eq!(
        kinds("1\n\n\n2\n"),
        vec![
            TokenKind::Int(1),
            TokenKind::Newline,
            TokenKind::Int(2),
            TokenKind::Newline,
            TokenKind::Eof
        ]
    );
}

#[test]
fn line_breaks_behind_a_closing_bracket() {
    assert_eq!(
        kinds("(1)\n2"),
        vec![
            TokenKind::LParen,
            TokenKind::Int(1),
            TokenKind::RParen,
            TokenKind::Newline,
            TokenKind::Int(2),
            TokenKind::Eof
        ]
    );
    // Below depth zero nothing counts as a line break.
    assert_eq!(
        kinds(")\n2"),
        vec![TokenKind::RParen, TokenKind::Int(2), TokenKind::Eof]
    );
}

#[test]
fn tokens_in_order() {
    let tokens = lex("f x = {- a\nb -} x\n  + 1 -- end\ng = f").unwrap();
    for pair in tokens.windows(2) {
        let (a, b) = (pair[0].span, pair[1].span);
        assert!(a.line < b.line || (a.line == b.line && a.col < b.col));
    }
    assert!(matches!(tokens.last().unwrap().kind, TokenKind::Eof));
    assert_eq!(
        tokens.iter().filter(|t| matches!(t.kind, TokenKind::Eof)).count(),
        1
    );
}

#[test]
fn indentation_has_no_meaning() {
    let src = "f x =\n{- a\ncomment -}\nx + 1.5e3 -- end\ng = [1,\n2]\nmain = f g'\n";
    let plain = kinds(src);
    for blank in [" ", "\t", "    ", " \t  "] {
        assert_eq!(kinds(&format!("{}{}", blank, src)), plain);
        assert_eq!(kinds(&src.replace('\n', &format!("\n{}", blank))), plain);
    }
    // Only the places differ.
    assert_eq!(spans("a\n  b")[2], at(2, 3));
    assert_eq!(spans("a\nb")[2], at(2, 1));
}

#[test]
fn places_count_lines_and_columns() {
    assert_eq!(
        spans("ab c\n\n d"),
        vec![at(1, 1), at(1, 4), at(1, 5), at(3, 2), at(3, 3)]
    );
}

#[test]
fn reading_character_by_character() {
    let text = "ab\n\nc";
    let mut lexer = Lexer::new(text);
    for (i, c) in text.chars().enumerate() {
        let before = &text[..i];
        assert_eq!(lexer.pos, i);
        assert_eq!(lexer.line as usize, 1 + before.matches('\n').count());
        assert_eq!(lexer.col as usize, 1 + i - before.rfind('\n').map_or(0, |b| b + 1));
        assert_eq!(lexer.peek(), Some(c));
        assert_eq!(lexer.advance(), Some(c));
    }
    let (pos, place) = (lexer.pos, lexer.span());
    assert_eq!(lexer.advance(), None);
    assert_eq!((lexer.pos, lexer.span()), (pos, place));
    assert_eq!(pos, text.len());
}

/// The lexer of a text behind its first `n` characters.
fn behind(text: &str, n: usize) -> Lexer {
    let mut lexer = Lexer::new(text);
    for _ in 0..n {
        lexer.advance();
    }
    lexer
}

#[test]
fn a_number_is_read_to_its_end_even_if_malformed() {
    let mut lexer = behind("99999999999999999999.x", 1);
    assert!(lexer.scan_number('9').is_err());
    assert_eq!(lexer.pos, 20);
    let mut lexer = behind("1e+ 2", 1);
    assert!(lexer.scan_number('1').is_err());
    assert_eq!(lexer.pos, 3);
    let mut lexer = behind("1_0.5 2", 1);
    assert!(lexer.scan_number('1').is_ok());
    assert_eq!(lexer.pos, 5);
}

#[test]
fn an_open_comment_is_read_to_the_end_of_the_text() {
    let mut lexer = behind("{- a {- b -} c", 2);
    assert!(lexer.skip_block_comment(1, 1).is_err());
    assert_eq!(lexer.pos, 14);
    let mut lexer = behind("{- a -} c", 2);
    assert!(lexer.skip_block_comment(1, 1).is_ok());
    assert_eq!(lexer.pos, 7);
    let mut lexer = Lexer::new("  # x");
    assert!(lexer.next_token().is_err());
    assert_eq!(lexer.pos, 3);
}
