use haplo::lexer::{lex, TokenKind};

fn kinds(src: &str) -> Vec<TokenKind> {
    lex(src).unwrap().into_iter().map(|t| t.kind).collect()
}

fn float(kind: &TokenKind) -> f64 {
    match kind {
        TokenKind::Float(text) => text.parse::<f64>().unwrap(),
        other => panic!("expected a float, got {:?}", other),
    }
}

#[test]
fn test_lex_integer() {
    assert_eq!(kinds("42"), vec![TokenKind::Int(42), TokenKind::Eof]);
}

#[test]
fn test_lex_float() {
    let k = kinds("3.14");
    assert!((float(&k[0]) - 3.14).abs() < 1e-9);
    assert_eq!(k[1], TokenKind::Eof);
}

#[test]
fn test_lex_float_exp() {
    let k = kinds("1e-3");
    assert!((float(&k[0]) - 0.001).abs() < 1e-9);
}

#[test]
fn test_lex_bool() {
    assert_eq!(
        kinds("true false"),
        vec![
            TokenKind::Bool(true),
            TokenKind::Bool(false),
            TokenKind::Eof
        ]
    );
}

#[test]
fn test_lex_operators() {
    assert_eq!(
        kinds("2 + 3"),
        vec![
            TokenKind::Int(2),
            TokenKind::Plus,
            TokenKind::Int(3),
            TokenKind::Eof
        ]
    );
}

#[test]
fn test_lex_line_comment() {
    assert_eq!(kinds("-- hi\n42"), vec![TokenKind::Int(42), TokenKind::Eof]);
}

#[test]
fn test_lex_block_comment() {
    assert_eq!(kinds("{- x -}42"), vec![TokenKind::Int(42), TokenKind::Eof]);
}

#[test]
fn test_lex_nested_block_comment() {
    assert_eq!(
        kinds("{- {- nested -} -}42"),
        vec![TokenKind::Int(42), TokenKind::Eof]
    );
}

#[test]
fn test_lex_newline_significant() {
    assert_eq!(
        kinds("2\n3"),
        vec![
            TokenKind::Int(2),
            TokenKind::Newline,
            TokenKind::Int(3),
            TokenKind::Eof
        ]
    );
}

#[test]
fn test_lex_newline_after_operator() {
    assert_eq!(
        kinds("2 +\n3"),
        vec![
            TokenKind::Int(2),
            TokenKind::Plus,
            TokenKind::Int(3),
            TokenKind::Eof
        ]
    );
}

#[test]
fn test_lex_newline_inside_brackets() {
    assert_eq!(
        kinds("(2\n+\n3)"),
        vec![
            TokenKind::LParen,
            TokenKind::Int(2),
            TokenKind::Plus,
            TokenKind::Int(3),
            TokenKind::RParen,
            TokenKind::Eof
        ]
    );
}

#[test]
fn test_lex_prime_ident() {
    assert_eq!(
        kinds("x'"),
        vec![TokenKind::Ident("x'".to_string()), TokenKind::Eof]
    );
}

#[test]
fn test_lex_pipe() {
    assert_eq!(
        kinds("x |> f"),
        vec![
            TokenKind::Ident("x".to_string()),
            TokenKind::Pipe,
            TokenKind::Ident("f".to_string()),
            TokenKind::Eof
        ]
    );
}

#[test]
fn test_lex_arrow() {
    assert_eq!(
        kinds("->"),
        vec![TokenKind::Arrow, TokenKind::Eof]
    );
}
