//! From source text to tokens.
//!
//! A line break is a token of its own only at bracket depth zero and only
//! after a token that can end an expression; everywhere else it is blank.

use crate::text::{
    chars_of, char_debug, debug_of_char, debug_of_str, decimal, digit, is_digit, is_letter,
    is_letter_or_digit, letter, letter_or_digit, push_decimal, push_signed_decimal, same_text,
    signed_decimal, str_debug,
};
use vstd::prelude::*;

verus! {

#[derive(Debug, PartialEq)]
pub enum TokenKind {
    // Literals
    Int(i64),
    /// A decimal fraction, as written but for `_`.
    Float(String),
    Bool(bool),
    // Names
    Ident(String),
    // Keywords
    Let,
    In,
    If,
    Then,
    Else,
    // Operators
    Plus,
    Minus,
    Star,
    Slash,
    Caret,
    At,
    EqEq,
    BangEq,
    Lt,
    Le,
    Gt,
    Ge,
    Eq,
    Colon,
    Arrow,
    Comma,
    Semicolon,
    /// `|>`
    Pipe,
    // Grouping
    LParen,
    RParen,
    LBrack,
    RBrack,
    // Layout
    Newline,
    Eof,
}

/// A place in the source text, both coordinates from 1.
#[derive(Debug, Clone, Copy, PartialEq, Eq, Structural)]
pub struct Span {
    pub line: u32,
    pub col: u32,
}

#[derive(Debug)]
pub struct Token {
    pub kind: TokenKind,
    pub span: Span,
}

#[derive(Debug)]
pub enum LexError {
    UnexpectedChar { ch: char, line: u32, col: u32 },
    UnterminatedBlockComment { line: u32, col: u32 },
    MalformedNumber { raw: String, line: u32, col: u32 },
}

// ---------------------------------------------------------------------------
// Models
// ---------------------------------------------------------------------------

/// The model of a token kind. A kind that holds no text is its own model.
#[verifier::ext_equal]
pub enum TokenKindView {
    Float(Seq<char>),
    Ident(Seq<char>),
    Plain(TokenKind),
}

#[verifier::ext_equal]
pub struct TokenView {
    pub kind: TokenKindView,
    pub span: Span,
}

#[verifier::ext_equal]
pub enum LexErrorView {
    UnexpectedChar { ch: char, line: u32, col: u32 },
    UnterminatedBlockComment { line: u32, col: u32 },
    MalformedNumber { raw: Seq<char>, line: u32, col: u32 },
}

impl View for TokenKind {
    type V = TokenKindView;

    open spec fn view(&self) -> TokenKindView {
        match *self {
            TokenKind::Float(s) => TokenKindView::Float(s@),
            TokenKind::Ident(s) => TokenKindView::Ident(s@),
            k => TokenKindView::Plain(k),
        }
    }
}

impl View for Token {
    type V = TokenView;

    open spec fn view(&self) -> TokenView {
        TokenView { kind: self.kind@, span: self.span }
    }
}

impl View for LexError {
    type V = LexErrorView;

    open spec fn view(&self) -> LexErrorView {
        match *self {
            LexError::UnexpectedChar { ch, line, col } => LexErrorView::UnexpectedChar {
                ch,
                line,
                col,
            },
            LexError::UnterminatedBlockComment {
                line,
                col,
            } => LexErrorView::UnterminatedBlockComment { line, col },
            LexError::MalformedNumber { raw, line, col } => LexErrorView::MalformedNumber {
                raw: raw@,
                line,
                col,
            },
        }
    }
}

/// The model of a list of tokens.
pub open spec fn tokens_of(v: Seq<Token>) -> Seq<TokenView> {
    Seq::new(v.len(), |i: int| v[i]@)
}

impl Clone for TokenKind {
    fn clone(&self) -> (out: TokenKind)
        ensures
            out@ == self@,
    {
        match self {
            TokenKind::Int(n) => TokenKind::Int(*n),
            TokenKind::Float(s) => TokenKind::Float(s.clone()),
            TokenKind::Bool(b) => TokenKind::Bool(*b),
            TokenKind::Ident(s) => TokenKind::Ident(s.clone()),
            TokenKind::Let => TokenKind::Let,
            TokenKind::In => TokenKind::In,
            TokenKind::If => TokenKind::If,
            TokenKind::Then => TokenKind::Then,
            TokenKind::Else => TokenKind::Else,
            TokenKind::Plus => TokenKind::Plus,
            TokenKind::Minus => TokenKind::Minus,
            TokenKind::Star => TokenKind::Star,
            TokenKind::Slash => TokenKind::Slash,
            TokenKind::Caret => TokenKind::Caret,
            TokenKind::At => TokenKind::At,
            TokenKind::EqEq => TokenKind::EqEq,
            TokenKind::BangEq => TokenKind::BangEq,
            TokenKind::Lt => TokenKind::Lt,
            TokenKind::Le => TokenKind::Le,
            TokenKind::Gt => TokenKind::Gt,
            TokenKind::Ge => TokenKind::Ge,
            TokenKind::Eq => TokenKind::Eq,
            TokenKind::Colon => TokenKind::Colon,
            TokenKind::Arrow => TokenKind::Arrow,
            TokenKind::Comma => TokenKind::Comma,
            TokenKind::Semicolon => TokenKind::Semicolon,
            TokenKind::Pipe => TokenKind::Pipe,
            TokenKind::LParen => TokenKind::LParen,
            TokenKind::RParen => TokenKind::RParen,
            TokenKind::LBrack => TokenKind::LBrack,
            TokenKind::RBrack => TokenKind::RBrack,
            TokenKind::Newline => TokenKind::Newline,
            TokenKind::Eof => TokenKind::Eof,
        }
    }
}

impl TokenKind {
    /// Whether two kinds are the same, and hold the same where they hold something.
    pub fn same(&self, other: &TokenKind) -> (answer: bool)
        ensures
            answer == (self@ == other@),
    {
        match self {
            TokenKind::Int(a) => match other {
                TokenKind::Int(b) => *a == *b,
                _ => false,
            },
            TokenKind::Float(a) => match other {
                TokenKind::Float(b) => same_text(a.as_str(), b.as_str()),
                _ => false,
            },
            TokenKind::Bool(a) => match other {
                TokenKind::Bool(b) => *a == *b,
                _ => false,
            },
            TokenKind::Ident(a) => match other {
                TokenKind::Ident(b) => same_text(a.as_str(), b.as_str()),
                _ => false,
            },
            TokenKind::Let => matches!(other, TokenKind::Let),
            TokenKind::In => matches!(other, TokenKind::In),
            TokenKind::If => matches!(other, TokenKind::If),
            TokenKind::Then => matches!(other, TokenKind::Then),
            TokenKind::Else => matches!(other, TokenKind::Else),
            TokenKind::Plus => matches!(other, TokenKind::Plus),
            TokenKind::Minus => matches!(other, TokenKind::Minus),
            TokenKind::Star => matches!(other, TokenKind::Star),
            TokenKind::Slash => matches!(other, TokenKind::Slash),
            TokenKind::Caret => matches!(other, TokenKind::Caret),
            TokenKind::At => matches!(other, TokenKind::At),
            TokenKind::EqEq => matches!(other, TokenKind::EqEq),
            TokenKind::BangEq => matches!(other, TokenKind::BangEq),
            TokenKind::Lt => matches!(other, TokenKind::Lt),
            TokenKind::Le => matches!(other, TokenKind::Le),
            TokenKind::Gt => matches!(other, TokenKind::Gt),
            TokenKind::Ge => matches!(other, TokenKind::Ge),
            TokenKind::Eq => matches!(other, TokenKind::Eq),
            TokenKind::Colon => matches!(other, TokenKind::Colon),
            TokenKind::Arrow => matches!(other, TokenKind::Arrow),
            TokenKind::Comma => matches!(other, TokenKind::Comma),
            TokenKind::Semicolon => matches!(other, TokenKind::Semicolon),
            TokenKind::Pipe => matches!(other, TokenKind::Pipe),
            TokenKind::LParen => matches!(other, TokenKind::LParen),
            TokenKind::RParen => matches!(other, TokenKind::RParen),
            TokenKind::LBrack => matches!(other, TokenKind::LBrack),
            TokenKind::RBrack => matches!(other, TokenKind::RBrack),
            TokenKind::Newline => matches!(other, TokenKind::Newline),
            TokenKind::Eof => matches!(other, TokenKind::Eof),
        }
    }
}

// ---------------------------------------------------------------------------
// Error messages
// ---------------------------------------------------------------------------

/// `(line:col)`, as it ends a message.
pub open spec fn place_text(line: u32, col: u32) -> Seq<char> {
    " ("@ + decimal(line as nat) + ":"@ + decimal(col as nat) + ")"@
}

pub fn push_place(out: &mut String, line: u32, col: u32)
    ensures
        final(out)@ == old(out)@ + place_text(line, col),
{
    out.append(" (");
    push_decimal(out, line as u64);
    out.append(":");
    push_decimal(out, col as u64);
    out.append(")");
    proof {
        assert(out@ =~= old(out)@ + place_text(line, col));
    }
}

impl LexErrorView {
    /// What is said of the error.
    pub open spec fn text(self) -> Seq<char> {
        match self {
            LexErrorView::UnexpectedChar { ch, line, col } => "予期しない文字 "@ + char_debug(ch)
                + place_text(line, col),
            LexErrorView::UnterminatedBlockComment { line, col } =>
                "ブロックコメントが閉じられていません"@ + place_text(line, col),
            LexErrorView::MalformedNumber { raw, line, col } => "不正な数値リテラル "@ + str_debug(
                raw,
            ) + place_text(line, col),
        }
    }
}

impl LexError {
    /// The message shown for the error.
    pub fn message(&self) -> (out: String)
        ensures
            out@ == self@.text(),
    {
        match self {
            LexError::UnexpectedChar { ch, line, col } => {
                let mut out: String = "予期しない文字 ".to_owned();
                out.append(debug_of_char(*ch).as_str());
                push_place(&mut out, *line, *col);
                out
            },
            LexError::UnterminatedBlockComment { line, col } => {
                let mut out: String = "ブロックコメントが閉じられていません".to_owned();
                push_place(&mut out, *line, *col);
                out
            },
            LexError::MalformedNumber { raw, line, col } => {
                let mut out: String = "不正な数値リテラル ".to_owned();
                out.append(debug_of_str(raw.as_str()).as_str());
                push_place(&mut out, *line, *col);
                out
            },
        }
    }
}

/// A word followed by something in round brackets.
pub open spec fn with_argument(word: Seq<char>, argument: Seq<char>) -> Seq<char> {
    word + "("@ + argument + ")"@
}

/// How messages call a kind of token. `number` is how the value of a float
/// reads.
pub open spec fn kind_text(kind: TokenKindView, number: Seq<char>) -> Seq<char> {
    match kind {
        TokenKindView::Float(_) => with_argument("Float"@, number),
        TokenKindView::Ident(s) => with_argument("Ident"@, str_debug(s)),
        TokenKindView::Plain(k) => match k {
            TokenKind::Int(n) => with_argument("Int"@, signed_decimal(n as int)),
            TokenKind::Bool(b) => with_argument(
                "Bool"@,
                if b {
                    "true"@
                } else {
                    "false"@
                },
            ),
            TokenKind::Float(_) => with_argument("Float"@, number),
            TokenKind::Ident(s) => with_argument("Ident"@, str_debug(s@)),
            TokenKind::Let => "Let"@,
            TokenKind::In => "In"@,
            TokenKind::If => "If"@,
            TokenKind::Then => "Then"@,
            TokenKind::Else => "Else"@,
            TokenKind::Plus => "Plus"@,
            TokenKind::Minus => "Minus"@,
            TokenKind::Star => "Star"@,
            TokenKind::Slash => "Slash"@,
            TokenKind::Caret => "Caret"@,
            TokenKind::At => "At"@,
            TokenKind::EqEq => "EqEq"@,
            TokenKind::BangEq => "BangEq"@,
            TokenKind::Lt => "Lt"@,
            TokenKind::Le => "Le"@,
            TokenKind::Gt => "Gt"@,
            TokenKind::Ge => "Ge"@,
            TokenKind::Eq => "Eq"@,
            TokenKind::Colon => "Colon"@,
            TokenKind::Arrow => "Arrow"@,
            TokenKind::Comma => "Comma"@,
            TokenKind::Semicolon => "Semicolon"@,
            TokenKind::Pipe => "Pipe"@,
            TokenKind::LParen => "LParen"@,
            TokenKind::RParen => "RParen"@,
            TokenKind::LBrack => "LBrack"@,
            TokenKind::RBrack => "RBrack"@,
            TokenKind::Newline => "Newline"@,
            TokenKind::Eof => "Eof"@,
        },
    }
}

fn wrap_argument(word: &str, argument: &str) -> (out: String)
    ensures
        out@ == with_argument(word@, argument@),
{
    let mut out: String = word.to_owned();
    out.append("(");
    out.append(argument);
    out.append(")");
    out
}

impl TokenKind {
    /// How messages call the kind of token. `number` is how the value of a
    /// float reads.
    pub fn text(&self, number: &str) -> (out: String)
        ensures
            out@ == kind_text(self@, number@),
    {
        match self {
            TokenKind::Int(n) => {
                let mut digits: String = String::new();
                push_signed_decimal(&mut digits, *n);
                assert(digits@ =~= signed_decimal(*n as int));
                wrap_argument("Int", digits.as_str())
            },
            TokenKind::Float(_) => wrap_argument("Float", number),
            TokenKind::Bool(b) => wrap_argument(
                "Bool",
                if *b {
                    "true"
                } else {
                    "false"
                },
            ),
            TokenKind::Ident(s) => wrap_argument("Ident", debug_of_str(s.as_str()).as_str()),
            TokenKind::Let => "Let".to_owned(),
            TokenKind::In => "In".to_owned(),
            TokenKind::If => "If".to_owned(),
            TokenKind::Then => "Then".to_owned(),
            TokenKind::Else => "Else".to_owned(),
            TokenKind::Plus => "Plus".to_owned(),
            TokenKind::Minus => "Minus".to_owned(),
            TokenKind::Star => "Star".to_owned(),
            TokenKind::Slash => "Slash".to_owned(),
            TokenKind::Caret => "Caret".to_owned(),
            TokenKind::At => "At".to_owned(),
            TokenKind::EqEq => "EqEq".to_owned(),
            TokenKind::BangEq => "BangEq".to_owned(),
            TokenKind::Lt => "Lt".to_owned(),
            TokenKind::Le => "Le".to_owned(),
            TokenKind::Gt => "Gt".to_owned(),
            TokenKind::Ge => "Ge".to_owned(),
            TokenKind::Eq => "Eq".to_owned(),
            TokenKind::Colon => "Colon".to_owned(),
            TokenKind::Arrow => "Arrow".to_owned(),
            TokenKind::Comma => "Comma".to_owned(),
            TokenKind::Semicolon => "Semicolon".to_owned(),
            TokenKind::Pipe => "Pipe".to_owned(),
            TokenKind::LParen => "LParen".to_owned(),
            TokenKind::RParen => "RParen".to_owned(),
            TokenKind::LBrack => "LBrack".to_owned(),
            TokenKind::RBrack => "RBrack".to_owned(),
            TokenKind::Newline => "Newline".to_owned(),
            TokenKind::Eof => "Eof".to_owned(),
        }
    }
}

// ---------------------------------------------------------------------------
// The lexical grammar
// ---------------------------------------------------------------------------

/// The character at a position, if the text reaches that far.
pub open spec fn char_at(s: Seq<char>, pos: int) -> Option<char> {
    if 0 <= pos < s.len() {
        Some(s[pos])
    } else {
        None
    }
}

/// The line of a position: one more than the line breaks before it.
pub open spec fn line_at(s: Seq<char>, pos: int) -> int
    decreases pos,
{
    if pos <= 0 {
        1
    } else if s[pos - 1] == '\n' {
        line_at(s, pos - 1) + 1
    } else {
        line_at(s, pos - 1)
    }
}

/// The column of a position: one more than the characters between the last
/// line break before it and itself.
pub open spec fn col_at(s: Seq<char>, pos: int) -> int
    decreases pos,
{
    if pos <= 0 || s[pos - 1] == '\n' {
        1
    } else {
        col_at(s, pos - 1) + 1
    }
}

/// The place of a position.
pub open spec fn span_at(s: Seq<char>, pos: int) -> Span {
    Span { line: line_at(s, pos) as u32, col: col_at(s, pos) as u32 }
}

/// Where the longest run of characters of a class, from `pos`, ends.
pub open spec fn run_end(s: Seq<char>, pos: int, class: spec_fn(char) -> bool) -> int
    decreases s.len() - pos,
{
    if 0 <= pos < s.len() && class(s[pos]) {
        run_end(s, pos + 1, class)
    } else {
        pos
    }
}

/// Everything but a line break.
pub open spec fn not_line_break() -> spec_fn(char) -> bool {
    |c: char| c != '\n'
}

/// A decimal digit.
pub open spec fn digits() -> spec_fn(char) -> bool {
    |c: char| is_digit(c)
}

/// A decimal digit, or the `_` that may separate digits.
pub open spec fn spaced_digits() -> spec_fn(char) -> bool {
    |c: char| is_digit(c) || c == '_'
}

/// What a name may go on with.
pub open spec fn name_chars() -> spec_fn(char) -> bool {
    |c: char| is_letter_or_digit(c) || c == '_'
}

/// Where the block comment ends of which `depth` openings are still open at
/// `pos`. Block comments nest. `None`: the text ends first.
pub open spec fn comment_end(s: Seq<char>, pos: int, depth: nat) -> Option<int>
    decreases s.len() - pos,
{
    if depth == 0 {
        Some(pos)
    } else if pos < 0 || pos >= s.len() {
        None
    } else if s[pos] == '{' && char_at(s, pos + 1) == Some('-') {
        comment_end(s, pos + 2, depth + 1)
    } else if s[pos] == '-' && char_at(s, pos + 1) == Some('}') {
        comment_end(s, pos + 2, (depth - 1) as nat)
    } else {
        comment_end(s, pos + 1, depth)
    }
}

/// What stands behind blanks and comments.
pub enum Gap {
    /// A lexeme, or the end of the text, at this position.
    Lexeme(int),
    /// A line break that counts, at this position.
    LineBreak(int),
    /// The start of a block comment that does not end.
    Unclosed(int),
}

/// Skips blanks and comments from `pos`. `breaks`: whether a line break counts.
pub open spec fn gap(s: Seq<char>, pos: int, breaks: bool) -> Gap
    decreases s.len() - pos,
{
    if pos < 0 || pos >= s.len() {
        Gap::Lexeme(pos)
    } else if s[pos] == ' ' || s[pos] == '\t' || s[pos] == '\r' {
        gap(s, pos + 1, breaks)
    } else if s[pos] == '\n' {
        if breaks {
            Gap::LineBreak(pos)
        } else {
            gap(s, pos + 1, breaks)
        }
    } else if s[pos] == '-' && char_at(s, pos + 1) == Some('-') {
        proof {
            lemma_run_end(s, pos + 2, not_line_break());
        }
        gap(s, run_end(s, pos + 2, not_line_break()), breaks)
    } else if s[pos] == '{' && char_at(s, pos + 1) == Some('-') {
        proof {
            lemma_comment_end(s, pos + 2, 1);
        }
        match comment_end(s, pos + 2, 1) {
            None => Gap::Unclosed(pos),
            Some(e) => gap(s, e, breaks),
        }
    } else {
        Gap::Lexeme(pos)
    }
}

/// The operators and brackets: the kind of the longest one that starts with
/// `c` when `d` follows, and its length.
pub open spec fn symbol(c: char, d: Option<char>) -> Option<(TokenKind, usize)> {
    if c == '+' {
        Some((TokenKind::Plus, 1))
    } else if c == '-' {
        if d == Some('>') {
            Some((TokenKind::Arrow, 2))
        } else {
            Some((TokenKind::Minus, 1))
        }
    } else if c == '*' {
        Some((TokenKind::Star, 1))
    } else if c == '/' {
        Some((TokenKind::Slash, 1))
    } else if c == '^' {
        Some((TokenKind::Caret, 1))
    } else if c == '@' {
        Some((TokenKind::At, 1))
    } else if c == '=' {
        if d == Some('=') {
            Some((TokenKind::EqEq, 2))
        } else {
            Some((TokenKind::Eq, 1))
        }
    } else if c == '!' && d == Some('=') {
        Some((TokenKind::BangEq, 2))
    } else if c == '<' {
        if d == Some('=') {
            Some((TokenKind::Le, 2))
        } else {
            Some((TokenKind::Lt, 1))
        }
    } else if c == '>' {
        if d == Some('=') {
            Some((TokenKind::Ge, 2))
        } else {
            Some((TokenKind::Gt, 1))
        }
    } else if c == ':' {
        Some((TokenKind::Colon, 1))
    } else if c == ',' {
        Some((TokenKind::Comma, 1))
    } else if c == ';' {
        Some((TokenKind::Semicolon, 1))
    } else if c == '|' && d == Some('>') {
        Some((TokenKind::Pipe, 2))
    } else if c == '(' {
        Some((TokenKind::LParen, 1))
    } else if c == ')' {
        Some((TokenKind::RParen, 1))
    } else if c == '[' {
        Some((TokenKind::LBrack, 1))
    } else if c == ']' {
        Some((TokenKind::RBrack, 1))
    } else {
        None
    }
}

/// The keyword that a word is, or else the name.
pub open spec fn word_kind(word: Seq<char>) -> TokenKindView {
    if word == "true"@ {
        TokenKindView::Plain(TokenKind::Bool(true))
    } else if word == "false"@ {
        TokenKindView::Plain(TokenKind::Bool(false))
    } else if word == "let"@ {
        TokenKindView::Plain(TokenKind::Let)
    } else if word == "in"@ {
        TokenKindView::Plain(TokenKind::In)
    } else if word == "if"@ {
        TokenKindView::Plain(TokenKind::If)
    } else if word == "then"@ {
        TokenKindView::Plain(TokenKind::Then)
    } else if word == "else"@ {
        TokenKindView::Plain(TokenKind::Else)
    } else {
        TokenKindView::Ident(word)
    }
}

/// Where the name that starts at `pos` ends: letters, digits and `_`, and at
/// most one closing `'`.
pub open spec fn word_end(s: Seq<char>, pos: int) -> int {
    let e = run_end(s, pos + 1, name_chars());
    if char_at(s, e) == Some('\'') {
        e + 1
    } else {
        e
    }
}

/// Whether an exponent may start at `pos`.
pub open spec fn is_exponent_mark(s: Seq<char>, pos: int) -> bool {
    char_at(s, pos) == Some('e') || char_at(s, pos) == Some('E')
}

/// Where the digits of the exponent start whose mark is at `pos`.
pub open spec fn exponent_digits(s: Seq<char>, pos: int) -> int {
    if char_at(s, pos + 1) == Some('+') || char_at(s, pos + 1) == Some('-') {
        pos + 2
    } else {
        pos + 1
    }
}

/// The parts of a number that starts at a position.
pub struct NumberShape {
    /// Where the whole digits end.
    pub whole: int,
    /// Where the fraction ends, if there is one.
    pub fraction: Option<int>,
    /// Where the digits of the exponent start and end, if there is one.
    pub exponent: Option<(int, int)>,
}

impl NumberShape {
    pub open spec fn end(self) -> int {
        if let Some((_, e)) = self.exponent {
            e
        } else if let Some(e) = self.fraction {
            e
        } else {
            self.whole
        }
    }

    pub open spec fn is_float(self) -> bool {
        self.fraction is Some || self.exponent is Some
    }

    /// An exponent has to have a digit.
    pub open spec fn is_complete(self) -> bool {
        match self.exponent {
            Some((start, end)) => start < end,
            None => true,
        }
    }
}

pub open spec fn number_shape(s: Seq<char>, pos: int) -> NumberShape {
    let whole = run_end(s, pos + 1, spaced_digits());
    let fraction = if char_at(s, whole) == Some('.') && whole + 1 < s.len() && is_digit(
        s[whole + 1],
    ) {
        Some(run_end(s, whole + 1, digits()))
    } else {
        None
    };
    let mark = match fraction {
        Some(e) => e,
        None => whole,
    };
    let exponent = if is_exponent_mark(s, mark) {
        let start = exponent_digits(s, mark);
        Some((start, run_end(s, start, digits())))
    } else {
        None
    };
    NumberShape { whole, fraction, exponent }
}

/// A text without its `_`.
pub open spec fn without_underscores(s: Seq<char>) -> Seq<char>
    decreases s.len(),
{
    if s.len() == 0 {
        s
    } else if s.last() == '_' {
        without_underscores(s.drop_last())
    } else {
        without_underscores(s.drop_last()).push(s.last())
    }
}

/// The number that decimal digits denote.
pub open spec fn digits_value(s: Seq<char>) -> nat
    decreases s.len(),
{
    if s.len() == 0 {
        0
    } else {
        digits_value(s.drop_last()) * 10 + ((s.last() as int) - ('0' as int)) as nat
    }
}

/// The number lexeme at `pos`: its kind and its end.
pub open spec fn number_at(s: Seq<char>, pos: int) -> Result<(TokenKindView, int), LexErrorView> {
    let shape = number_shape(s, pos);
    let raw = s.subrange(pos, shape.end());
    let clean = without_underscores(raw);
    if shape.is_float() && shape.is_complete() {
        Ok((TokenKindView::Float(clean), shape.end()))
    } else if !shape.is_float() && digits_value(clean) <= i64::MAX {
        Ok((TokenKindView::Plain(TokenKind::Int(digits_value(clean) as i64)), shape.end()))
    } else {
        Err(
            LexErrorView::MalformedNumber {
                raw,
                line: span_at(s, pos).line,
                col: span_at(s, pos).col,
            },
        )
    }
}

/// The lexeme at `pos`, which is inside the text: its kind and its end.
pub open spec fn lexeme_at(s: Seq<char>, pos: int) -> Result<(TokenKindView, int), LexErrorView> {
    if let Some((kind, len)) = symbol(s[pos], char_at(s, pos + 1)) {
        Ok((TokenKindView::Plain(kind), pos + len))
    } else if is_digit(s[pos]) {
        number_at(s, pos)
    } else if is_letter(s[pos]) || s[pos] == '_' {
        let e = word_end(s, pos);
        Ok((word_kind(s.subrange(pos, e)), e))
    } else {
        Err(
            LexErrorView::UnexpectedChar {
                ch: s[pos],
                line: span_at(s, pos).line,
                col: span_at(s, pos).col,
            },
        )
    }
}

/// Whether the expression goes on behind a token of this kind, so that a line
/// break there does not count.
pub open spec fn continues(kind: TokenKindView) -> bool {
    match kind {
        TokenKindView::Float(_) => false,
        TokenKindView::Ident(_) => false,
        TokenKindView::Plain(TokenKind::Int(_)) => false,
        TokenKindView::Plain(TokenKind::Bool(_)) => false,
        TokenKindView::Plain(TokenKind::RParen) => false,
        TokenKindView::Plain(TokenKind::RBrack) => false,
        _ => true,
    }
}

/// What a token adds to the bracket depth.
pub open spec fn depth_change(kind: TokenKindView) -> int {
    match kind {
        TokenKindView::Plain(TokenKind::LParen) => 1,
        TokenKindView::Plain(TokenKind::LBrack) => 1,
        TokenKindView::Plain(TokenKind::RParen) => -1,
        TokenKindView::Plain(TokenKind::RBrack) => -1,
        _ => 0,
    }
}

/// What the lexer carries from one token to the next.
pub struct LexState {
    pub pos: int,
    /// Brackets opened less brackets closed.
    pub depth: int,
    /// Whether the last token asks for more; so does the start of the text.
    pub continuation: bool,
}

pub open spec fn lex_start() -> LexState {
    LexState { pos: 0, depth: 0, continuation: true }
}

/// The next token and the state behind it.
pub open spec fn next_model(s: Seq<char>, st: LexState) -> Result<
    (TokenView, LexState),
    LexErrorView,
> {
    match gap(s, st.pos, st.depth == 0 && !st.continuation) {
        Gap::Unclosed(p) => Err(
            LexErrorView::UnterminatedBlockComment {
                line: span_at(s, p).line,
                col: span_at(s, p).col,
            },
        ),
        Gap::LineBreak(p) => Ok(
            (
                TokenView {
                    kind: TokenKindView::Plain(TokenKind::Newline),
                    span: span_at(s, p),
                },
                LexState { pos: p + 1, depth: st.depth, continuation: true },
            ),
        ),
        Gap::Lexeme(p) => if p >= s.len() {
            Ok(
                (
                    TokenView {
                        kind: TokenKindView::Plain(TokenKind::Eof),
                        span: span_at(s, p),
                    },
                    LexState { pos: p, depth: st.depth, continuation: st.continuation },
                ),
            )
        } else {
            match lexeme_at(s, p) {
                Err(e) => Err(e),
                Ok((kind, end)) => Ok(
                    (
                        TokenView { kind, span: span_at(s, p) },
                        LexState {
                            pos: end,
                            depth: st.depth + depth_change(kind),
                            continuation: continues(kind),
                        },
                    ),
                ),
            }
        },
    }
}

/// How far the text is read when the next token is an error: all of an unclosed
/// comment, all of a malformed number, or the unexpected character.
pub open spec fn error_end(s: Seq<char>, st: LexState) -> int {
    match gap(s, st.pos, st.depth == 0 && !st.continuation) {
        Gap::Unclosed(_) => s.len() as int,
        Gap::LineBreak(p) => p + 1,
        Gap::Lexeme(p) => if p < s.len() && is_digit(s[p]) {
            number_shape(s, p).end()
        } else {
            p + 1
        },
    }
}

pub open spec fn is_eof(t: TokenView) -> bool {
    t.kind == TokenKindView::Plain(TokenKind::Eof)
}

/// The tokens from a state on, the last of them the end mark.
pub open spec fn lex_from(s: Seq<char>, st: LexState) -> Result<Seq<TokenView>, LexErrorView>
    decreases s.len() - st.pos,
{
    if st.pos < 0 || st.pos > s.len() {
        Ok(Seq::empty())
    } else {
        proof {
            lemma_next_advances(s, st);
        }
        match next_model(s, st) {
            Err(e) => Err(e),
            Ok((t, next)) => if is_eof(t) {
                Ok(seq![t])
            } else {
                match lex_from(s, next) {
                    Err(e) => Err(e),
                    Ok(rest) => Ok(seq![t] + rest),
                }
            },
        }
    }
}

/// The tokens of a text.
pub open spec fn lex_model(s: Seq<char>) -> Result<Seq<TokenView>, LexErrorView> {
    lex_from(s, lex_start())
}

// ---------------------------------------------------------------------------
// Bounds
// ---------------------------------------------------------------------------

pub proof fn lemma_run_end(s: Seq<char>, pos: int, class: spec_fn(char) -> bool)
    ensures
        pos <= run_end(s, pos, class),
        pos <= s.len() ==> run_end(s, pos, class) <= s.len(),
    decreases s.len() - pos,
{
    if 0 <= pos < s.len() && class(s[pos]) {
        lemma_run_end(s, pos + 1, class);
    }
}

pub proof fn lemma_comment_end(s: Seq<char>, pos: int, depth: nat)
    requires
        0 <= pos <= s.len(),
    ensures
        comment_end(s, pos, depth) matches Some(e) ==> pos <= e <= s.len(),
    decreases s.len() - pos,
{
    if depth > 0 && pos < s.len() {
        if s[pos] == '{' && char_at(s, pos + 1) == Some('-') {
            lemma_comment_end(s, pos + 2, depth + 1);
        } else if s[pos] == '-' && char_at(s, pos + 1) == Some('}') {
            lemma_comment_end(s, pos + 2, (depth - 1) as nat);
        } else {
            lemma_comment_end(s, pos + 1, depth);
        }
    }
}

pub proof fn lemma_gap(s: Seq<char>, pos: int, breaks: bool)
    requires
        0 <= pos <= s.len(),
    ensures
        match gap(s, pos, breaks) {
            Gap::Lexeme(p) => pos <= p <= s.len(),
            Gap::LineBreak(p) => pos <= p < s.len() && s[p] == '\n' && breaks,
            Gap::Unclosed(p) => pos <= p < s.len(),
        },
    decreases s.len() - pos,
{
    if pos < s.len() {
        if s[pos] == ' ' || s[pos] == '\t' || s[pos] == '\r' {
            lemma_gap(s, pos + 1, breaks);
        } else if s[pos] == '\n' {
            if !breaks {
                lemma_gap(s, pos + 1, breaks);
            }
        } else if s[pos] == '-' && char_at(s, pos + 1) == Some('-') {
            lemma_run_end(s, pos + 2, not_line_break());
            lemma_gap(s, run_end(s, pos + 2, not_line_break()), breaks);
        } else if s[pos] == '{' && char_at(s, pos + 1) == Some('-') {
            lemma_comment_end(s, pos + 2, 1);
            if let Some(e) = comment_end(s, pos + 2, 1) {
                lemma_gap(s, e, breaks);
            }
        }
    }
}

pub proof fn lemma_number_shape(s: Seq<char>, pos: int)
    requires
        0 <= pos < s.len(),
    ensures
        ({
            let n = number_shape(s, pos);
            &&& pos < n.whole <= n.end() <= s.len()
            &&& n.fraction matches Some(e) ==> n.whole + 1 < e <= s.len()
        }),
{
    let whole = run_end(s, pos + 1, spaced_digits());
    lemma_run_end(s, pos + 1, spaced_digits());
    if whole + 1 < s.len() && is_digit(s[whole + 1]) {
        assert(digits()(s[whole + 1]));
        lemma_run_end(s, whole + 1, digits());
        lemma_run_end(s, whole + 2, digits());
    }
    let n = number_shape(s, pos);
    let mark = match n.fraction {
        Some(e) => e,
        None => whole,
    };
    lemma_run_end(s, exponent_digits(s, mark), digits());
}

pub proof fn lemma_lexeme_at(s: Seq<char>, pos: int)
    requires
        0 <= pos < s.len(),
    ensures
        lexeme_at(s, pos) matches Ok((kind, end)) ==> pos < end <= s.len() && kind
            != TokenKindView::Plain(TokenKind::Eof) && kind != TokenKindView::Plain(
            TokenKind::Newline,
        ),
{
    lemma_number_shape(s, pos);
    lemma_run_end(s, pos + 1, name_chars());
}

pub proof fn lemma_next_advances(s: Seq<char>, st: LexState)
    requires
        0 <= st.pos <= s.len(),
    ensures
        next_model(s, st) matches Ok((t, next)) ==> {
            &&& 0 <= next.pos <= s.len()
            &&& is_eof(t) || st.pos < next.pos
        },
{
    let breaks = st.depth == 0 && !st.continuation;
    lemma_gap(s, st.pos, breaks);
    if let Gap::Lexeme(p) = gap(s, st.pos, breaks) {
        if p < s.len() {
            lemma_lexeme_at(s, p);
        }
    }
}

proof fn lemma_place_bounds(s: Seq<char>, pos: int)
    requires
        0 <= pos <= s.len(),
    ensures
        1 <= line_at(s, pos) <= pos + 1,
        1 <= col_at(s, pos) <= pos + 1,
    decreases pos,
{
    if pos > 0 {
        lemma_place_bounds(s, pos - 1);
    }
}

// ---------------------------------------------------------------------------
// The lexer
// ---------------------------------------------------------------------------

/// A text and how far it has been read.
#[derive(Debug)]
pub struct Lexer {
    pub chars: Vec<char>,
    pub pos: usize,
    pub line: u32,
    pub col: u32,
    /// Brackets opened less brackets closed.
    pub open_depth: i64,
    /// Whether the last token asks for more.
    pub last_was_continuation: bool,
}

impl Lexer {
    /// The line and column are those of the position.
    pub open spec fn wf(&self) -> bool {
        &&& self.chars@.len() < u32::MAX
        &&& self.pos <= self.chars@.len()
        &&& self.line == line_at(self.chars@, self.pos as int)
        &&& self.col == col_at(self.chars@, self.pos as int)
        &&& -(self.pos as int) <= self.open_depth <= self.pos
    }

    /// What the next token depends on.
    pub open spec fn state(&self) -> LexState {
        LexState {
            pos: self.pos as int,
            depth: self.open_depth as int,
            continuation: self.last_was_continuation,
        }
    }

    /// The same text and the same layout state, wherever the position is.
    pub open spec fn same_but_place(&self, other: &Lexer) -> bool {
        &&& self.chars == other.chars
        &&& self.open_depth == other.open_depth
        &&& self.last_was_continuation == other.last_was_continuation
    }

    /// A lexer at the start of a text.
    pub fn new(source: &str) -> (out: Lexer)
        requires
            source@.len() < u32::MAX,
        ensures
            out.wf(),
            out.chars@ == source@,
            out.state() == lex_start(),
    {
        Lexer {
            chars: chars_of(source),
            pos: 0,
            line: 1,
            col: 1,
            open_depth: 0,
            last_was_continuation: true,
        }
    }

    /// The next character.
    pub fn peek(&self) -> (c: Option<char>)
        requires
            self.wf(),
        ensures
            c == char_at(self.chars@, self.pos as int),
    {
        if self.pos < self.chars.len() {
            Some(self.chars[self.pos])
        } else {
            None
        }
    }

    /// The character behind the next.
    pub fn peek2(&self) -> (c: Option<char>)
        requires
            self.wf(),
        ensures
            c == char_at(self.chars@, self.pos + 1),
    {
        if self.pos < self.chars.len() && self.pos + 1 < self.chars.len() {
            Some(self.chars[self.pos + 1])
        } else {
            None
        }
    }

    /// Reads a character; at the end of the text there is none, and nothing changes.
    pub fn advance(&mut self) -> (c: Option<char>)
        requires
            old(self).wf(),
        ensures
            final(self).wf(),
            final(self).same_but_place(old(self)),
            c == char_at(old(self).chars@, old(self).pos as int),
            c is Some ==> final(self).pos == old(self).pos + 1,
            c is None ==> *final(self) == *old(self),
    {
        if self.pos >= self.chars.len() {
            return None;
        }
        let ch: char = self.chars[self.pos];
        proof {
            lemma_place_bounds(self.chars@, self.pos as int);
        }
        self.pos = self.pos + 1;
        if ch == '\n' {
            self.line = self.line + 1;
            self.col = 1;
        } else {
            self.col = self.col + 1;
        }
        Some(ch)
    }

    /// The place of the next character.
    pub fn span(&self) -> (out: Span)
        requires
            self.wf(),
        ensures
            out == span_at(self.chars@, self.pos as int),
    {
        Span { line: self.line, col: self.col }
    }

    /// Skips the rest of a line.
    pub fn skip_line_comment(&mut self)
        requires
            old(self).wf(),
        ensures
            final(self).wf(),
            final(self).same_but_place(old(self)),
            final(self).pos == run_end(old(self).chars@, old(self).pos as int, not_line_break()),
    {
        let ghost s = self.chars@;
        let ghost start = *self;
        while self.pos < self.chars.len() && self.chars[self.pos] != '\n'
            invariant
                self.wf(),
                self.same_but_place(&start),
                s == start.chars@,
                run_end(s, start.pos as int, not_line_break()) == run_end(
                    s,
                    self.pos as int,
                    not_line_break(),
                ),
            decreases self.chars.len() - self.pos,
        {
            assert(not_line_break()(s[self.pos as int]));
            self.advance();
        }
        assert(self.pos < s.len() ==> !not_line_break()(s[self.pos as int]));
    }

    /// Skips the rest of a block comment, whose opening has been read and
    /// stands at the given place.
    pub fn skip_block_comment(&mut self, start_line: u32, start_col: u32) -> (r: Result<(), LexError>)
        requires
            old(self).wf(),
        ensures
            final(self).wf(),
            final(self).same_but_place(old(self)),
            match comment_end(old(self).chars@, old(self).pos as int, 1) {
                Some(e) => r is Ok && final(self).pos == e,
                None => r matches Err(e) && e@ == (LexErrorView::UnterminatedBlockComment {
                    line: start_line,
                    col: start_col,
                }) && final(self).pos == old(self).chars@.len(),
            },
    {
        let ghost s = self.chars@;
        let ghost start = *self;
        let mut depth: u64 = 1;
        while depth > 0
            invariant
                self.wf(),
                self.same_but_place(&start),
                start == *old(self),
                s == start.chars@,
                depth <= self.pos + 1,
                comment_end(s, start.pos as int, 1) == comment_end(
                    s,
                    self.pos as int,
                    depth as nat,
                ),
            decreases s.len() - self.pos, depth,
        {
            match self.peek() {
                None => {
                    return Err(
                        LexError::UnterminatedBlockComment { line: start_line, col: start_col },
                    );
                },
                Some(c) => {
                    let d: Option<char> = self.peek2();
                    if c == '{' && d == Some('-') {
                        self.advance();
                        self.advance();
                        depth = depth + 1;
                    } else if c == '-' && d == Some('}') {
                        self.advance();
                        self.advance();
                        depth = depth - 1;
                    } else {
                        self.advance();
                    }
                },
            }
        }
        Ok(())
    }

    /// Reads digits into `raw`, and `_` too where `spaced`.
    fn scan_digits(&mut self, raw: &mut String, spaced: bool)
        requires
            old(self).wf(),
        ensures
            final(self).wf(),
            final(self).same_but_place(old(self)),
            final(self).pos == run_end(
                old(self).chars@,
                old(self).pos as int,
                if spaced {
                    spaced_digits()
                } else {
                    digits()
                },
            ),
            final(self).pos >= old(self).pos,
            final(raw)@ == old(raw)@ + old(self).chars@.subrange(
                old(self).pos as int,
                final(self).pos as int,
            ),
    {
        let ghost s = self.chars@;
        let ghost start = *self;
        let ghost class = if spaced {
            spaced_digits()
        } else {
            digits()
        };
        let ghost before = raw@;
        let mut more: bool = true;
        while more
            invariant
                self.wf(),
                self.same_but_place(&start),
                s == start.chars@,
                start.pos <= self.pos,
                class == if spaced {
                    spaced_digits()
                } else {
                    digits()
                },
                run_end(s, start.pos as int, class) == run_end(s, self.pos as int, class),
                raw@ == before + s.subrange(start.pos as int, self.pos as int),
                !more ==> run_end(s, self.pos as int, class) == self.pos,
            decreases s.len() - self.pos, (if more { 1int } else { 0 }),
        {
            match self.peek() {
                Some(c) => {
                    assert(class(c) == (is_digit(c) || (spaced && c == '_')));
                    if digit(c) || (spaced && c == '_') {
                        raw.push(c);
                        self.advance();
                        proof {
                            assert(s.subrange(start.pos as int, self.pos as int) =~= s.subrange(
                                start.pos as int,
                                self.pos - 1,
                            ).push(c));
                        }
                    } else {
                        more = false;
                    }
                },
                None => {
                    more = false;
                },
            }
        }
    }

    /// Reads one character into `raw`.
    fn take_into(&mut self, raw: &mut String)
        requires
            old(self).wf(),
            old(self).pos < old(self).chars@.len(),
        ensures
            final(self).wf(),
            final(self).same_but_place(old(self)),
            final(self).pos == old(self).pos + 1,
            final(raw)@ == old(raw)@.push(old(self).chars@[old(self).pos as int]),
    {
        let c: char = self.chars[self.pos];
        raw.push(c);
        self.advance();
    }

    /// Reads the number whose first digit has just been read.
    pub fn scan_number(&mut self, first: char) -> (r: Result<TokenKind, LexError>)
        requires
            old(self).wf(),
            old(self).pos > 0,
            old(self).chars@[old(self).pos - 1] == first,
            is_digit(first),
        ensures
            final(self).wf(),
            final(self).same_but_place(old(self)),
            match number_at(old(self).chars@, old(self).pos - 1) {
                Ok((kind, end)) => r matches Ok(k) && k@ == kind && final(self).pos == end,
                Err(e) => r matches Err(x) && x@ == e,
            },
            final(self).pos == number_shape(old(self).chars@, old(self).pos - 1).end(),
    {
        let ghost s = self.chars@;
        let ghost at = self.pos - 1;
        let start_line: u32 = self.line;
        proof {
            lemma_place_bounds(s, at);
        }
        let start_col: u32 = self.col - 1;
        let mut raw: String = String::new();
        raw.push(first);
        self.scan_digits(&mut raw, true);
        assert(raw@ =~= s.subrange(at, self.pos as int));

        let dot: bool = self.peek() == Some('.');
        let digit_follows: bool = match self.peek2() {
            Some(c) => digit(c),
            None => false,
        };
        let is_float: bool = dot && digit_follows;
        if is_float {
            self.take_into(&mut raw);
            self.scan_digits(&mut raw, false);
            assert(raw@ =~= s.subrange(at, self.pos as int));
        }
        let has_exponent: bool = self.peek() == Some('e') || self.peek() == Some('E');
        let mut complete: bool = true;
        if has_exponent {
            self.take_into(&mut raw);
            if self.peek() == Some('+') || self.peek() == Some('-') {
                self.take_into(&mut raw);
            }
            let from: usize = self.pos;
            self.scan_digits(&mut raw, false);
            complete = from < self.pos;
            assert(raw@ =~= s.subrange(at, self.pos as int));
        }
        let ghost shape = number_shape(s, at);
        assert(self.pos == shape.end());
        assert(raw@ == s.subrange(at, shape.end()));
        let clean: String = strip_underscores(raw.as_str());
        if is_float || has_exponent {
            if complete {
                Ok(TokenKind::Float(clean))
            } else {
                Err(LexError::MalformedNumber { raw, line: start_line, col: start_col })
            }
        } else {
            proof {
                lemma_spaced_run(s, at, shape.end());
            }
            match parse_digits(clean.as_str()) {
                Some(n) => Ok(TokenKind::Int(n)),
                None => Err(
                    LexError::MalformedNumber { raw, line: start_line, col: start_col },
                ),
            }
        }
    }

    /// Reads the name whose first character has just been read.
    pub fn scan_ident(&mut self, first: char) -> (out: String)
        requires
            old(self).wf(),
            old(self).pos > 0,
            old(self).chars@[old(self).pos - 1] == first,
        ensures
            final(self).wf(),
            final(self).same_but_place(old(self)),
            final(self).pos == word_end(old(self).chars@, old(self).pos - 1),
            out@ == old(self).chars@.subrange(old(self).pos - 1, final(self).pos as int),
    {
        let ghost s = self.chars@;
        let ghost start = *self;
        let ghost at = self.pos - 1;
        let mut out: String = String::new();
        out.push(first);
        assert(out@ =~= s.subrange(at, self.pos as int));
        let mut more: bool = true;
        while more
            invariant
                self.wf(),
                self.same_but_place(&start),
                s == start.chars@,
                0 <= at < self.pos,
                at + 1 == start.pos,
                run_end(s, start.pos as int, name_chars()) == run_end(
                    s,
                    self.pos as int,
                    name_chars(),
                ),
                out@ == s.subrange(at, self.pos as int),
                !more ==> run_end(s, self.pos as int, name_chars()) == self.pos,
            decreases s.len() - self.pos, (if more { 1int } else { 0 }),
        {
            match self.peek() {
                Some(c) => {
                    assert(name_chars()(c) == (is_letter_or_digit(c) || c == '_'));
                    if letter_or_digit(c) || c == '_' {
                        self.take_into(&mut out);
                        assert(s.subrange(at, self.pos as int) =~= s.subrange(
                            at,
                            self.pos - 1,
                        ).push(c));
                    } else {
                        more = false;
                    }
                },
                None => {
                    more = false;
                },
            }
        }
        if self.peek() == Some('\'') {
            self.take_into(&mut out);
            assert(s.subrange(at, self.pos as int) =~= s.subrange(at, self.pos - 1).push('\''));
        }
        out
    }

    /// The keyword that a word is, or else the name.
    pub fn keyword_or_ident(s: String) -> (kind: TokenKind)
        ensures
            kind@ == word_kind(s@),
    {
        if same_text(s.as_str(), "true") {
            TokenKind::Bool(true)
        } else if same_text(s.as_str(), "false") {
            TokenKind::Bool(false)
        } else if same_text(s.as_str(), "let") {
            TokenKind::Let
        } else if same_text(s.as_str(), "in") {
            TokenKind::In
        } else if same_text(s.as_str(), "if") {
            TokenKind::If
        } else if same_text(s.as_str(), "then") {
            TokenKind::Then
        } else if same_text(s.as_str(), "else") {
            TokenKind::Else
        } else {
            TokenKind::Ident(s)
        }
    }

    /// Skips blanks and comments. `true`: a line break that counts comes next.
    fn skip_gap(&mut self) -> (r: Result<bool, LexError>)
        requires
            old(self).wf(),
        ensures
            final(self).wf(),
            final(self).same_but_place(old(self)),
            match gap(
                old(self).chars@,
                old(self).pos as int,
                old(self).open_depth == 0 && !old(self).last_was_continuation,
            ) {
                Gap::Lexeme(p) => r == Ok::<bool, LexError>(false) && final(self).pos == p,
                Gap::LineBreak(p) => r == Ok::<bool, LexError>(true) && final(self).pos == p,
                Gap::Unclosed(p) => r matches Err(e) && e@
                    == (LexErrorView::UnterminatedBlockComment {
                    line: span_at(old(self).chars@, p).line,
                    col: span_at(old(self).chars@, p).col,
                }) && final(self).pos == old(self).chars@.len(),
            },
    {
        let ghost s = self.chars@;
        let ghost start = *self;
        let breaks: bool = self.open_depth == 0 && !self.last_was_continuation;
        loop
            invariant
                self.wf(),
                self.same_but_place(&start),
                start == *old(self),
                breaks == (start.open_depth == 0 && !start.last_was_continuation),
                s == start.chars@,
                start.pos <= self.pos,
                gap(s, start.pos as int, breaks) == gap(s, self.pos as int, breaks),
            decreases s.len() - self.pos,
        {
            let c: char = match self.peek() {
                Some(c) => c,
                None => {
                    return Ok(false);
                },
            };
            let d: Option<char> = self.peek2();
            if c == ' ' || c == '\t' || c == '\r' {
                self.advance();
            } else if c == '\n' {
                if breaks {
                    return Ok(true);
                }
                self.advance();
            } else if c == '-' && d == Some('-') {
                self.advance();
                self.advance();
                proof {
                    lemma_run_end(s, self.pos as int, not_line_break());
                }
                self.skip_line_comment();
            } else if c == '{' && d == Some('-') {
                let l: u32 = self.line;
                let k: u32 = self.col;
                self.advance();
                self.advance();
                proof {
                    lemma_comment_end(s, self.pos as int, 1);
                }
                let skipped = self.skip_block_comment(l, k);
                if let Err(e) = skipped {
                    return Err(e);
                }
            } else {
                return Ok(false);
            }
        }
    }

    /// The next token; the end mark again and again at the end of the text.
    pub fn next_token(&mut self) -> (r: Result<Token, LexError>)
        requires
            old(self).wf(),
        ensures
            final(self).wf(),
            final(self).chars == old(self).chars,
            match next_model(old(self).chars@, old(self).state()) {
                Ok((t, st)) => r matches Ok(x) && x@ == t && final(self).state() == st,
                Err(e) => r matches Err(x) && x@ == e && final(self).same_but_place(old(self))
                    && final(self).pos == error_end(old(self).chars@, old(self).state()),
            },
    {
        let ghost s = self.chars@;
        let ghost st = self.state();
        proof {
            lemma_next_advances(s, st);
            lemma_gap(s, st.pos, st.depth == 0 && !st.continuation);
        }
        let line_break: bool = match self.skip_gap() {
            Ok(b) => b,
            Err(e) => {
                return Err(e);
            },
        };
        let span: Span = self.span();
        let ghost p = self.pos as int;
        if line_break {
            self.advance();
            self.last_was_continuation = true;
            return Ok(Token { kind: TokenKind::Newline, span });
        }
        let ch: char = match self.advance() {
            None => {
                return Ok(Token { kind: TokenKind::Eof, span });
            },
            Some(c) => c,
        };
        proof {
            lemma_lexeme_at(s, p);
        }
        let kind: TokenKind = match symbol_at(ch, self.peek()) {
            Some((kind, len)) => {
                if len == 2 {
                    self.advance();
                }
                kind
            },
            None => if digit(ch) {
                match self.scan_number(ch) {
                    Ok(kind) => kind,
                    Err(e) => {
                        return Err(e);
                    },
                }
            } else if letter(ch) || ch == '_' {
                let word: String = self.scan_ident(ch);
                Self::keyword_or_ident(word)
            } else {
                return Err(
                    LexError::UnexpectedChar { ch, line: span.line, col: span.col },
                );
            },
        };
        self.last_was_continuation = match &kind {
            TokenKind::Int(_)
            | TokenKind::Float(_)
            | TokenKind::Bool(_)
            | TokenKind::Ident(_)
            | TokenKind::RParen
            | TokenKind::RBrack => false,
            _ => true,
        };
        match &kind {
            TokenKind::LParen | TokenKind::LBrack => {
                self.open_depth = self.open_depth + 1;
            },
            TokenKind::RParen | TokenKind::RBrack => {
                self.open_depth = self.open_depth - 1;
            },
            _ => {},
        }
        Ok(Token { kind, span })
    }
}

/// The operator or bracket that starts with `c` when `d` follows, and its length.
fn symbol_at(c: char, d: Option<char>) -> (r: Option<(TokenKind, usize)>)
    ensures
        r == symbol(c, d),
        r matches Some((_, len)) ==> len == 1 || (len == 2 && d is Some),
{
    if c == '+' {
        Some((TokenKind::Plus, 1))
    } else if c == '-' {
        if d == Some('>') {
            Some((TokenKind::Arrow, 2))
        } else {
            Some((TokenKind::Minus, 1))
        }
    } else if c == '*' {
        Some((TokenKind::Star, 1))
    } else if c == '/' {
        Some((TokenKind::Slash, 1))
    } else if c == '^' {
        Some((TokenKind::Caret, 1))
    } else if c == '@' {
        Some((TokenKind::At, 1))
    } else if c == '=' {
        if d == Some('=') {
            Some((TokenKind::EqEq, 2))
        } else {
            Some((TokenKind::Eq, 1))
        }
    } else if c == '!' && d == Some('=') {
        Some((TokenKind::BangEq, 2))
    } else if c == '<' {
        if d == Some('=') {
            Some((TokenKind::Le, 2))
        } else {
            Some((TokenKind::Lt, 1))
        }
    } else if c == '>' {
        if d == Some('=') {
            Some((TokenKind::Ge, 2))
        } else {
            Some((TokenKind::Gt, 1))
        }
    } else if c == ':' {
        Some((TokenKind::Colon, 1))
    } else if c == ',' {
        Some((TokenKind::Comma, 1))
    } else if c == ';' {
        Some((TokenKind::Semicolon, 1))
    } else if c == '|' && d == Some('>') {
        Some((TokenKind::Pipe, 2))
    } else if c == '(' {
        Some((TokenKind::LParen, 1))
    } else if c == ')' {
        Some((TokenKind::RParen, 1))
    } else if c == '[' {
        Some((TokenKind::LBrack, 1))
    } else if c == ']' {
        Some((TokenKind::RBrack, 1))
    } else {
        None
    }
}

/// A text without its `_`.
fn strip_underscores(raw: &str) -> (out: String)
    ensures
        out@ == without_underscores(raw@),
{
    let chars: Vec<char> = chars_of(raw);
    let mut out: String = String::new();
    let mut i: usize = 0;
    assert(chars@.take(0) =~= Seq::<char>::empty());
    while i < chars.len()
        invariant
            i <= chars.len(),
            out@ == without_underscores(chars@.take(i as int)),
        decreases chars.len() - i,
    {
        assert(chars@.take(i + 1).drop_last() =~= chars@.take(i as int));
        if chars[i] != '_' {
            out.push(chars[i]);
        }
        i = i + 1;
    }
    assert(chars@.take(chars@.len() as int) =~= chars@);
    out
}

/// The number that decimal digits denote, where an `i64` holds it.
fn parse_digits(text: &str) -> (r: Option<i64>)
    requires
        forall|k: int| 0 <= k < text@.len() ==> is_digit(#[trigger] text@[k]),
    ensures
        match r {
            Some(n) => n == digits_value(text@),
            None => digits_value(text@) > i64::MAX,
        },
{
    let chars: Vec<char> = chars_of(text);
    let mut n: i64 = 0;
    let mut i: usize = 0;
    assert(chars@.take(0) =~= Seq::<char>::empty());
    while i < chars.len()
        invariant
            chars@ == text@,
            forall|k: int| 0 <= k < text@.len() ==> is_digit(#[trigger] text@[k]),
            i <= chars.len(),
            n == digits_value(chars@.take(i as int)),
            0 <= n,
        decreases chars.len() - i,
    {
        assert(chars@.take(i + 1).drop_last() =~= chars@.take(i as int));
        assert(is_digit(text@[i as int]));
        let d: i64 = (chars[i] as u32 - '0' as u32) as i64;
        if n > (i64::MAX - d) / 10 {
            proof {
                lemma_digits_value_grows(chars@, i + 1, chars@.len() as int);
                assert(chars@.take(chars@.len() as int) =~= chars@);
            }
            return None;
        }
        n = n * 10 + d;
        i = i + 1;
    }
    assert(chars@.take(chars@.len() as int) =~= chars@);
    Some(n)
}

proof fn lemma_digits_value_grows(s: Seq<char>, i: int, j: int)
    requires
        0 <= i <= j <= s.len(),
    ensures
        digits_value(s.take(i)) <= digits_value(s.take(j)),
    decreases j - i,
{
    if i < j {
        lemma_digits_value_grows(s, i, j - 1);
        assert(s.take(j).drop_last() =~= s.take(j - 1));
    }
}

/// A text of digits and `_` alone has only digits left without its `_`.
proof fn lemma_spaced_digits(t: Seq<char>)
    requires
        forall|k: int| 0 <= k < t.len() ==> is_digit(#[trigger] t[k]) || t[k] == '_',
    ensures
        forall|k: int|
            0 <= k < without_underscores(t).len() ==> is_digit(
                #[trigger] without_underscores(t)[k],
            ),
    decreases t.len(),
{
    if t.len() > 0 {
        assert forall|k: int| 0 <= k < t.drop_last().len() implies is_digit(
            #[trigger] t.drop_last()[k],
        ) || t.drop_last()[k] == '_' by {
            assert(t.drop_last()[k] == t[k]);
        }
        lemma_spaced_digits(t.drop_last());
        assert(is_digit(t[t.len() - 1]) || t[t.len() - 1] == '_');
        let rest = without_underscores(t.drop_last());
        assert forall|k: int| 0 <= k < without_underscores(t).len() implies is_digit(
            #[trigger] without_underscores(t)[k],
        ) by {
            if k < rest.len() {
                assert(is_digit(rest[k]));
            }
        }
    }
}

proof fn lemma_run_class(s: Seq<char>, pos: int, class: spec_fn(char) -> bool)
    ensures
        forall|k: int| pos <= k < run_end(s, pos, class) ==> class(#[trigger] s[k]),
    decreases s.len() - pos,
{
    if 0 <= pos < s.len() && class(s[pos]) {
        lemma_run_class(s, pos + 1, class);
    }
}

proof fn lemma_spaced_run(s: Seq<char>, at: int, end: int)
    requires
        0 <= at < s.len(),
        is_digit(s[at]),
        end == run_end(s, at + 1, spaced_digits()),
    ensures
        forall|k: int|
            0 <= k < without_underscores(s.subrange(at, end)).len() ==> is_digit(
                #[trigger] without_underscores(s.subrange(at, end))[k],
            ),
{
    lemma_run_end(s, at + 1, spaced_digits());
    lemma_run_class(s, at + 1, spaced_digits());
    let t = s.subrange(at, end);
    assert forall|k: int| 0 <= k < t.len() implies is_digit(#[trigger] t[k]) || t[k] == '_' by {
        assert(t[k] == s[at + k]);
        if k > 0 {
            assert(spaced_digits()(s[at + k]));
        }
    }
    lemma_spaced_digits(t);
}

/// What `tokens` are followed by.
spec fn before(
    tokens: Seq<TokenView>,
    rest: Result<Seq<TokenView>, LexErrorView>,
) -> Result<Seq<TokenView>, LexErrorView> {
    match rest {
        Ok(ts) => Ok(tokens + ts),
        Err(e) => Err(e),
    }
}

/// The tokens of a source text.
pub fn lex(source: &str) -> (r: Result<Vec<Token>, LexError>)
    requires
        source@.len() < u32::MAX,
    ensures
        match lex_model(source@) {
            Ok(ts) => r matches Ok(v) && tokens_of(v@) == ts,
            Err(e) => r matches Err(x) && x@ == e,
        },
{
    let mut lexer: Lexer = Lexer::new(source);
    let mut tokens: Vec<Token> = Vec::new();
    let ghost s = source@;
    assert(before(tokens_of(tokens@), lex_model(s)) == lex_model(s)) by {
        if let Ok(ts) = lex_model(s) {
            assert(tokens_of(tokens@) + ts =~= ts);
        }
    }
    loop
        invariant
            lexer.wf(),
            s == source@,
            lexer.chars@ == s,
            lex_model(s) == before(tokens_of(tokens@), lex_from(s, lexer.state())),
        decreases s.len() - lexer.pos,
    {
        proof {
            lemma_next_advances(s, lexer.state());
        }
        match lexer.next_token() {
            Err(e) => {
                return Err(e);
            },
            Ok(token) => {
                let done: bool = match &token.kind {
                    TokenKind::Eof => true,
                    _ => false,
                };
                let ghost ts = tokens_of(tokens@);
                let ghost t = token@;
                tokens.push(token);
                proof {
                    assert(tokens_of(tokens@) =~= ts.push(t));
                    assert(done == is_eof(t));
                    if done {
                        assert(ts + seq![t] =~= ts.push(t));
                    } else {
                        if let Ok(rest) = lex_from(s, lexer.state()) {
                            assert(ts + (seq![t] + rest) =~= ts.push(t) + rest);
                        }
                    }
                }
                if done {
                    return Ok(tokens);
                }
            },
        }
    }
}

/// How many line breaks stand before a position.
pub open spec fn breaks_before(s: Seq<char>, pos: int) -> nat {
    s.take(pos).filter(|c: char| c == '\n').len()
}

/// A line is one more than the line breaks before it. A column is one more than
/// the characters since the last line break, or since the start of the text.
pub proof fn law_places_count_the_text(s: Seq<char>, pos: int)
    requires
        0 <= pos <= s.len(),
    ensures
        line_at(s, pos) == 1 + breaks_before(s, pos),
        forall|b: int|
            0 <= b < pos && #[trigger] s[b] == '\n' && (forall|k: int|
                b < k < pos ==> #[trigger] s[k] != '\n') ==> col_at(s, pos) == pos - b,
        (forall|k: int| 0 <= k < pos ==> #[trigger] s[k] != '\n') ==> col_at(s, pos) == pos + 1,
    decreases pos,
{
    let is_break = |c: char| c == '\n';
    reveal(Seq::filter);
    if pos > 0 {
        law_places_count_the_text(s, pos - 1);
        assert(s.take(pos).drop_last() =~= s.take(pos - 1));
        assert(s.take(pos).last() == s[pos - 1]);
    }
}

/// Tokens end with the end mark, which stands nowhere else.
pub open spec fn ends_with_eof(ts: Seq<TokenView>) -> bool {
    &&& ts.len() > 0
    &&& forall|i: int| 0 <= i < ts.len() ==> (is_eof(#[trigger] ts[i]) <==> i == ts.len() - 1)
}

proof fn lemma_ends_with_eof(s: Seq<char>, st: LexState)
    requires
        0 <= st.pos <= s.len(),
    ensures
        lex_from(s, st) matches Ok(ts) ==> ends_with_eof(ts),
    decreases s.len() - st.pos,
{
    lemma_next_advances(s, st);
    if let Ok((t, next)) = next_model(s, st) {
        if !is_eof(t) {
            lemma_ends_with_eof(s, next);
            if let Ok(rest) = lex_from(s, next) {
                let ts = seq![t] + rest;
                assert forall|i: int| 0 <= i < ts.len() implies (is_eof(#[trigger] ts[i]) <==> i
                    == ts.len() - 1) by {
                    if i > 0 {
                        assert(ts[i] == rest[i - 1]);
                    }
                }
            }
        }
    }
}

/// The tokens of a text end with the end mark, which stands nowhere else.
pub proof fn law_end_mark_is_last(s: Seq<char>)
    ensures
        lex_model(s) matches Ok(ts) ==> ends_with_eof(ts),
{
    lemma_ends_with_eof(s, lex_start());
}

pub open spec fn is_line_break(t: TokenView) -> bool {
    t.kind == TokenKindView::Plain(TokenKind::Newline)
}

/// The bracket depth behind tokens.
pub open spec fn depth_of(ts: Seq<TokenView>) -> int
    decreases ts.len(),
{
    if ts.len() == 0 {
        0
    } else {
        depth_of(ts.drop_last()) + depth_change(ts.last().kind)
    }
}

/// Whether more is to come behind tokens: there are none yet, or the last one
/// asks for more.
pub open spec fn asks_for_more(ts: Seq<TokenView>) -> bool {
    ts.len() == 0 || continues(ts.last().kind)
}

proof fn lemma_line_breaks(s: Seq<char>, st: LexState, before: Seq<TokenView>)
    requires
        0 <= st.pos <= s.len(),
        st.depth == depth_of(before),
        st.continuation == asks_for_more(before),
    ensures
        lex_from(s, st) matches Ok(ts) ==> forall|i: int|
            0 <= i < ts.len() && is_line_break(#[trigger] ts[i]) ==> {
                &&& !asks_for_more(before + ts.take(i))
                &&& depth_of(before + ts.take(i)) == 0
            },
    decreases s.len() - st.pos,
{
    lemma_next_advances(s, st);
    lemma_gap(s, st.pos, st.depth == 0 && !st.continuation);
    if let Gap::Lexeme(p) = gap(s, st.pos, st.depth == 0 && !st.continuation) {
        if p < s.len() {
            lemma_lexeme_at(s, p);
        }
    }
    if let Ok((t, next)) = next_model(s, st) {
        if !is_eof(t) {
            let with = before.push(t);
            assert(with.drop_last() =~= before);
            lemma_line_breaks(s, next, with);
            if let Ok(rest) = lex_from(s, next) {
                let ts = seq![t] + rest;
                assert forall|i: int| 0 <= i < ts.len() && is_line_break(#[trigger] ts[i]) implies {
                    &&& !asks_for_more(before + ts.take(i))
                    &&& depth_of(before + ts.take(i)) == 0
                } by {
                    if i == 0 {
                        assert(before + ts.take(0) =~= before);
                    } else {
                        assert(ts[i] == rest[i - 1]);
                        assert(before + ts.take(i) =~= with + rest.take(i - 1));
                    }
                }
            }
        } else {
            assert(lex_from(s, st) == Ok::<Seq<TokenView>, LexErrorView>(seq![t]));
        }
    }
}

/// A line break is a token only where it can end an expression: not at the
/// start of a text, not behind a token that asks for more (another line break
/// among them), and not inside brackets.
pub proof fn law_line_breaks(s: Seq<char>)
    ensures
        lex_model(s) matches Ok(ts) ==> forall|i: int|
            0 <= i < ts.len() && is_line_break(#[trigger] ts[i]) ==> {
                &&& i > 0
                &&& !continues(ts[i - 1].kind)
                &&& depth_of(ts.take(i)) == 0
            },
{
    let none = Seq::<TokenView>::empty();
    lemma_line_breaks(s, lex_start(), none);
    if let Ok(ts) = lex_model(s) {
        assert forall|i: int| 0 <= i < ts.len() && is_line_break(#[trigger] ts[i]) implies {
            &&& i > 0
            &&& !continues(ts[i - 1].kind)
            &&& depth_of(ts.take(i)) == 0
        } by {
            assert(none + ts.take(i) =~= ts.take(i));
            if i > 0 {
                assert(ts.take(i).last() == ts[i - 1]);
            }
        }
    }
}

proof fn lemma_integers(s: Seq<char>, st: LexState)
    requires
        0 <= st.pos <= s.len(),
    ensures
        lex_from(s, st) matches Ok(ts) ==> forall|i: int|
            0 <= i < ts.len() ==> ((#[trigger] ts[i]).kind matches TokenKindView::Plain(
                TokenKind::Int(n),
            ) ==> n >= 0),
    decreases s.len() - st.pos,
{
    lemma_next_advances(s, st);
    if let Ok((t, next)) = next_model(s, st) {
        if !is_eof(t) {
            lemma_integers(s, next);
            if let Ok(rest) = lex_from(s, next) {
                let ts = seq![t] + rest;
                assert forall|i: int| 0 <= i < ts.len() implies ((#[trigger] ts[i]).kind matches
                    TokenKindView::Plain(TokenKind::Int(n)) ==> n >= 0) by {
                    if i > 0 {
                        assert(ts[i] == rest[i - 1]);
                    }
                }
            }
        } else {
            assert(lex_from(s, st) == Ok::<Seq<TokenView>, LexErrorView>(seq![t]));
        }
    }
}

/// An integer token is never negative: a sign is a token of its own.
pub proof fn law_integers_carry_no_sign(s: Seq<char>)
    ensures
        lex_model(s) matches Ok(ts) ==> forall|i: int|
            0 <= i < ts.len() ==> ((#[trigger] ts[i]).kind matches TokenKindView::Plain(
                TokenKind::Int(n),
            ) ==> n >= 0),
{
    lemma_integers(s, lex_start());
}

/// Whether one place comes before another in a text.
pub open spec fn comes_before(a: Span, b: Span) -> bool {
    a.line < b.line || (a.line == b.line && a.col < b.col)
}

proof fn lemma_places_grow(s: Seq<char>, p: int, q: int)
    requires
        0 <= p < q <= s.len(),
    ensures
        line_at(s, p) < line_at(s, q) || (line_at(s, p) == line_at(s, q) && col_at(s, p) < col_at(
            s,
            q,
        )),
    decreases q,
{
    lemma_place_bounds(s, p);
    lemma_place_bounds(s, q - 1);
    if p < q - 1 {
        lemma_places_grow(s, p, q - 1);
    }
}

/// Whether a token stands at a position.
spec fn stands_at(s: Seq<char>, t: TokenView, p: int) -> bool {
    0 <= p <= s.len() && t.span == span_at(s, p)
}

/// Whether a token stands at a position or behind it.
spec fn stands_from(s: Seq<char>, t: TokenView, pos: int) -> bool {
    exists|p: int| pos <= p && #[trigger] stands_at(s, t, p)
}

proof fn lemma_token_order(s: Seq<char>, st: LexState)
    requires
        s.len() < u32::MAX,
        0 <= st.pos <= s.len(),
    ensures
        lex_from(s, st) matches Ok(ts) ==> {
            &&& forall|i: int|
                0 <= i < ts.len() ==> stands_from(s, #[trigger] ts[i], st.pos)
            &&& forall|i: int, j: int|
                0 <= i < j < ts.len() ==> comes_before(
                    (#[trigger] ts[i]).span,
                    (#[trigger] ts[j]).span,
                )
        },
    decreases s.len() - st.pos,
{
    lemma_next_advances(s, st);
    let breaks = st.depth == 0 && !st.continuation;
    lemma_gap(s, st.pos, breaks);
    if let Ok((t, next)) = next_model(s, st) {
        let p = match gap(s, st.pos, breaks) {
            Gap::Lexeme(p) => p,
            Gap::LineBreak(p) => p,
            Gap::Unclosed(p) => p,
        };
        assert(stands_at(s, t, p));
        if is_eof(t) {
            assert(lex_from(s, st) == Ok::<Seq<TokenView>, LexErrorView>(seq![t]));
        } else {
            if p < s.len() {
                lemma_lexeme_at(s, p);
            }
            assert(p < next.pos);
            lemma_token_order(s, next);
            if let Ok(rest) = lex_from(s, next) {
                let ts = seq![t] + rest;
                assert forall|i: int| 0 <= i < ts.len() implies stands_from(
                    s,
                    #[trigger] ts[i],
                    st.pos,
                ) by {
                    if i > 0 {
                        assert(ts[i] == rest[i - 1]);
                        let q = choose|q: int|
                            next.pos <= q && #[trigger] stands_at(s, rest[i - 1], q);
                        assert(stands_at(s, ts[i], q));
                    } else {
                        assert(stands_at(s, ts[0], p));
                    }
                }
                assert forall|i: int, j: int| 0 <= i < j < ts.len() implies comes_before(
                    (#[trigger] ts[i]).span,
                    (#[trigger] ts[j]).span,
                ) by {
                    assert(ts[j] == rest[j - 1]);
                    if i > 0 {
                        assert(ts[i] == rest[i - 1]);
                    } else {
                        let q = choose|q: int|
                            next.pos <= q && #[trigger] stands_at(s, rest[j - 1], q);
                        lemma_places_grow(s, p, q);
                        lemma_place_bounds(s, p);
                        lemma_place_bounds(s, q);
                    }
                }
            }
        }
    }
}

/// Tokens come in the order of their places, no two at the same.
pub proof fn law_tokens_in_order(s: Seq<char>)
    requires
        s.len() < u32::MAX,
    ensures
        lex_model(s) matches Ok(ts) ==> forall|i: int, j: int|
            0 <= i < j < ts.len() ==> comes_before(
                (#[trigger] ts[i]).span,
                (#[trigger] ts[j]).span,
            ),
{
    lemma_token_order(s, lex_start());
}

} // verus!
