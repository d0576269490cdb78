//! From tokens to the syntax tree, by recursive descent.
//!
//! The grammar is stated once, as functions from a token sequence and a
//! position to a tree and the position behind it.

use crate::ast::{
    items_of, lemma_tensor_lit_view, names_of, row_of, rows_of, type_dims_of, BinOpKind, DimExpr,
    DimExprView, Expr, ExprView, Literal, LiteralView, Program, TopLevel, TopLevelView, TypeDim,
    TypeDimView, TypeExpr, TypeExprView,
};
use crate::lexer::{
    is_eof, kind_text, place_text, push_place, tokens_of, Span, Token, TokenKind, TokenKindView,
    TokenView,
};
use crate::text::{debug_of_str, same_text, str_debug};
use vstd::prelude::*;

verus! {

#[derive(Debug)]
pub enum ParseError {
    UnexpectedToken { got: TokenKind, expected: &'static str, span: Span },
    UnexpectedEof { expected: &'static str },
}

#[verifier::ext_equal]
pub enum ParseErrorView {
    UnexpectedToken { got: TokenKindView, expected: Seq<char>, span: Span },
    UnexpectedEof { expected: Seq<char> },
}

impl View for ParseError {
    type V = ParseErrorView;

    open spec fn view(&self) -> ParseErrorView {
        match *self {
            ParseError::UnexpectedToken { got, expected, span } => ParseErrorView::UnexpectedToken {
                got: got@,
                expected: expected@,
                span,
            },
            ParseError::UnexpectedEof { expected } => ParseErrorView::UnexpectedEof {
                expected: expected@,
            },
        }
    }
}

impl ParseErrorView {
    /// What is said of the error. `number` is how the value of a float reads.
    pub open spec fn text(self, number: Seq<char>) -> Seq<char> {
        match self {
            ParseErrorView::UnexpectedToken { got, expected, span } => "予期しないトークン "@
                + str_debug(kind_text(got, number)) + place_text(span.line, span.col) + " — "@
                + expected + " を期待"@,
            ParseErrorView::UnexpectedEof { expected } => "予期しないファイル末尾 — "@ + expected
                + " を期待"@,
        }
    }
}

impl ParseError {
    /// The literal of the unexpected token, where it is a float.
    pub fn float_literal(&self) -> (out: Option<&str>)
        ensures
            match self@ {
                ParseErrorView::UnexpectedToken { got: TokenKindView::Float(s), .. } => out matches
                    Some(x) && x@ == s,
                _ => out is None,
            },
    {
        match self {
            ParseError::UnexpectedToken { got: TokenKind::Float(s), .. } => Some(s.as_str()),
            _ => None,
        }
    }

    /// The message shown for the error. `number` is how the value of a float reads.
    pub fn message(&self, number: &str) -> (out: String)
        ensures
            out@ == self@.text(number@),
    {
        match self {
            ParseError::UnexpectedToken { got, expected, span } => {
                let mut out: String = "予期しないトークン ".to_owned();
                out.append(debug_of_str(got.text(number).as_str()).as_str());
                push_place(&mut out, span.line, span.col);
                out.append(" — ");
                out.append(expected);
                out.append(" を期待");
                out
            },
            ParseError::UnexpectedEof { expected } => {
                let mut out: String = "予期しないファイル末尾 — ".to_owned();
                out.append(expected);
                out.append(" を期待");
                out
            },
        }
    }
}

// ---------------------------------------------------------------------------
// The grammar
// ---------------------------------------------------------------------------

/// A tree and the position behind it, or the error.
pub type Parsed<T> = Result<(T, int), ParseErrorView>;

/// The kind of the token at a position; the end mark beyond the last one.
pub open spec fn kind_at(ts: Seq<TokenView>, pos: int) -> TokenKindView {
    if 0 <= pos < ts.len() {
        ts[pos].kind
    } else {
        TokenKindView::Plain(TokenKind::Eof)
    }
}

pub open spec fn is_at(ts: Seq<TokenView>, pos: int, kind: TokenKind) -> bool {
    kind_at(ts, pos) == TokenKindView::Plain(kind)
}

/// The error for the token at a position.
pub open spec fn unexpected(ts: Seq<TokenView>, pos: int, label: Seq<char>) -> ParseErrorView {
    ParseErrorView::UnexpectedToken { got: kind_at(ts, pos), expected: label, span: ts[pos].span }
}

/// Behind a token of the given kind, which has to stand at `pos`.
pub open spec fn behind(
    ts: Seq<TokenView>,
    pos: int,
    kind: TokenKind,
    label: Seq<char>,
) -> Result<int, ParseErrorView> {
    if is_at(ts, pos, kind) {
        Ok(pos + 1)
    } else {
        Err(unexpected(ts, pos, label))
    }
}

/// Behind the line breaks that stand at `pos`.
pub open spec fn past_breaks(ts: Seq<TokenView>, pos: int) -> int
    decreases ts.len() - pos,
{
    if is_at(ts, pos, TokenKind::Newline) {
        past_breaks(ts, pos + 1)
    } else {
        pos
    }
}

pub proof fn lemma_past_breaks(ts: Seq<TokenView>, pos: int)
    ensures
        pos <= past_breaks(ts, pos),
        pos <= ts.len() ==> past_breaks(ts, pos) <= ts.len(),
        !is_at(ts, past_breaks(ts, pos), TokenKind::Newline),
    decreases ts.len() - pos,
{
    if is_at(ts, pos, TokenKind::Newline) {
        lemma_past_breaks(ts, pos + 1);
    }
}

/// Whether parsing from `pos` moved to `p`. It always does: this only shows
/// that the definitions below are well founded.
pub open spec fn moved(ts: Seq<TokenView>, pos: int, p: int) -> bool {
    pos < p <= ts.len()
}

/// The result that no input has.
pub open spec fn stuck<T>() -> Parsed<T> {
    Err(ParseErrorView::UnexpectedEof { expected: Seq::empty() })
}

/// The names that stand one after another at `pos`.
pub open spec fn names_at(ts: Seq<TokenView>, pos: int) -> Seq<Seq<char>>
    decreases ts.len() - pos,
{
    if let TokenKindView::Ident(name) = kind_at(ts, pos) {
        seq![name] + names_at(ts, pos + 1)
    } else {
        Seq::empty()
    }
}

/// An operator that stands between two expressions.
pub enum Infix {
    Pipe,
    Op(BinOpKind),
}

/// The operators, by precedence from the loosest: `|>`; the comparisons;
/// `+` and `-`; `@`; `*` and `/`; `^`.
pub open spec fn infix_at(level: int, kind: TokenKindView) -> Option<Infix> {
    if level == 0 {
        match kind {
            TokenKindView::Plain(TokenKind::Pipe) => Some(Infix::Pipe),
            _ => None,
        }
    } else if level == 1 {
        match kind {
            TokenKindView::Plain(TokenKind::EqEq) => Some(Infix::Op(BinOpKind::Eq)),
            TokenKindView::Plain(TokenKind::BangEq) => Some(Infix::Op(BinOpKind::Ne)),
            TokenKindView::Plain(TokenKind::Lt) => Some(Infix::Op(BinOpKind::Lt)),
            TokenKindView::Plain(TokenKind::Le) => Some(Infix::Op(BinOpKind::Le)),
            TokenKindView::Plain(TokenKind::Gt) => Some(Infix::Op(BinOpKind::Gt)),
            TokenKindView::Plain(TokenKind::Ge) => Some(Infix::Op(BinOpKind::Ge)),
            _ => None,
        }
    } else if level == 2 {
        match kind {
            TokenKindView::Plain(TokenKind::Plus) => Some(Infix::Op(BinOpKind::Add)),
            TokenKindView::Plain(TokenKind::Minus) => Some(Infix::Op(BinOpKind::Sub)),
            _ => None,
        }
    } else if level == 3 {
        match kind {
            TokenKindView::Plain(TokenKind::At) => Some(Infix::Op(BinOpKind::MatMul)),
            _ => None,
        }
    } else if level == 4 {
        match kind {
            TokenKindView::Plain(TokenKind::Star) => Some(Infix::Op(BinOpKind::Mul)),
            TokenKindView::Plain(TokenKind::Slash) => Some(Infix::Op(BinOpKind::Div)),
            _ => None,
        }
    } else {
        match kind {
            TokenKindView::Plain(TokenKind::Caret) => Some(Infix::Op(BinOpKind::Pow)),
            _ => None,
        }
    }
}

/// How the operators of a level group.
pub enum Grouping {
    /// `a . b . c` is `(a . b) . c`.
    Left,
    /// `a . b . c` is `a . (b . c)`.
    Right,
    /// `a . b . c` is no expression.
    Never,
}

pub open spec fn grouping(level: int) -> Grouping {
    if level == 1 {
        Grouping::Never
    } else if level == 5 {
        Grouping::Right
    } else {
        Grouping::Left
    }
}

pub open spec fn joined(op: Infix, left: ExprView, right: ExprView) -> ExprView {
    match op {
        Infix::Pipe => ExprView::Pipe(Box::new(left), Box::new(right)),
        Infix::Op(op) => ExprView::BinOp { op, left: Box::new(left), right: Box::new(right) },
    }
}

/// An expression whose operators are those of `level` and tighter ones.
pub open spec fn binary_at(ts: Seq<TokenView>, pos: int, level: int) -> Parsed<ExprView>
    decreases
            ts.len() - pos,
            (if 0 <= level <= 5 {
                20 - level
            } else {
                14int
            }),
{
    if level < 0 || level > 5 {
        unary_at(ts, pos)
    } else {
        match binary_at(ts, pos, level + 1) {
            Err(e) => Err(e),
            Ok((left, p)) => if moved(ts, pos, p) {
                binary_rest(ts, left, p, level)
            } else {
                stuck()
            },
        }
    }
}

/// What `left` is the start of, at the given level.
pub open spec fn binary_rest(ts: Seq<TokenView>, left: ExprView, pos: int, level: int) -> Parsed<
    ExprView,
>
    decreases ts.len() - pos, 30int,
{
    proof {
        lemma_past_breaks(ts, pos + 1);
    }
    match infix_at(level, kind_at(ts, pos)) {
        None => Ok((left, pos)),
        Some(op) => match grouping(level) {
            Grouping::Right => match binary_at(ts, past_breaks(ts, pos + 1), level) {
                Err(e) => Err(e),
                Ok((right, p)) => Ok((joined(op, left, right), p)),
            },
            Grouping::Never => match binary_at(ts, past_breaks(ts, pos + 1), level + 1) {
                Err(e) => Err(e),
                Ok((right, p)) => Ok((joined(op, left, right), p)),
            },
            Grouping::Left => match binary_at(ts, past_breaks(ts, pos + 1), level + 1) {
                Err(e) => Err(e),
                Ok((right, p)) => if moved(ts, pos, p) {
                    binary_rest(ts, joined(op, left, right), p, level)
                } else {
                    stuck()
                },
            },
        },
    }
}

/// An expression.
pub open spec fn expr_at(ts: Seq<TokenView>, pos: int) -> Parsed<ExprView>
    decreases ts.len() - pos, 21int,
{
    binary_at(ts, pos, 0)
}

/// An application, or its negation.
pub open spec fn unary_at(ts: Seq<TokenView>, pos: int) -> Parsed<ExprView>
    decreases ts.len() - pos, 13int,
{
    if is_at(ts, pos, TokenKind::Minus) {
        match application_at(ts, pos + 1) {
            Err(e) => Err(e),
            Ok((e, p)) => Ok((ExprView::UnaryMinus(Box::new(e)), p)),
        }
    } else {
        application_at(ts, pos)
    }
}

/// Whether an argument can start with this token. `-` cannot: `10 - 3` is a
/// difference.
pub open spec fn starts_atom(kind: TokenKindView) -> bool {
    match kind {
        TokenKindView::Float(_) => true,
        TokenKindView::Ident(_) => true,
        TokenKindView::Plain(TokenKind::Int(_)) => true,
        TokenKindView::Plain(TokenKind::Bool(_)) => true,
        TokenKindView::Plain(TokenKind::LParen) => true,
        TokenKindView::Plain(TokenKind::LBrack) => true,
        TokenKindView::Plain(TokenKind::Let) => true,
        TokenKindView::Plain(TokenKind::If) => true,
        _ => false,
    }
}

/// A function and its arguments: `f a b` is `(f a) b`.
pub open spec fn application_at(ts: Seq<TokenView>, pos: int) -> Parsed<ExprView>
    decreases ts.len() - pos, 12int,
{
    match atom_at(ts, pos) {
        Err(e) => Err(e),
        Ok((f, p)) => if moved(ts, pos, p) {
            arguments_at(ts, f, p)
        } else {
            stuck()
        },
    }
}

pub open spec fn arguments_at(ts: Seq<TokenView>, f: ExprView, pos: int) -> Parsed<ExprView>
    decreases ts.len() - pos, 12int,
{
    if starts_atom(kind_at(ts, pos)) {
        match atom_at(ts, pos) {
            Err(e) => Err(e),
            Ok((a, p)) => if moved(ts, pos, p) {
                arguments_at(ts, ExprView::App(Box::new(f), Box::new(a)), p)
            } else {
                stuck()
            },
        }
    } else {
        Ok((f, pos))
    }
}

/// An expression that needs no brackets round it.
pub open spec fn atom_at(ts: Seq<TokenView>, pos: int) -> Parsed<ExprView>
    decreases ts.len() - pos, 11int,
{
    match kind_at(ts, pos) {
        TokenKindView::Float(x) => Ok((ExprView::Lit(LiteralView::Float(x)), pos + 1)),
        TokenKindView::Ident(name) => Ok((ExprView::Var(name), pos + 1)),
        TokenKindView::Plain(TokenKind::Int(n)) => Ok(
            (ExprView::Lit(LiteralView::Int(n)), pos + 1),
        ),
        TokenKindView::Plain(TokenKind::Bool(b)) => Ok(
            (ExprView::Lit(LiteralView::Bool(b)), pos + 1),
        ),
        TokenKindView::Plain(TokenKind::Let) => let_at(ts, pos),
        TokenKindView::Plain(TokenKind::If) => if_at(ts, pos),
        TokenKindView::Plain(TokenKind::LParen) => {
            proof {
                lemma_past_breaks(ts, pos + 1);
            }
            match expr_at(ts, past_breaks(ts, pos + 1)) {
                Err(e) => Err(e),
                Ok((e, p)) => match behind(ts, past_breaks(ts, p), TokenKind::RParen, ")"@) {
                    Err(e) => Err(e),
                    Ok(p) => Ok((e, p)),
                },
            }
        },
        TokenKindView::Plain(TokenKind::LBrack) => tensor_at(ts, pos),
        TokenKindView::Plain(TokenKind::Minus) => match atom_at(ts, pos + 1) {
            Err(e) => Err(e),
            Ok((e, p)) => Ok((ExprView::UnaryMinus(Box::new(e)), p)),
        },
        _ => Err(unexpected(ts, pos, "式"@)),
    }
}

/// The parameters of a definition and its `=`, and the line breaks behind it.
pub open spec fn head_at(ts: Seq<TokenView>, pos: int) -> Parsed<Seq<Seq<char>>> {
    let params = names_at(ts, pos);
    match behind(ts, pos + params.len(), TokenKind::Eq, "="@) {
        Err(e) => Err(e),
        Ok(p) => Ok((params, past_breaks(ts, p))),
    }
}

/// `let name params = value in body`.
pub open spec fn let_at(ts: Seq<TokenView>, pos: int) -> Parsed<ExprView>
    decreases ts.len() - pos, 10int,
{
    match kind_at(ts, pos + 1) {
        TokenKindView::Ident(name) => match head_at(ts, pos + 2) {
            Err(e) => Err(e),
            Ok((params, p)) => if moved(ts, pos, p) {
                match expr_at(ts, p) {
                    Err(e) => Err(e),
                    Ok((value, q)) => match behind(ts, past_breaks(ts, q), TokenKind::In, "in"@) {
                        Err(e) => Err(e),
                        Ok(r) => if moved(ts, pos, past_breaks(ts, r)) {
                            match expr_at(ts, past_breaks(ts, r)) {
                                Err(e) => Err(e),
                                Ok((body, end)) => Ok(
                                    (
                                        ExprView::Let {
                                            name,
                                            params,
                                            value: Box::new(value),
                                            body: Box::new(body),
                                        },
                                        end,
                                    ),
                                ),
                            }
                        } else {
                            stuck()
                        },
                    },
                }
            } else {
                stuck()
            },
        },
        _ => Err(unexpected(ts, pos + 1, "識別子"@)),
    }
}

/// An expression behind which, line breaks apart, a keyword stands; the
/// position is the one behind the keyword and its line breaks.
pub open spec fn clause_at(
    ts: Seq<TokenView>,
    pos: int,
    keyword: TokenKind,
    label: Seq<char>,
) -> Parsed<ExprView>
    decreases ts.len() - pos, 22int,
{
    match expr_at(ts, pos) {
        Err(e) => Err(e),
        Ok((e, p)) => match behind(ts, past_breaks(ts, p), keyword, label) {
            Err(e) => Err(e),
            Ok(q) => Ok((e, past_breaks(ts, q))),
        },
    }
}

/// `if cond then a else b`.
pub open spec fn if_at(ts: Seq<TokenView>, pos: int) -> Parsed<ExprView>
    decreases ts.len() - pos, 10int,
{
    proof {
        lemma_past_breaks(ts, pos + 1);
    }
    if !is_at(ts, pos, TokenKind::If) {
        stuck()
    } else {
        match clause_at(ts, past_breaks(ts, pos + 1), TokenKind::Then, "then"@) {
            Err(e) => Err(e),
            Ok((cond, p)) => if moved(ts, pos, p) {
                match clause_at(ts, p, TokenKind::Else, "else"@) {
                    Err(e) => Err(e),
                    Ok((then, q)) => if moved(ts, pos, q) {
                        match expr_at(ts, q) {
                            Err(e) => Err(e),
                            Ok((else_, end)) => Ok(
                                (
                                    ExprView::If {
                                        cond: Box::new(cond),
                                        then: Box::new(then),
                                        else_: Box::new(else_),
                                    },
                                    end,
                                ),
                            ),
                        }
                    } else {
                        stuck()
                    },
                }
            } else {
                stuck()
            },
        }
    }
}

/// A tensor literal, from its `[`.
pub open spec fn tensor_at(ts: Seq<TokenView>, pos: int) -> Parsed<ExprView>
    decreases ts.len() - pos, 10int,
{
    proof {
        lemma_past_breaks(ts, pos + 1);
    }
    if !is_at(ts, pos, TokenKind::LBrack) {
        stuck()
    } else if is_at(ts, past_breaks(ts, pos + 1), TokenKind::RBrack) {
        Ok((ExprView::TensorLit(Seq::empty()), past_breaks(ts, pos + 1) + 1))
    } else {
        rows_at(ts, seq![Seq::empty()], past_breaks(ts, pos + 1))
    }
}

/// The rest of a tensor literal whose `rows` have been read so far. `,` stands
/// between elements and may be left out or repeated; `;` starts a new row.
pub open spec fn rows_at(ts: Seq<TokenView>, rows: Seq<Seq<ExprView>>, pos: int) -> Parsed<ExprView>
    decreases ts.len() - pos, 30int,
{
    let q = past_breaks(ts, pos);
    proof {
        lemma_past_breaks(ts, pos);
    }
    match kind_at(ts, q) {
        TokenKindView::Plain(TokenKind::RBrack) => Ok((ExprView::TensorLit(rows), q + 1)),
        TokenKindView::Plain(TokenKind::Comma) => rows_at(ts, rows, q + 1),
        TokenKindView::Plain(TokenKind::Semicolon) => rows_at(ts, rows.push(Seq::empty()), q + 1),
        _ => if pos > ts.len() {
            stuck()
        } else {
            match expr_at(ts, q) {
                Err(e) => Err(e),
                Ok((e, p)) => if moved(ts, pos, p) {
                    rows_at(ts, rows.drop_last().push(rows.last().push(e)), p)
                } else {
                    stuck()
                },
            }
        },
    }
}

// Types

/// A dimension: an integer or a name.
pub open spec fn dim_atom_at(ts: Seq<TokenView>, pos: int) -> Parsed<DimExprView> {
    match kind_at(ts, pos) {
        TokenKindView::Plain(TokenKind::Int(n)) => Ok((DimExprView::Lit(n as usize), pos + 1)),
        TokenKindView::Ident(name) => Ok((DimExprView::Var(name), pos + 1)),
        _ => Err(unexpected(ts, pos, "次元（整数または識別子）"@)),
    }
}

/// The product that `left` is the start of.
pub open spec fn dim_term_rest(ts: Seq<TokenView>, left: DimExprView, pos: int) -> Parsed<
    DimExprView,
>
    decreases ts.len() - pos,
{
    if is_at(ts, pos, TokenKind::Star) {
        match dim_atom_at(ts, pos + 1) {
            Err(e) => Err(e),
            Ok((right, p)) => if moved(ts, pos, p) {
                dim_term_rest(ts, DimExprView::Mul(Box::new(left), Box::new(right)), p)
            } else {
                stuck()
            },
        }
    } else {
        Ok((left, pos))
    }
}

/// A product of dimensions.
pub open spec fn dim_term_at(ts: Seq<TokenView>, pos: int) -> Parsed<DimExprView> {
    match dim_atom_at(ts, pos) {
        Err(e) => Err(e),
        Ok((left, p)) => dim_term_rest(ts, left, p),
    }
}

/// The sum that `left` is the start of.
pub open spec fn dim_expr_rest(ts: Seq<TokenView>, left: DimExprView, pos: int) -> Parsed<
    DimExprView,
>
    decreases ts.len() - pos,
{
    if is_at(ts, pos, TokenKind::Plus) || is_at(ts, pos, TokenKind::Minus) {
        match dim_term_at(ts, pos + 1) {
            Err(e) => Err(e),
            Ok((right, p)) => if moved(ts, pos, p) {
                dim_expr_rest(
                    ts,
                    if is_at(ts, pos, TokenKind::Plus) {
                        DimExprView::Add(Box::new(left), Box::new(right))
                    } else {
                        DimExprView::Sub(Box::new(left), Box::new(right))
                    },
                    p,
                )
            } else {
                stuck()
            },
        }
    } else {
        Ok((left, pos))
    }
}

/// Shape arithmetic: sums and differences of products, grouped to the left.
pub open spec fn dim_expr_at(ts: Seq<TokenView>, pos: int) -> Parsed<DimExprView> {
    match dim_term_at(ts, pos) {
        Err(e) => Err(e),
        Ok((left, p)) => dim_expr_rest(ts, left, p),
    }
}

/// A dimension that needs no arithmetic is a plain one.
pub open spec fn folded_dim(e: DimExprView) -> TypeDimView {
    match e {
        DimExprView::Lit(n) => TypeDimView::Fixed(n),
        DimExprView::Var(s) => TypeDimView::Var(s),
        e => TypeDimView::Expr(e),
    }
}

/// The dimensions of a tensor type up to its `]`, behind those already read.
pub open spec fn dims_at(ts: Seq<TokenView>, dims: Seq<TypeDimView>, pos: int) -> Parsed<
    TypeExprView,
>
    decreases ts.len() - pos,
{
    match dim_expr_at(ts, pos) {
        Err(e) => Err(e),
        Ok((d, p)) => {
            let dims = dims.push(folded_dim(d));
            if is_at(ts, p, TokenKind::Comma) {
                if moved(ts, pos, p) {
                    dims_at(ts, dims, p + 1)
                } else {
                    stuck()
                }
            } else if is_at(ts, p, TokenKind::RBrack) {
                Ok((TypeExprView::Tensor(dims), p + 1))
            } else {
                Err(unexpected(ts, p, "`,` または `]`"@))
            }
        },
    }
}

/// The names behind a type name are its arguments: `T a b` is `(T a) b`.
pub open spec fn type_args_at(ts: Seq<TokenView>, ty: TypeExprView, pos: int) -> Parsed<
    TypeExprView,
>
    decreases ts.len() - pos,
{
    if let TokenKindView::Ident(arg) = kind_at(ts, pos) {
        type_args_at(
            ts,
            TypeExprView::App(Box::new(ty), Box::new(TypeExprView::Named(arg))),
            pos + 1,
        )
    } else {
        Ok((ty, pos))
    }
}

pub open spec fn type_atom_at(ts: Seq<TokenView>, pos: int) -> Parsed<TypeExprView>
    decreases ts.len() - pos, 0int,
{
    match kind_at(ts, pos) {
        TokenKindView::Ident(name) => if name == "Tensor"@ && is_at(
            ts,
            pos + 1,
            TokenKind::LBrack,
        ) {
            dims_at(ts, Seq::empty(), pos + 2)
        } else {
            type_args_at(ts, TypeExprView::Named(name), pos + 1)
        },
        TokenKindView::Plain(TokenKind::LParen) => match type_at(ts, pos + 1) {
            Err(e) => Err(e),
            Ok((t, p)) => match behind(ts, p, TokenKind::RParen, ")"@) {
                Err(e) => Err(e),
                Ok(q) => Ok((t, q)),
            },
        },
        _ => Err(unexpected(ts, pos, "型式"@)),
    }
}

/// A type: `A -> B -> C` is `A -> (B -> C)`.
pub open spec fn type_at(ts: Seq<TokenView>, pos: int) -> Parsed<TypeExprView>
    decreases ts.len() - pos, 1int,
{
    match type_atom_at(ts, pos) {
        Err(e) => Err(e),
        Ok((t, p)) => if is_at(ts, p, TokenKind::Arrow) {
            if moved(ts, pos, p) {
                match type_at(ts, p + 1) {
                    Err(e) => Err(e),
                    Ok((rhs, q)) => Ok((TypeExprView::Arrow(Box::new(t), Box::new(rhs)), q)),
                }
            } else {
                stuck()
            }
        } else {
            Ok((t, p))
        },
    }
}

// Programs

/// `name : type` or `name params = body`.
pub open spec fn top_level_at(ts: Seq<TokenView>, pos: int) -> Parsed<TopLevelView> {
    match kind_at(ts, pos) {
        TokenKindView::Ident(name) => if is_at(ts, pos + 1, TokenKind::Colon) {
            match type_at(ts, pos + 2) {
                Err(e) => Err(e),
                Ok((ty, p)) => Ok((TopLevelView::TypeAnnotation { name, ty }, p)),
            }
        } else {
            match head_at(ts, pos + 1) {
                Err(e) => Err(e),
                Ok((params, p)) => match expr_at(ts, p) {
                    Err(e) => Err(e),
                    Ok((body, q)) => Ok((TopLevelView::Binding { name, params, body }, q)),
                },
            }
        },
        _ => Err(unexpected(ts, pos, "識別子（トップレベル定義名）"@)),
    }
}

/// The items from `pos` to the end mark, behind those already read.
pub open spec fn items_at(ts: Seq<TokenView>, items: Seq<TopLevelView>, pos: int) -> Result<
    Seq<TopLevelView>,
    ParseErrorView,
>
    decreases ts.len() - pos,
{
    proof {
        lemma_past_breaks(ts, pos);
    }
    let q = past_breaks(ts, pos);
    if is_at(ts, q, TokenKind::Eof) {
        Ok(items)
    } else {
        match top_level_at(ts, q) {
            Err(e) => Err(e),
            Ok((item, p)) => if moved(ts, q, p) {
                items_at(ts, items.push(item), p)
            } else {
                Err(ParseErrorView::UnexpectedEof { expected: Seq::empty() })
            },
        }
    }
}

/// The program that a token sequence is.
pub open spec fn parse_model(ts: Seq<TokenView>) -> Result<Seq<TopLevelView>, ParseErrorView> {
    items_at(ts, Seq::empty(), 0)
}

/// Whether tokens end with the end mark.
pub open spec fn is_terminated(ts: Seq<TokenView>) -> bool {
    ts.len() > 0 && is_eof(ts.last())
}

// ---------------------------------------------------------------------------
// The parser
// ---------------------------------------------------------------------------

/// Reads a token sequence that ends with the end mark.
pub struct Parser<'a> {
    tokens: &'a [Token],
    pos: usize,
}

/// Whether what was read, and where reading stopped, is what the grammar says.
pub open spec fn agrees<T: View>(
    r: Result<T, ParseError>,
    end: int,
    model: Parsed<<T as View>::V>,
) -> bool {
    match model {
        Ok((t, p)) => r matches Ok(x) && x@ == t && end == p,
        Err(e) => r matches Err(x) && x@ == e,
    }
}

/// The operator of a level that a token is.
fn infix_of(level: usize, kind: &TokenKind) -> (op: Option<Infix>)
    requires
        level <= 5,
    ensures
        op == infix_at(level as int, kind@),
{
    if level == 0 {
        match kind {
            TokenKind::Pipe => Some(Infix::Pipe),
            _ => None,
        }
    } else if level == 1 {
        match kind {
            TokenKind::EqEq => Some(Infix::Op(BinOpKind::Eq)),
            TokenKind::BangEq => Some(Infix::Op(BinOpKind::Ne)),
            TokenKind::Lt => Some(Infix::Op(BinOpKind::Lt)),
            TokenKind::Le => Some(Infix::Op(BinOpKind::Le)),
            TokenKind::Gt => Some(Infix::Op(BinOpKind::Gt)),
            TokenKind::Ge => Some(Infix::Op(BinOpKind::Ge)),
            _ => None,
        }
    } else if level == 2 {
        match kind {
            TokenKind::Plus => Some(Infix::Op(BinOpKind::Add)),
            TokenKind::Minus => Some(Infix::Op(BinOpKind::Sub)),
            _ => None,
        }
    } else if level == 3 {
        match kind {
            TokenKind::At => Some(Infix::Op(BinOpKind::MatMul)),
            _ => None,
        }
    } else if level == 4 {
        match kind {
            TokenKind::Star => Some(Infix::Op(BinOpKind::Mul)),
            TokenKind::Slash => Some(Infix::Op(BinOpKind::Div)),
            _ => None,
        }
    } else {
        match kind {
            TokenKind::Caret => Some(Infix::Op(BinOpKind::Pow)),
            _ => None,
        }
    }
}

fn join(op: Infix, left: Expr, right: Expr) -> (e: Expr)
    ensures
        e@ == joined(op, left@, right@),
{
    match op {
        Infix::Pipe => Expr::Pipe(Box::new(left), Box::new(right)),
        Infix::Op(op) => Expr::BinOp { op, left: Box::new(left), right: Box::new(right) },
    }
}

impl<'a> Parser<'a> {
    pub closed spec fn wf(&self) -> bool {
        &&& is_terminated(self.model())
        &&& self.pos < self.tokens@.len()
    }

    pub closed spec fn model(&self) -> Seq<TokenView> {
        tokens_of(self.tokens@)
    }

    pub closed spec fn at(&self) -> int {
        self.pos as int
    }

    fn new(tokens: &'a [Token]) -> (out: Parser<'a>)
        requires
            is_terminated(tokens_of(tokens@)),
        ensures
            out.wf(),
            out.model() == tokens_of(tokens@),
            out.at() == 0,
    {
        Parser { tokens, pos: 0 }
    }

    fn peek(&self) -> (k: &'a TokenKind)
        requires
            self.wf(),
        ensures
            k@ == kind_at(self.model(), self.at()),
    {
        &self.tokens[self.pos].kind
    }

    fn peek_token(&self) -> (t: &'a Token)
        requires
            self.wf(),
        ensures
            t@ == self.model()[self.at()],
            t.kind@ == kind_at(self.model(), self.at()),
    {
        &self.tokens[self.pos]
    }

    /// Moves on, but never behind the end mark.
    fn advance(&mut self) -> (t: &'a Token)
        requires
            old(self).wf(),
        ensures
            final(self).wf(),
            final(self).model() == old(self).model(),
            t@ == old(self).model()[old(self).at()],
            !is_at(old(self).model(), old(self).at(), TokenKind::Eof) ==> final(self).at() == old(
                self,
            ).at() + 1,
            final(self).at() >= old(self).at(),
            final(self).at() < final(self).model().len(),
    {
        let t: &'a Token = &self.tokens[self.pos];
        if self.pos + 1 < self.tokens.len() {
            self.pos = self.pos + 1;
        }
        t
    }

    fn unexpected<T>(&self, label: &'static str) -> (r: Result<T, ParseError>)
        requires
            self.wf(),
        ensures
            r matches Err(e) && e@ == unexpected(self.model(), self.at(), label@),
    {
        let token: &Token = self.peek_token();
        Err(
            ParseError::UnexpectedToken {
                got: token.kind.clone(),
                expected: label,
                span: token.span,
            },
        )
    }

    /// Steps over a token of the given kind.
    fn expect(&mut self, kind: &TokenKind, label: &'static str) -> (r: Result<(), ParseError>)
        requires
            old(self).wf(),
            *kind == TokenKind::Eq || *kind == TokenKind::In || *kind == TokenKind::Then || *kind
                == TokenKind::Else || *kind == TokenKind::RParen,
        ensures
            final(self).wf(),
            final(self).model() == old(self).model(),
            match behind(old(self).model(), old(self).at(), *kind, label@) {
                Ok(p) => r is Ok && final(self).at() == p,
                Err(e) => r matches Err(x) && x@ == e,
            },
            final(self).at() >= old(self).at(),
            final(self).at() < final(self).model().len(),
    {
        if self.peek().same(kind) {
            self.advance();
            Ok(())
        } else {
            self.unexpected(label)
        }
    }

    fn eat_newlines(&mut self)
        requires
            old(self).wf(),
        ensures
            final(self).wf(),
            final(self).model() == old(self).model(),
            final(self).at() == past_breaks(old(self).model(), old(self).at()),
            final(self).at() >= old(self).at(),
            final(self).at() < final(self).model().len(),
    {
        let ghost ts = self.model();
        let ghost start = self.at();
        while matches!(self.peek(), TokenKind::Newline)
            invariant
                self.wf(),
                self.model() == ts,
                self.at() >= start,
                past_breaks(ts, start) == past_breaks(ts, self.at()),
            decreases ts.len() - self.at(),
        {
            self.advance();
        }
    }

    fn at_eof(&self) -> (b: bool)
        requires
            self.wf(),
        ensures
            b == is_at(self.model(), self.at(), TokenKind::Eof),
    {
        matches!(self.peek(), TokenKind::Eof)
    }

    // Programs

    fn parse_program(&mut self) -> (r: Result<Program, ParseError>)
        requires
            old(self).wf(),
            old(self).at() == 0,
        ensures
            final(self).wf(),
            match parse_model(old(self).model()) {
                Ok(items) => r matches Ok(program) && items_of(program@) == items,
                Err(e) => r matches Err(x) && x@ == e,
            },
    {
        let ghost ts = self.model();
        let mut items: Vec<TopLevel> = Vec::new();
        assert(items_of(items@) =~= Seq::empty());
        self.eat_newlines();
        proof {
            lemma_past_breaks(ts, 0);
        }
        while !self.at_eof()
            invariant
                self.wf(),
                self.model() == ts,
                ts == old(self).model(),
                !is_at(ts, self.at(), TokenKind::Newline),
                items_at(ts, Seq::empty(), 0) == items_at(ts, items_of(items@), self.at()),
            decreases ts.len() - self.at(),
        {
            let ghost before = items_of(items@);
            let ghost from = self.at();
            let item: TopLevel = match self.parse_top_level() {
                Ok(item) => item,
                Err(e) => {
                    return Err(e);
                },
            };
            let ghost model = item@;
            items.push(item);
            assert(items_of(items@) =~= before.push(model));
            let ghost p = self.at();
            assert(items_at(ts, before, from) == items_at(ts, items_of(items@), p));
            self.eat_newlines();
            proof {
                lemma_past_breaks(ts, p);
                assert(items_at(ts, items_of(items@), p) == items_at(
                    ts,
                    items_of(items@),
                    self.at(),
                ));
            }
        }
        Ok(items)
    }

    fn parse_top_level(&mut self) -> (r: Result<TopLevel, ParseError>)
        requires
            old(self).wf(),
        ensures
            final(self).wf(),
            final(self).model() == old(self).model(),
            agrees(r, final(self).at(), top_level_at(old(self).model(), old(self).at())),
            r is Ok ==> moved(old(self).model(), old(self).at(), final(self).at()),
    {
        let name: String = match self.peek() {
            TokenKind::Ident(n) => n.clone(),
            _ => {
                return self.unexpected("識別子（トップレベル定義名）");
            },
        };
        self.advance();
        if matches!(self.peek(), TokenKind::Colon) {
            self.advance();
            return match self.parse_type_expr() {
                Ok(ty) => Ok(TopLevel::TypeAnnotation { name, ty }),
                Err(e) => Err(e),
            };
        }
        let params: Vec<String> = match self.parse_head() {
            Ok(params) => params,
            Err(e) => {
                return Err(e);
            },
        };
        match self.parse_expr() {
            Ok(body) => Ok(TopLevel::Binding { name, params, body }),
            Err(e) => Err(e),
        }
    }

    /// Reads the parameters of a definition and its `=`.
    fn parse_head(&mut self) -> (r: Result<Vec<String>, ParseError>)
        requires
            old(self).wf(),
        ensures
            final(self).wf(),
            final(self).model() == old(self).model(),
            match head_at(old(self).model(), old(self).at()) {
                Ok((params, p)) => r matches Ok(x) && names_of(x@) == params && final(self).at()
                    == p,
                Err(e) => r matches Err(x) && x@ == e,
            },
            r is Ok ==> moved(old(self).model(), old(self).at(), final(self).at()),
    {
        let ghost ts = self.model();
        let ghost start = self.at();
        let mut params: Vec<String> = Vec::new();
        let mut more: bool = true;
        assert(names_of(params@) + names_at(ts, start) =~= names_at(ts, start));
        while more
            invariant
                self.wf(),
                self.model() == ts,
                self.at() == start + params@.len(),
                names_at(ts, start) == names_of(params@) + names_at(ts, self.at()),
                !more ==> names_at(ts, self.at()) == Seq::<Seq<char>>::empty(),
            decreases ts.len() - self.at(), (if more { 1int } else { 0 }),
        {
            match self.peek() {
                TokenKind::Ident(p) => {
                    let ghost before = names_of(params@);
                    params.push(p.clone());
                    proof {
                        assert(names_of(params@) =~= before.push(p@));
                        assert(before + (seq![p@] + names_at(ts, self.at() + 1)) =~= before.push(
                            p@,
                        ) + names_at(ts, self.at() + 1));
                    }
                    self.advance();
                },
                _ => {
                    more = false;
                },
            }
        }
        assert(names_at(ts, start) =~= names_of(params@));
        match self.expect(&TokenKind::Eq, "=") {
            Ok(()) => {},
            Err(e) => {
                return Err(e);
            },
        }
        self.eat_newlines();
        Ok(params)
    }

    // Types

    fn parse_dim_expr(&mut self) -> (r: Result<DimExpr, ParseError>)
        requires
            old(self).wf(),
        ensures
            final(self).wf(),
            final(self).model() == old(self).model(),
            agrees(r, final(self).at(), dim_expr_at(old(self).model(), old(self).at())),
            r is Ok ==> moved(old(self).model(), old(self).at(), final(self).at()),
    {
        let ghost ts = self.model();
        let ghost start = self.at();
        let mut lhs: DimExpr = match self.parse_dim_term() {
            Ok(d) => d,
            Err(e) => {
                return Err(e);
            },
        };
        loop
            invariant
                self.wf(),
                self.model() == ts,
                ts == old(self).model(),
                start == old(self).at(),
                moved(ts, start, self.at()),
                dim_expr_at(ts, start) == dim_expr_rest(ts, lhs@, self.at()),
            decreases ts.len() - self.at(),
        {
            let adds: bool = matches!(self.peek(), TokenKind::Plus);
            if !adds && !matches!(self.peek(), TokenKind::Minus) {
                return Ok(lhs);
            }
            self.advance();
            let rhs: DimExpr = match self.parse_dim_term() {
                Ok(d) => d,
                Err(e) => {
                    return Err(e);
                },
            };
            lhs = if adds {
                DimExpr::Add(Box::new(lhs), Box::new(rhs))
            } else {
                DimExpr::Sub(Box::new(lhs), Box::new(rhs))
            };
        }
    }

    fn parse_dim_term(&mut self) -> (r: Result<DimExpr, ParseError>)
        requires
            old(self).wf(),
        ensures
            final(self).wf(),
            final(self).model() == old(self).model(),
            agrees(r, final(self).at(), dim_term_at(old(self).model(), old(self).at())),
            r is Ok ==> moved(old(self).model(), old(self).at(), final(self).at()),
    {
        let ghost ts = self.model();
        let ghost start = self.at();
        let mut lhs: DimExpr = match self.parse_dim_atom() {
            Ok(d) => d,
            Err(e) => {
                return Err(e);
            },
        };
        while matches!(self.peek(), TokenKind::Star)
            invariant
                self.wf(),
                self.model() == ts,
                ts == old(self).model(),
                start == old(self).at(),
                moved(ts, start, self.at()),
                dim_term_at(ts, start) == dim_term_rest(ts, lhs@, self.at()),
            decreases ts.len() - self.at(),
        {
            self.advance();
            let rhs: DimExpr = match self.parse_dim_atom() {
                Ok(d) => d,
                Err(e) => {
                    return Err(e);
                },
            };
            lhs = DimExpr::Mul(Box::new(lhs), Box::new(rhs));
        }
        Ok(lhs)
    }

    fn parse_dim_atom(&mut self) -> (r: Result<DimExpr, ParseError>)
        requires
            old(self).wf(),
        ensures
            final(self).wf(),
            final(self).model() == old(self).model(),
            agrees(r, final(self).at(), dim_atom_at(old(self).model(), old(self).at())),
            r is Ok ==> moved(old(self).model(), old(self).at(), final(self).at()),
    {
        let dim: DimExpr = match self.peek() {
            TokenKind::Int(n) => DimExpr::Lit(*n as usize),
            TokenKind::Ident(name) => DimExpr::Var(name.clone()),
            _ => {
                return self.unexpected("次元（整数または識別子）");
            },
        };
        self.advance();
        Ok(dim)
    }

    fn parse_type_expr(&mut self) -> (r: Result<TypeExpr, ParseError>)
        requires
            old(self).wf(),
        ensures
            final(self).wf(),
            final(self).model() == old(self).model(),
            agrees(r, final(self).at(), type_at(old(self).model(), old(self).at())),
            r is Ok ==> moved(old(self).model(), old(self).at(), final(self).at()),
        decreases old(self).model().len() - old(self).at(), 1int,
    {
        let t: TypeExpr = match self.parse_type_atom() {
            Ok(t) => t,
            Err(e) => {
                return Err(e);
            },
        };
        if matches!(self.peek(), TokenKind::Arrow) {
            self.advance();
            match self.parse_type_expr() {
                Ok(rhs) => Ok(TypeExpr::Arrow(Box::new(t), Box::new(rhs))),
                Err(e) => Err(e),
            }
        } else {
            Ok(t)
        }
    }

    fn parse_type_atom(&mut self) -> (r: Result<TypeExpr, ParseError>)
        requires
            old(self).wf(),
        ensures
            final(self).wf(),
            final(self).model() == old(self).model(),
            agrees(r, final(self).at(), type_atom_at(old(self).model(), old(self).at())),
            r is Ok ==> moved(old(self).model(), old(self).at(), final(self).at()),
        decreases old(self).model().len() - old(self).at(), 0int,
    {
        match self.peek() {
            TokenKind::Ident(name) => {
                self.advance();
                if same_text(name.as_str(), "Tensor") && matches!(self.peek(), TokenKind::LBrack) {
                    self.advance();
                    self.parse_dims()
                } else {
                    Ok(self.parse_type_args(name.clone()))
                }
            },
            TokenKind::LParen => {
                self.advance();
                let t: TypeExpr = match self.parse_type_expr() {
                    Ok(t) => t,
                    Err(e) => {
                        return Err(e);
                    },
                };
                match self.expect(&TokenKind::RParen, ")") {
                    Ok(()) => Ok(t),
                    Err(e) => Err(e),
                }
            },
            _ => self.unexpected("型式"),
        }
    }

    /// Reads the names behind a type name.
    fn parse_type_args(&mut self, name: String) -> (ty: TypeExpr)
        requires
            old(self).wf(),
        ensures
            final(self).wf(),
            final(self).model() == old(self).model(),
            agrees::<TypeExpr>(
                Ok(ty),
                final(self).at(),
                type_args_at(old(self).model(), TypeExprView::Named(name@), old(self).at()),
            ),
            old(self).at() <= final(self).at() < final(self).model().len(),
    {
        let ghost ts = self.model();
        let ghost start = self.at();
        let ghost first = TypeExprView::Named(name@);
        let mut ty: TypeExpr = TypeExpr::Named(name);
        loop
            invariant
                self.wf(),
                self.model() == ts,
                ts == old(self).model(),
                start == old(self).at(),
                first == TypeExprView::Named(name@),
                start <= self.at() < ts.len(),
                type_args_at(ts, first, start) == type_args_at(ts, ty@, self.at()),
            decreases ts.len() - self.at(),
        {
            match self.peek() {
                TokenKind::Ident(arg) => {
                    self.advance();
                    let named: TypeExpr = TypeExpr::Named(arg.clone());
                    assert(named@ == TypeExprView::Named(arg@));
                    ty = TypeExpr::App(Box::new(ty), Box::new(named));
                },
                _ => {
                    return ty;
                },
            }
        }
    }

    /// Reads the dimensions of a tensor type, up to its `]`.
    fn parse_dims(&mut self) -> (r: Result<TypeExpr, ParseError>)
        requires
            old(self).wf(),
        ensures
            final(self).wf(),
            final(self).model() == old(self).model(),
            agrees(
                r,
                final(self).at(),
                dims_at(old(self).model(), Seq::empty(), old(self).at()),
            ),
            r is Ok ==> moved(old(self).model(), old(self).at(), final(self).at()),
    {
        let ghost ts = self.model();
        let ghost start = self.at();
        let mut dims: Vec<TypeDim> = Vec::new();
        assert(type_dims_of(dims@) =~= Seq::empty());
        loop
            invariant
                self.wf(),
                self.model() == ts,
                ts == old(self).model(),
                start == old(self).at(),
                start <= self.at() < ts.len(),
                dims_at(ts, Seq::empty(), start) == dims_at(ts, type_dims_of(dims@), self.at()),
            decreases ts.len() - self.at(),
        {
            let ghost before = type_dims_of(dims@);
            let dim: TypeDim = match self.parse_dim_expr() {
                Ok(DimExpr::Lit(n)) => TypeDim::Fixed(n),
                Ok(DimExpr::Var(s)) => TypeDim::Var(s),
                Ok(e) => TypeDim::Expr(e),
                Err(e) => {
                    return Err(e);
                },
            };
            let ghost model = dim@;
            dims.push(dim);
            assert(type_dims_of(dims@) =~= before.push(model));
            match self.peek() {
                TokenKind::Comma => {
                    self.advance();
                },
                TokenKind::RBrack => {
                    self.advance();
                    return Ok(TypeExpr::Tensor(dims));
                },
                _ => {
                    return self.unexpected("`,` または `]`");
                },
            }
        }
    }

    // Expressions

    fn parse_expr(&mut self) -> (r: Result<Expr, ParseError>)
        requires
            old(self).wf(),
        ensures
            final(self).wf(),
            final(self).model() == old(self).model(),
            agrees(r, final(self).at(), expr_at(old(self).model(), old(self).at())),
            r is Ok ==> moved(old(self).model(), old(self).at(), final(self).at()),
        decreases old(self).model().len() - old(self).at(), 21int,
    {
        self.parse_binary(0)
    }

    /// Reads an expression whose operators are those of `level` and tighter ones.
    fn parse_binary(&mut self, level: usize) -> (r: Result<Expr, ParseError>)
        requires
            old(self).wf(),
            level <= 6,
        ensures
            final(self).wf(),
            final(self).model() == old(self).model(),
            agrees(
                r,
                final(self).at(),
                binary_at(old(self).model(), old(self).at(), level as int),
            ),
            r is Ok ==> moved(old(self).model(), old(self).at(), final(self).at()),
        decreases old(self).model().len() - old(self).at(), 20 - level,
    {
        if level > 5 {
            return self.parse_unary();
        }
        let ghost ts = self.model();
        let ghost start = self.at();
        let mut expr: Expr = match self.parse_binary(level + 1) {
            Ok(e) => e,
            Err(e) => {
                return Err(e);
            },
        };
        loop
            invariant
                self.wf(),
                self.model() == ts,
                ts == old(self).model(),
                start == old(self).at(),
                level <= 5,
                moved(ts, start, self.at()),
                binary_at(ts, start, level as int) == binary_rest(
                    ts,
                    expr@,
                    self.at(),
                    level as int,
                ),
            decreases ts.len() - self.at(),
        {
            let op: Infix = match infix_of(level, self.peek()) {
                Some(op) => op,
                None => {
                    return Ok(expr);
                },
            };
            self.advance();
            self.eat_newlines();
            let next: usize = if level == 5 {
                level
            } else {
                level + 1
            };
            let right: Expr = match self.parse_binary(next) {
                Ok(e) => e,
                Err(e) => {
                    return Err(e);
                },
            };
            expr = join(op, expr, right);
            if level == 1 || level == 5 {
                return Ok(expr);
            }
        }
    }

    fn parse_unary(&mut self) -> (r: Result<Expr, ParseError>)
        requires
            old(self).wf(),
        ensures
            final(self).wf(),
            final(self).model() == old(self).model(),
            agrees(r, final(self).at(), unary_at(old(self).model(), old(self).at())),
            r is Ok ==> moved(old(self).model(), old(self).at(), final(self).at()),
        decreases old(self).model().len() - old(self).at(), 13int,
    {
        if matches!(self.peek(), TokenKind::Minus) {
            self.advance();
            match self.parse_application() {
                Ok(e) => Ok(Expr::UnaryMinus(Box::new(e))),
                Err(e) => Err(e),
            }
        } else {
            self.parse_application()
        }
    }

    fn parse_application(&mut self) -> (r: Result<Expr, ParseError>)
        requires
            old(self).wf(),
        ensures
            final(self).wf(),
            final(self).model() == old(self).model(),
            agrees(r, final(self).at(), application_at(old(self).model(), old(self).at())),
            r is Ok ==> moved(old(self).model(), old(self).at(), final(self).at()),
        decreases old(self).model().len() - old(self).at(), 12int,
    {
        let ghost ts = self.model();
        let ghost start = self.at();
        let mut expr: Expr = match self.parse_atom() {
            Ok(e) => e,
            Err(e) => {
                return Err(e);
            },
        };
        while self.next_starts_atom()
            invariant
                self.wf(),
                self.model() == ts,
                ts == old(self).model(),
                start == old(self).at(),
                moved(ts, start, self.at()),
                application_at(ts, start) == arguments_at(ts, expr@, self.at()),
            decreases ts.len() - self.at(),
        {
            let arg: Expr = match self.parse_atom() {
                Ok(e) => e,
                Err(e) => {
                    return Err(e);
                },
            };
            expr = Expr::App(Box::new(expr), Box::new(arg));
        }
        Ok(expr)
    }

    fn next_starts_atom(&self) -> (b: bool)
        requires
            self.wf(),
        ensures
            b == starts_atom(kind_at(self.model(), self.at())),
    {
        match self.peek() {
            TokenKind::Int(_)
            | TokenKind::Float(_)
            | TokenKind::Bool(_)
            | TokenKind::Ident(_)
            | TokenKind::LParen
            | TokenKind::LBrack
            | TokenKind::Let
            | TokenKind::If => true,
            _ => false,
        }
    }

    fn parse_atom(&mut self) -> (r: Result<Expr, ParseError>)
        requires
            old(self).wf(),
        ensures
            final(self).wf(),
            final(self).model() == old(self).model(),
            agrees(r, final(self).at(), atom_at(old(self).model(), old(self).at())),
            r is Ok ==> moved(old(self).model(), old(self).at(), final(self).at()),
        decreases old(self).model().len() - old(self).at(), 11int,
    {
        match self.peek() {
            TokenKind::Int(n) => {
                self.advance();
                Ok(Expr::Lit(Literal::Int(*n)))
            },
            TokenKind::Float(x) => {
                self.advance();
                Ok(Expr::Lit(Literal::Float(x.clone())))
            },
            TokenKind::Bool(b) => {
                self.advance();
                Ok(Expr::Lit(Literal::Bool(*b)))
            },
            TokenKind::Ident(name) => {
                self.advance();
                Ok(Expr::Var(name.clone()))
            },
            TokenKind::Let => self.parse_let_expr(),
            TokenKind::If => self.parse_if_expr(),
            TokenKind::LParen => {
                self.advance();
                self.eat_newlines();
                let e: Expr = match self.parse_expr() {
                    Ok(e) => e,
                    Err(e) => {
                        return Err(e);
                    },
                };
                self.eat_newlines();
                match self.expect(&TokenKind::RParen, ")") {
                    Ok(()) => Ok(e),
                    Err(e) => Err(e),
                }
            },
            TokenKind::LBrack => self.parse_tensor_lit(),
            TokenKind::Minus => {
                self.advance();
                match self.parse_atom() {
                    Ok(e) => Ok(Expr::UnaryMinus(Box::new(e))),
                    Err(e) => Err(e),
                }
            },
            _ => self.unexpected("式"),
        }
    }

    fn parse_let_expr(&mut self) -> (r: Result<Expr, ParseError>)
        requires
            old(self).wf(),
            is_at(old(self).model(), old(self).at(), TokenKind::Let),
        ensures
            final(self).wf(),
            final(self).model() == old(self).model(),
            agrees(r, final(self).at(), let_at(old(self).model(), old(self).at())),
            r is Ok ==> moved(old(self).model(), old(self).at(), final(self).at()),
        decreases old(self).model().len() - old(self).at(), 10int,
    {
        self.advance();
        let name: String = match self.peek() {
            TokenKind::Ident(n) => n.clone(),
            _ => {
                return self.unexpected("識別子");
            },
        };
        self.advance();
        let params: Vec<String> = match self.parse_head() {
            Ok(params) => params,
            Err(e) => {
                return Err(e);
            },
        };
        let value: Expr = match self.parse_clause(&TokenKind::In, "in") {
            Ok(e) => e,
            Err(e) => {
                return Err(e);
            },
        };
        match self.parse_expr() {
            Ok(body) => Ok(
                Expr::Let { name, params, value: Box::new(value), body: Box::new(body) },
            ),
            Err(e) => Err(e),
        }
    }

    /// Reads an expression and the keyword that closes it off.
    fn parse_clause(&mut self, keyword: &TokenKind, label: &'static str) -> (r: Result<
        Expr,
        ParseError,
    >)
        requires
            old(self).wf(),
            *keyword == TokenKind::In || *keyword == TokenKind::Then || *keyword
                == TokenKind::Else,
        ensures
            final(self).wf(),
            final(self).model() == old(self).model(),
            agrees(
                r,
                final(self).at(),
                clause_at(old(self).model(), old(self).at(), *keyword, label@),
            ),
            r is Ok ==> moved(old(self).model(), old(self).at(), final(self).at()),
        decreases old(self).model().len() - old(self).at(), 22int,
    {
        let e: Expr = match self.parse_expr() {
            Ok(e) => e,
            Err(e) => {
                return Err(e);
            },
        };
        self.eat_newlines();
        match self.expect(keyword, label) {
            Ok(()) => {},
            Err(e) => {
                return Err(e);
            },
        }
        self.eat_newlines();
        Ok(e)
    }

    fn parse_if_expr(&mut self) -> (r: Result<Expr, ParseError>)
        requires
            old(self).wf(),
            is_at(old(self).model(), old(self).at(), TokenKind::If),
        ensures
            final(self).wf(),
            final(self).model() == old(self).model(),
            agrees(r, final(self).at(), if_at(old(self).model(), old(self).at())),
            r is Ok ==> moved(old(self).model(), old(self).at(), final(self).at()),
        decreases old(self).model().len() - old(self).at(), 10int,
    {
        self.advance();
        self.eat_newlines();
        let cond: Expr = match self.parse_clause(&TokenKind::Then, "then") {
            Ok(e) => e,
            Err(e) => {
                return Err(e);
            },
        };
        let then: Expr = match self.parse_clause(&TokenKind::Else, "else") {
            Ok(e) => e,
            Err(e) => {
                return Err(e);
            },
        };
        match self.parse_expr() {
            Ok(else_) => Ok(
                Expr::If { cond: Box::new(cond), then: Box::new(then), else_: Box::new(else_) },
            ),
            Err(e) => Err(e),
        }
    }

    fn parse_tensor_lit(&mut self) -> (r: Result<Expr, ParseError>)
        requires
            old(self).wf(),
            is_at(old(self).model(), old(self).at(), TokenKind::LBrack),
        ensures
            final(self).wf(),
            final(self).model() == old(self).model(),
            agrees(r, final(self).at(), tensor_at(old(self).model(), old(self).at())),
            r is Ok ==> moved(old(self).model(), old(self).at(), final(self).at()),
        decreases old(self).model().len() - old(self).at(), 10int,
    {
        let ghost ts = self.model();
        let ghost start = self.at();
        self.advance();
        self.eat_newlines();
        let mut rows: Vec<Vec<Expr>> = Vec::new();
        if matches!(self.peek(), TokenKind::RBrack) {
            self.advance();
            proof {
                lemma_tensor_lit_view(rows);
                assert(rows_of(rows@) =~= Seq::empty());
            }
            return Ok(Expr::TensorLit(rows));
        }
        let mut row: Vec<Expr> = Vec::new();
        proof {
            assert(row_of(row@) =~= Seq::empty());
            assert(rows_of(rows@).push(row_of(row@)) =~= seq![Seq::<ExprView>::empty()]);
        }
        loop
            invariant
                self.wf(),
                self.model() == ts,
                ts == old(self).model(),
                start == old(self).at(),
                moved(ts, start, self.at()),
                tensor_at(ts, start) == rows_at(
                    ts,
                    rows_of(rows@).push(row_of(row@)),
                    self.at(),
                ),
            decreases ts.len() - self.at(),
        {
            let ghost done = rows_of(rows@);
            let ghost last = row_of(row@);
            self.eat_newlines();
            match self.peek() {
                TokenKind::RBrack => {
                    self.advance();
                    rows.push(row);
                    proof {
                        lemma_tensor_lit_view(rows);
                        assert(rows_of(rows@) =~= done.push(last));
                    }
                    return Ok(Expr::TensorLit(rows));
                },
                TokenKind::Comma => {
                    self.advance();
                },
                TokenKind::Semicolon => {
                    self.advance();
                    rows.push(row);
                    row = Vec::new();
                    proof {
                        assert(rows_of(rows@) =~= done.push(last));
                        assert(row_of(row@) =~= Seq::empty());
                    }
                },
                _ => {
                    let e: Expr = match self.parse_expr() {
                        Ok(e) => e,
                        Err(e) => {
                            return Err(e);
                        },
                    };
                    let ghost model = e@;
                    row.push(e);
                    proof {
                        assert(row_of(row@) =~= last.push(model));
                        assert(done.push(last).drop_last() =~= done);
                    }
                },
            }
        }
    }
}

/// The program that a token sequence is.
pub fn parse(tokens: &[Token]) -> (r: Result<Program, ParseError>)
    requires
        is_terminated(tokens_of(tokens@)),
    ensures
        match parse_model(tokens_of(tokens@)) {
            Ok(items) => r matches Ok(program) && items_of(program@) == items,
            Err(e) => r matches Err(x) && x@ == e,
        },
{
    let mut parser: Parser = Parser::new(tokens);
    parser.parse_program()
}

} // verus!
