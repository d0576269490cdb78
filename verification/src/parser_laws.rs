//! What holds of everything that the grammar accepts and rejects.

use crate::ast::{
    BinOpKind, DimExprView, Expr, ExprView, Literal, LiteralView, TopLevelView, TypeDimView,
    TypeExprView,
};
use crate::lexer::{tokens_of, Span, Token, TokenKind, TokenKindView, TokenView};
use crate::parser::{
    agrees, application_at, arguments_at, atom_at, behind, binary_at, binary_rest, clause_at,
    dim_atom_at, dim_expr_at, dim_expr_rest, dim_term_at, dim_term_rest, dims_at, expr_at,
    grouping, head_at, if_at, infix_at, is_at, is_terminated, items_at, joined, kind_at,
    lemma_past_breaks, let_at, moved, names_at, parse_model, past_breaks, rows_at, starts_atom,
    tensor_at, top_level_at, type_args_at, type_at, type_atom_at, unary_at, ParseError,
    ParseErrorView, Parsed,
};
use vstd::prelude::*;

verus! {

/// Whether an expression holds no function literal.
pub open spec fn without_lambda(e: ExprView) -> bool
    decreases e,
{
    match e {
        ExprView::Lit(_) => true,
        ExprView::Var(_) => true,
        ExprView::App(f, a) => without_lambda(*f) && without_lambda(*a),
        ExprView::BinOp { op, left, right } => without_lambda(*left) && without_lambda(*right),
        ExprView::UnaryMinus(x) => without_lambda(*x),
        ExprView::Pipe(a, f) => without_lambda(*a) && without_lambda(*f),
        ExprView::If { cond, then, else_ } => without_lambda(*cond) && without_lambda(*then)
            && without_lambda(*else_),
        ExprView::Let { name, params, value, body } => without_lambda(*value) && without_lambda(
            *body,
        ),
        ExprView::TensorLit(rows) => forall|i: int, j: int|
            0 <= i < rows.len() && 0 <= j < rows[i].len() ==> without_lambda(
                #[trigger] rows[i][j],
            ),
        ExprView::Lambda { .. } => false,
    }
}

/// Whether an item holds no function literal.
pub open spec fn item_without_lambda(item: TopLevelView) -> bool {
    match item {
        TopLevelView::Binding { name, params, body } => without_lambda(body),
        TopLevelView::TypeAnnotation { .. } => true,
    }
}

/// Whether an error is about one of the tokens, and gives its place.
pub open spec fn names_token(e: ParseErrorView, ts: Seq<TokenView>) -> bool {
    e matches ParseErrorView::UnexpectedToken { got, expected, span } && exists|p: int|
        0 <= p < ts.len() && got == (#[trigger] ts[p]).kind && span == ts[p].span
}

/// Whether reading moved on, but not behind the end mark, or found a token
/// that it can name.
spec fn sound<T>(r: Parsed<T>, ts: Seq<TokenView>, pos: int) -> bool {
    match r {
        Ok((_, p)) => pos < p < ts.len(),
        Err(e) => names_token(e, ts),
    }
}

spec fn sound_expr(r: Parsed<ExprView>, ts: Seq<TokenView>, pos: int) -> bool {
    &&& sound(r, ts, pos)
    &&& r matches Ok((e, _)) ==> without_lambda(e)
}

/// A position inside tokens that end with the end mark.
spec fn inside(ts: Seq<TokenView>, pos: int) -> bool {
    &&& is_terminated(ts)
    &&& 0 <= pos < ts.len()
}

/// Behind a token that is not the end mark there is another.
proof fn lemma_next_inside(ts: Seq<TokenView>, pos: int)
    requires
        inside(ts, pos),
    ensures
        !is_at(ts, pos, TokenKind::Eof) ==> inside(ts, pos + 1),
{
}

proof fn lemma_breaks_inside(ts: Seq<TokenView>, pos: int)
    requires
        inside(ts, pos),
    ensures
        inside(ts, past_breaks(ts, pos)),
        past_breaks(ts, pos) >= pos,
    decreases ts.len() - pos,
{
    lemma_past_breaks(ts, pos);
    if is_at(ts, pos, TokenKind::Newline) {
        lemma_breaks_inside(ts, pos + 1);
    }
}

proof fn lemma_binary(ts: Seq<TokenView>, pos: int, level: int)
    requires
        inside(ts, pos),
    ensures
        sound_expr(binary_at(ts, pos, level), ts, pos),
    decreases
            ts.len() - pos,
            (if 0 <= level <= 5 {
                20 - level
            } else {
                14int
            }),
{
    if level < 0 || level > 5 {
        lemma_unary(ts, pos);
    } else {
        lemma_binary(ts, pos, level + 1);
        if let Ok((left, p)) = binary_at(ts, pos, level + 1) {
            lemma_binary_rest(ts, left, p, level);
        }
    }
}

proof fn lemma_binary_rest(ts: Seq<TokenView>, left: ExprView, pos: int, level: int)
    requires
        inside(ts, pos),
        without_lambda(left),
    ensures
        match binary_rest(ts, left, pos, level) {
            Ok((e, p)) => pos <= p < ts.len() && without_lambda(e),
            Err(e) => names_token(e, ts),
        },
    decreases ts.len() - pos, 30int,
{
    if let Some(op) = infix_at(level, kind_at(ts, pos)) {
        lemma_next_inside(ts, pos);
        lemma_breaks_inside(ts, pos + 1);
        let next = past_breaks(ts, pos + 1);
        let inner = if grouping(level) is Right {
            level
        } else {
            level + 1
        };
        lemma_binary(ts, next, inner);
        if let Ok((right, p)) = binary_at(ts, next, inner) {
            assert(without_lambda(joined(op, left, right)));
            if grouping(level) is Left {
                lemma_binary_rest(ts, joined(op, left, right), p, level);
            }
        }
    }
}

proof fn lemma_expr(ts: Seq<TokenView>, pos: int)
    requires
        inside(ts, pos),
    ensures
        sound_expr(expr_at(ts, pos), ts, pos),
    decreases ts.len() - pos, 21int,
{
    lemma_binary(ts, pos, 0);
}

proof fn lemma_unary(ts: Seq<TokenView>, pos: int)
    requires
        inside(ts, pos),
    ensures
        sound_expr(unary_at(ts, pos), ts, pos),
    decreases ts.len() - pos, 13int,
{
    if is_at(ts, pos, TokenKind::Minus) {
        lemma_application(ts, pos + 1);
    } else {
        lemma_application(ts, pos);
    }
}

proof fn lemma_application(ts: Seq<TokenView>, pos: int)
    requires
        inside(ts, pos),
    ensures
        sound_expr(application_at(ts, pos), ts, pos),
    decreases ts.len() - pos, 12int,
{
    lemma_atom(ts, pos);
    if let Ok((f, p)) = atom_at(ts, pos) {
        lemma_arguments(ts, f, p);
    }
}

proof fn lemma_arguments(ts: Seq<TokenView>, f: ExprView, pos: int)
    requires
        inside(ts, pos),
        without_lambda(f),
    ensures
        match arguments_at(ts, f, pos) {
            Ok((e, p)) => pos <= p < ts.len() && without_lambda(e),
            Err(e) => names_token(e, ts),
        },
    decreases ts.len() - pos, 12int,
{
    lemma_atom(ts, pos);
    if let Ok((a, p)) = atom_at(ts, pos) {
        let e = ExprView::App(Box::new(f), Box::new(a));
        assert(without_lambda(e));
        lemma_arguments(ts, e, p);
    }
}

proof fn lemma_atom(ts: Seq<TokenView>, pos: int)
    requires
        inside(ts, pos),
    ensures
        sound_expr(atom_at(ts, pos), ts, pos),
    decreases ts.len() - pos, 11int,
{
    lemma_next_inside(ts, pos);
    match kind_at(ts, pos) {
        TokenKindView::Plain(TokenKind::Let) => lemma_let(ts, pos),
        TokenKindView::Plain(TokenKind::If) => lemma_if(ts, pos),
        TokenKindView::Plain(TokenKind::LParen) => {
            lemma_breaks_inside(ts, pos + 1);
            let q = past_breaks(ts, pos + 1);
            lemma_expr(ts, q);
            if let Ok((e, p)) = expr_at(ts, q) {
                lemma_breaks_inside(ts, p);
            }
        },
        TokenKindView::Plain(TokenKind::LBrack) => lemma_tensor(ts, pos),
        TokenKindView::Plain(TokenKind::Minus) => lemma_atom(ts, pos + 1),
        _ => {},
    }
}

proof fn lemma_names_inside(ts: Seq<TokenView>, pos: int)
    requires
        inside(ts, pos),
    ensures
        inside(ts, pos + names_at(ts, pos).len()),
    decreases ts.len() - pos,
{
    if kind_at(ts, pos) is Ident {
        lemma_names_inside(ts, pos + 1);
    }
}

proof fn lemma_head(ts: Seq<TokenView>, pos: int)
    requires
        inside(ts, pos),
    ensures
        sound(head_at(ts, pos), ts, pos),
{
    lemma_names_inside(ts, pos);
    let p = pos + names_at(ts, pos).len();
    if is_at(ts, p, TokenKind::Eq) {
        lemma_breaks_inside(ts, p + 1);
    }
}

proof fn lemma_let(ts: Seq<TokenView>, pos: int)
    requires
        inside(ts, pos),
        is_at(ts, pos, TokenKind::Let),
    ensures
        sound_expr(let_at(ts, pos), ts, pos),
    decreases ts.len() - pos, 10int,
{
    if kind_at(ts, pos + 1) is Ident {
        lemma_head(ts, pos + 2);
        if let Ok((params, p)) = head_at(ts, pos + 2) {
            lemma_expr(ts, p);
            if let Ok((value, q)) = expr_at(ts, p) {
                lemma_breaks_inside(ts, q);
                let r = past_breaks(ts, q);
                if is_at(ts, r, TokenKind::In) {
                    lemma_breaks_inside(ts, r + 1);
                    lemma_expr(ts, past_breaks(ts, r + 1));
                }
            }
        }
    }
}

proof fn lemma_clause(ts: Seq<TokenView>, pos: int, keyword: TokenKind, label: Seq<char>)
    requires
        inside(ts, pos),
        keyword != TokenKind::Eof,
    ensures
        sound_expr(clause_at(ts, pos, keyword, label), ts, pos),
    decreases ts.len() - pos, 22int,
{
    lemma_expr(ts, pos);
    if let Ok((e, p)) = expr_at(ts, pos) {
        lemma_breaks_inside(ts, p);
        let q = past_breaks(ts, p);
        if is_at(ts, q, keyword) {
            lemma_breaks_inside(ts, q + 1);
        }
    }
}

proof fn lemma_if(ts: Seq<TokenView>, pos: int)
    requires
        inside(ts, pos),
        is_at(ts, pos, TokenKind::If),
    ensures
        sound_expr(if_at(ts, pos), ts, pos),
    decreases ts.len() - pos, 10int,
{
    lemma_breaks_inside(ts, pos + 1);
    let start = past_breaks(ts, pos + 1);
    lemma_clause(ts, start, TokenKind::Then, "then"@);
    if let Ok((cond, p)) = clause_at(ts, start, TokenKind::Then, "then"@) {
        lemma_clause(ts, p, TokenKind::Else, "else"@);
        if let Ok((then, q)) = clause_at(ts, p, TokenKind::Else, "else"@) {
            lemma_expr(ts, q);
        }
    }
}

spec fn rows_without_lambda(rows: Seq<Seq<ExprView>>) -> bool {
    forall|i: int, j: int|
        0 <= i < rows.len() && 0 <= j < rows[i].len() ==> without_lambda(#[trigger] rows[i][j])
}

proof fn lemma_tensor(ts: Seq<TokenView>, pos: int)
    requires
        inside(ts, pos),
        is_at(ts, pos, TokenKind::LBrack),
    ensures
        sound_expr(tensor_at(ts, pos), ts, pos),
    decreases ts.len() - pos, 10int,
{
    lemma_breaks_inside(ts, pos + 1);
    let start = past_breaks(ts, pos + 1);
    if !is_at(ts, start, TokenKind::RBrack) {
        lemma_rows(ts, seq![Seq::empty()], start);
    }
}

proof fn lemma_rows(ts: Seq<TokenView>, rows: Seq<Seq<ExprView>>, pos: int)
    requires
        inside(ts, pos),
        rows.len() > 0,
        rows_without_lambda(rows),
    ensures
        sound_expr(rows_at(ts, rows, pos), ts, pos),
    decreases ts.len() - pos, 30int,
{
    lemma_breaks_inside(ts, pos);
    let q = past_breaks(ts, pos);
    match kind_at(ts, q) {
        TokenKindView::Plain(TokenKind::RBrack) => {},
        TokenKindView::Plain(TokenKind::Comma) => lemma_rows(ts, rows, q + 1),
        TokenKindView::Plain(TokenKind::Semicolon) => lemma_rows(
            ts,
            rows.push(Seq::empty()),
            q + 1,
        ),
        _ => {
            lemma_expr(ts, q);
            if let Ok((e, p)) = expr_at(ts, q) {
                let more = rows.drop_last().push(rows.last().push(e));
                assert forall|i: int, j: int|
                    0 <= i < more.len() && 0 <= j < more[i].len() implies without_lambda(
                    #[trigger] more[i][j],
                ) by {
                    if i < rows.len() - 1 {
                        assert(more[i][j] == rows[i][j]);
                    } else if j < rows.last().len() {
                        assert(more[i][j] == rows[rows.len() - 1][j]);
                    }
                }
                lemma_rows(ts, more, p);
            }
        },
    }
}

// Types

proof fn lemma_dim_term_rest(ts: Seq<TokenView>, left: DimExprView, pos: int)
    requires
        inside(ts, pos),
    ensures
        match dim_term_rest(ts, left, pos) {
            Ok((_, p)) => pos <= p < ts.len(),
            Err(e) => names_token(e, ts),
        },
    decreases ts.len() - pos,
{
    if is_at(ts, pos, TokenKind::Star) {
        if let Ok((right, p)) = dim_atom_at(ts, pos + 1) {
            lemma_dim_term_rest(ts, DimExprView::Mul(Box::new(left), Box::new(right)), p);
        }
    }
}

proof fn lemma_dim_term(ts: Seq<TokenView>, pos: int)
    requires
        inside(ts, pos),
    ensures
        sound(dim_term_at(ts, pos), ts, pos),
{
    if let Ok((left, p)) = dim_atom_at(ts, pos) {
        lemma_dim_term_rest(ts, left, p);
    }
}

proof fn lemma_dim_expr_rest(ts: Seq<TokenView>, left: DimExprView, pos: int)
    requires
        inside(ts, pos),
    ensures
        match dim_expr_rest(ts, left, pos) {
            Ok((_, p)) => pos <= p < ts.len(),
            Err(e) => names_token(e, ts),
        },
    decreases ts.len() - pos,
{
    if is_at(ts, pos, TokenKind::Plus) || is_at(ts, pos, TokenKind::Minus) {
        lemma_dim_term(ts, pos + 1);
        if let Ok((right, p)) = dim_term_at(ts, pos + 1) {
            lemma_dim_expr_rest(ts, DimExprView::Add(Box::new(left), Box::new(right)), p);
            lemma_dim_expr_rest(ts, DimExprView::Sub(Box::new(left), Box::new(right)), p);
        }
    }
}

proof fn lemma_dim_expr(ts: Seq<TokenView>, pos: int)
    requires
        inside(ts, pos),
    ensures
        sound(dim_expr_at(ts, pos), ts, pos),
{
    lemma_dim_term(ts, pos);
    if let Ok((left, p)) = dim_term_at(ts, pos) {
        lemma_dim_expr_rest(ts, left, p);
    }
}

proof fn lemma_dims(ts: Seq<TokenView>, dims: Seq<TypeDimView>, pos: int)
    requires
        inside(ts, pos),
    ensures
        sound(dims_at(ts, dims, pos), ts, pos),
    decreases ts.len() - pos,
{
    lemma_dim_expr(ts, pos);
    if let Ok((d, p)) = dim_expr_at(ts, pos) {
        if is_at(ts, p, TokenKind::Comma) {
            lemma_dims(ts, dims.push(crate::parser::folded_dim(d)), p + 1);
        }
    }
}

proof fn lemma_type_args(ts: Seq<TokenView>, ty: TypeExprView, pos: int)
    requires
        inside(ts, pos),
    ensures
        type_args_at(ts, ty, pos) matches Ok((_, p)) && pos <= p < ts.len(),
    decreases ts.len() - pos,
{
    if let TokenKindView::Ident(arg) = kind_at(ts, pos) {
        lemma_type_args(
            ts,
            TypeExprView::App(Box::new(ty), Box::new(TypeExprView::Named(arg))),
            pos + 1,
        );
    }
}

proof fn lemma_type_atom(ts: Seq<TokenView>, pos: int)
    requires
        inside(ts, pos),
    ensures
        sound(type_atom_at(ts, pos), ts, pos),
    decreases ts.len() - pos, 0int,
{
    match kind_at(ts, pos) {
        TokenKindView::Ident(name) => {
            if name == "Tensor"@ && is_at(ts, pos + 1, TokenKind::LBrack) {
                lemma_dims(ts, Seq::empty(), pos + 2);
            } else {
                lemma_type_args(ts, TypeExprView::Named(name), pos + 1);
            }
        },
        TokenKindView::Plain(TokenKind::LParen) => lemma_type(ts, pos + 1),
        _ => {},
    }
}

proof fn lemma_type(ts: Seq<TokenView>, pos: int)
    requires
        inside(ts, pos),
    ensures
        sound(type_at(ts, pos), ts, pos),
    decreases ts.len() - pos, 1int,
{
    lemma_type_atom(ts, pos);
    if let Ok((t, p)) = type_atom_at(ts, pos) {
        if is_at(ts, p, TokenKind::Arrow) {
            lemma_type(ts, p + 1);
        }
    }
}

// Programs

proof fn lemma_top_level(ts: Seq<TokenView>, pos: int)
    requires
        inside(ts, pos),
    ensures
        sound(top_level_at(ts, pos), ts, pos),
        top_level_at(ts, pos) matches Ok((item, _)) ==> item_without_lambda(item),
{
    if kind_at(ts, pos) is Ident {
        if is_at(ts, pos + 1, TokenKind::Colon) {
            lemma_type(ts, pos + 2);
        } else {
            lemma_head(ts, pos + 1);
            if let Ok((params, p)) = head_at(ts, pos + 1) {
                lemma_expr(ts, p);
            }
        }
    }
}

proof fn lemma_items(ts: Seq<TokenView>, items: Seq<TopLevelView>, pos: int)
    requires
        inside(ts, pos),
        forall|i: int| 0 <= i < items.len() ==> item_without_lambda(#[trigger] items[i]),
    ensures
        match items_at(ts, items, pos) {
            Ok(all) => forall|i: int|
                0 <= i < all.len() ==> item_without_lambda(#[trigger] all[i]),
            Err(e) => names_token(e, ts),
        },
    decreases ts.len() - pos,
{
    lemma_breaks_inside(ts, pos);
    let q = past_breaks(ts, pos);
    if !is_at(ts, q, TokenKind::Eof) {
        lemma_top_level(ts, q);
        if let Ok((item, p)) = top_level_at(ts, q) {
            lemma_items(ts, items.push(item), p);
        }
    }
}

/// A program that has been read holds no function literal: there is no syntax
/// for one.
pub proof fn law_no_lambda_is_read(ts: Seq<TokenView>)
    requires
        is_terminated(ts),
    ensures
        parse_model(ts) matches Ok(items) ==> forall|i: int|
            0 <= i < items.len() ==> item_without_lambda(#[trigger] items[i]),
{
    lemma_items(ts, Seq::empty(), 0);
}

/// Tokens are rejected only for one of them, the end mark included, and the
/// error gives its kind and place.
pub proof fn law_rejection_names_a_token(ts: Seq<TokenView>)
    requires
        is_terminated(ts),
    ensures
        parse_model(ts) matches Err(e) ==> names_token(e, ts),
{
    lemma_items(ts, Seq::empty(), 0);
}

// ---------------------------------------------------------------------------
// Writing expressions
// ---------------------------------------------------------------------------

/// The token that an operator is written with.
pub open spec fn operator_token(op: BinOpKind) -> TokenKind {
    match op {
        BinOpKind::Add => TokenKind::Plus,
        BinOpKind::Sub => TokenKind::Minus,
        BinOpKind::Mul => TokenKind::Star,
        BinOpKind::Div => TokenKind::Slash,
        BinOpKind::Pow => TokenKind::Caret,
        BinOpKind::MatMul => TokenKind::At,
        BinOpKind::Eq => TokenKind::EqEq,
        BinOpKind::Ne => TokenKind::BangEq,
        BinOpKind::Lt => TokenKind::Lt,
        BinOpKind::Le => TokenKind::Le,
        BinOpKind::Gt => TokenKind::Gt,
        BinOpKind::Ge => TokenKind::Ge,
    }
}

/// How tightly an operator binds: the comparisons, then `+` and `-`, then `@`,
/// then `*` and `/`, then `^`.
pub open spec fn tightness(op: BinOpKind) -> int {
    match op {
        BinOpKind::Eq | BinOpKind::Ne | BinOpKind::Lt | BinOpKind::Le | BinOpKind::Gt
        | BinOpKind::Ge => 1,
        BinOpKind::Add | BinOpKind::Sub => 2,
        BinOpKind::MatMul => 3,
        BinOpKind::Mul | BinOpKind::Div => 4,
        BinOpKind::Pow => 5,
    }
}

/// How tightly an expression holds together. `let` and `if` reach as far as they
/// can and hold together least; `|>` binds looser than every operator, the minus
/// sign tighter, application tighter still; literals, names and tensor literals
/// are closed in themselves.
pub open spec fn firmness(e: ExprView) -> int {
    match e {
        ExprView::If { .. } => -1,
        ExprView::Let { .. } => -1,
        ExprView::Pipe(_, _) => 0,
        ExprView::BinOp { op, .. } => tightness(op),
        ExprView::UnaryMinus(_) => 6,
        ExprView::App(_, _) => 7,
        _ => 8,
    }
}

pub open spec fn plain(k: TokenKind) -> TokenKindView {
    TokenKindView::Plain(k)
}

/// Line breaks one after another.
pub open spec fn line_breaks(n: nat) -> Seq<TokenKindView> {
    Seq::new(n, |i: int| plain(TokenKind::Newline))
}

/// An expression where one has to stand that is at least so firm: in brackets,
/// unless it is. `br` line breaks stand wherever they may: behind operators, `=`
/// and opening brackets, before closing ones, and on both sides of keywords.
pub open spec fn written(e: ExprView, firm: int, br: nat) -> Seq<TokenKindView>
    decreases e, 1nat,
{
    if firmness(e) >= firm {
        bare(e, br)
    } else {
        seq![plain(TokenKind::LParen)] + line_breaks(br) + bare(e, br) + line_breaks(br) + seq![
            plain(TokenKind::RParen),
        ]
    }
}

/// The names of parameters.
pub open spec fn written_names(names: Seq<Seq<char>>) -> Seq<TokenKindView> {
    Seq::new(names.len(), |i: int| TokenKindView::Ident(names[i]))
}

/// An expression as it is written without brackets round it. Operators group to
/// the left, `^` to the right, and comparisons not at all.
pub open spec fn bare(e: ExprView, br: nat) -> Seq<TokenKindView>
    decreases e, 0nat,
{
    match e {
        ExprView::Lit(LiteralView::Int(n)) => seq![plain(TokenKind::Int(n))],
        ExprView::Lit(LiteralView::Bool(b)) => seq![plain(TokenKind::Bool(b))],
        ExprView::Lit(LiteralView::Float(s)) => seq![TokenKindView::Float(s)],
        ExprView::Var(name) => seq![TokenKindView::Ident(name)],
        ExprView::App(f, a) => written(*f, 7, br) + written(*a, 8, br),
        ExprView::UnaryMinus(x) => seq![plain(TokenKind::Minus)] + written(*x, 7, br),
        ExprView::Pipe(a, f) => written(*a, 0, br) + seq![plain(TokenKind::Pipe)] + line_breaks(br)
            + written(*f, 1, br),
        ExprView::BinOp { op, left, right } => {
            let t = tightness(op);
            written(
                *left,
                if t == 1 || t == 5 {
                    t + 1
                } else {
                    t
                },
                br,
            ) + seq![plain(operator_token(op))] + line_breaks(br) + written(
                *right,
                if t == 5 {
                    t
                } else {
                    t + 1
                },
                br,
            )
        },
        ExprView::If { cond, then, else_ } => seq![plain(TokenKind::If)] + line_breaks(br)
            + written(*cond, -1, br) + line_breaks(br) + seq![plain(TokenKind::Then)]
            + line_breaks(br) + written(*then, -1, br) + line_breaks(br) + seq![
            plain(TokenKind::Else),
        ] + line_breaks(br) + written(*else_, -1, br),
        ExprView::Let { name, params, value, body } => seq![
            plain(TokenKind::Let),
            TokenKindView::Ident(name),
        ] + written_names(params) + seq![plain(TokenKind::Eq)] + line_breaks(br) + written(
            *value,
            -1,
            br,
        ) + line_breaks(br) + seq![plain(TokenKind::In)] + line_breaks(br) + written(
            *body,
            -1,
            br,
        ),
        ExprView::TensorLit(rows) => seq![plain(TokenKind::LBrack)] + line_breaks(br) + (
        if rows.len() == 1 && rows[0].len() == 0 {
            seq![plain(TokenKind::Comma)]
        } else {
            written_rows(rows, rows.len(), br)
        }) + line_breaks(br) + seq![plain(TokenKind::RBrack)],
        ExprView::Lambda { .. } => Seq::empty(),
    }
}

/// The first `n` rows of a tensor literal, `;` between them.
pub open spec fn written_rows(rows: Seq<Seq<ExprView>>, n: nat, br: nat) -> Seq<TokenKindView>
    decreases rows, n,
{
    if n == 0 || n > rows.len() {
        Seq::empty()
    } else if n == 1 {
        written_row(rows[0], rows[0].len(), br)
    } else {
        written_rows(rows, (n - 1) as nat, br) + seq![plain(TokenKind::Semicolon)] + written_row(
            rows[n - 1],
            rows[n - 1].len(),
            br,
        )
    }
}

/// The first `n` elements of a row, `,` between them.
pub open spec fn written_row(row: Seq<ExprView>, n: nat, br: nat) -> Seq<TokenKindView>
    decreases row, n,
{
    if n == 0 || n > row.len() {
        Seq::empty()
    } else if n == 1 {
        written(row[0], -1, br)
    } else {
        written_row(row, (n - 1) as nat, br) + seq![plain(TokenKind::Comma)] + written(
            row[n - 1],
            -1,
            br,
        )
    }
}

// ---------------------------------------------------------------------------
// Reading what was written
// ---------------------------------------------------------------------------

/// Whether tokens of these kinds stand at a position.
pub open spec fn stands(ts: Seq<TokenView>, pos: int, ks: Seq<TokenKindView>) -> bool {
    &&& 0 <= pos
    &&& pos + ks.len() <= ts.len()
    &&& forall|i: int| 0 <= i < ks.len() ==> ts[pos + i].kind == #[trigger] ks[i]
}

/// Whether no expression goes on with a token of this kind.
pub open spec fn ends_expression(k: TokenKindView) -> bool {
    ||| k == plain(TokenKind::RParen)
    ||| k == plain(TokenKind::RBrack)
    ||| k == plain(TokenKind::Comma)
    ||| k == plain(TokenKind::Semicolon)
    ||| k == plain(TokenKind::Then)
    ||| k == plain(TokenKind::Else)
    ||| k == plain(TokenKind::In)
    ||| k == plain(TokenKind::Newline)
    ||| k == plain(TokenKind::Eof)
}

proof fn lemma_split(ts: Seq<TokenView>, pos: int, a: Seq<TokenKindView>, b: Seq<TokenKindView>)
    requires
        stands(ts, pos, a + b),
    ensures
        stands(ts, pos, a),
        stands(ts, pos + a.len(), b),
        (a + b).len() == a.len() + b.len(),
{
    let all = a + b;
    assert forall|i: int| 0 <= i < a.len() implies ts[pos + i].kind == #[trigger] a[i] by {
        assert(all[i] == a[i]);
    }
    assert forall|i: int| 0 <= i < b.len() implies ts[pos + a.len() + i].kind
        == #[trigger] b[i] by {
        assert(all[a.len() + i] == b[i]);
        assert(ts[pos + (a.len() + i)].kind == all[a.len() + i]);
    }
}

proof fn lemma_single(ts: Seq<TokenView>, pos: int, k: TokenKindView)
    requires
        stands(ts, pos, seq![k]),
    ensures
        kind_at(ts, pos) == k,
        0 <= pos < ts.len(),
{
    assert(seq![k][0] == k);
    assert(ts[pos + 0].kind == seq![k][0]);
}

/// Whether nothing of `level` or a tighter one goes on with a token.
spec fn stops(k: TokenKindView, level: int) -> bool {
    &&& level <= 7 ==> !starts_atom(k)
    &&& forall|l: int| 0 <= l <= 5 && level <= l ==> infix_at(l, k) is None
}

/// The same, but for the operators of the level itself, where they group to the
/// left.
spec fn stops_inside(k: TokenKindView, level: int) -> bool {
    if level == 0 || level == 2 || level == 3 || level == 4 {
        stops(k, level + 1)
    } else if level >= 7 {
        true
    } else {
        stops(k, level)
    }
}

/// Whether `e` is what is read at a level.
spec fn is_read(ts: Seq<TokenView>, pos: int, level: int, e: ExprView, q: int) -> bool {
    if level <= 0 {
        binary_at(ts, pos, 0) == Ok::<(ExprView, int), ParseErrorView>((e, q))
    } else if level <= 5 {
        binary_at(ts, pos, level) == Ok::<(ExprView, int), ParseErrorView>((e, q))
    } else if level == 6 {
        unary_at(ts, pos) == Ok::<(ExprView, int), ParseErrorView>((e, q))
    } else if level == 7 {
        application_at(ts, pos) == Ok::<(ExprView, int), ParseErrorView>((e, q))
    } else {
        atom_at(ts, pos) == Ok::<(ExprView, int), ParseErrorView>((e, q))
    }
}

/// Whether what is read at a level starts with `e`.
spec fn is_begun(ts: Seq<TokenView>, pos: int, level: int, e: ExprView, q: int) -> bool {
    if level == 0 || level == 2 || level == 3 || level == 4 {
        binary_at(ts, pos, level) == binary_rest(ts, e, q, level)
    } else if level == 7 {
        application_at(ts, pos) == arguments_at(ts, e, q)
    } else {
        is_read(ts, pos, level, e, q)
    }
}

proof fn lemma_closed(ts: Seq<TokenView>, pos: int, level: int, e: ExprView, q: int)
    requires
        -1 <= level <= 8,
        is_begun(ts, pos, level, e, q),
        stops(kind_at(ts, q), level),
    ensures
        is_read(ts, pos, level, e, q),
{
    if 0 <= level <= 5 {
        assert(infix_at(level, kind_at(ts, q)) is None);
    }
}

proof fn lemma_climb(ts: Seq<TokenView>, pos: int, e: ExprView, q: int, from: int, to: int)
    requires
        -1 <= to <= from <= 8,
        0 <= pos < q <= ts.len(),
        is_begun(ts, pos, from, e, q),
        stops_inside(kind_at(ts, q), to),
        from >= 7 && to <= 6 ==> !is_at(ts, pos, TokenKind::Minus),
    ensures
        is_begun(ts, pos, to, e, q),
    decreases from - to,
{
    if to < from {
        let k = kind_at(ts, q);
        if to <= 6 {
            assert(stops(k, from));
            lemma_closed(ts, pos, from, e, q);
        }
        let next = from - 1;
        if 0 <= next <= 5 {
            if next == 5 {
                assert(binary_at(ts, pos, 6) == unary_at(ts, pos));
            }
            assert(binary_at(ts, pos, next) == binary_rest(ts, e, q, next));
            if next == 1 || next == 5 {
                assert(infix_at(next, k) is None);
            }
        } else if next == -1 {
            assert(infix_at(0, k) is None);
        }
        assert(is_begun(ts, pos, next, e, q));
        lemma_climb(ts, pos, e, q, next, to);
    }
}

/// How an expression starts: never with a line break, and with a minus sign only
/// where it may.
proof fn lemma_starts(e: ExprView, firm: int, br: nat)
    requires
        without_lambda(e),
    ensures
        written(e, firm, br).len() > 0,
        starts_atom(written(e, firm, br)[0]) || (firm <= 6 && written(e, firm, br)[0] == plain(
            TokenKind::Minus,
        )),
    decreases e, 1nat,
{
    lemma_starts_bare(e, br);
}

proof fn lemma_starts_bare(e: ExprView, br: nat)
    requires
        without_lambda(e),
    ensures
        bare(e, br).len() > 0,
        starts_atom(bare(e, br)[0]) || (0 <= firmness(e) <= 6 && bare(e, br)[0] == plain(
            TokenKind::Minus,
        )),
    decreases e, 0nat,
{
    match e {
        ExprView::App(f, a) => {
            lemma_starts(*f, 7, br);
            assert(bare(e, br)[0] == written(*f, 7, br)[0]);
        },
        ExprView::Pipe(a, f) => {
            lemma_starts(*a, 0, br);
            assert(bare(e, br)[0] == written(*a, 0, br)[0]);
        },
        ExprView::BinOp { op, left, right } => {
            let t = tightness(op);
            let firm = if t == 1 || t == 5 {
                t + 1
            } else {
                t
            };
            lemma_starts(*left, firm, br);
            assert(bare(e, br)[0] == written(*left, firm, br)[0]);
        },
        _ => {},
    }
}

/// No line break stands where an expression is written.
proof fn lemma_no_break(ts: Seq<TokenView>, pos: int, e: ExprView, firm: int, br: nat)
    requires
        without_lambda(e),
        stands(ts, pos, written(e, firm, br)),
    ensures
        past_breaks(ts, pos) == pos,
        kind_at(ts, pos) == written(e, firm, br)[0],
        written(e, firm, br).len() > 0,
        starts_atom(kind_at(ts, pos)) || (firm <= 6 && kind_at(ts, pos) == plain(TokenKind::Minus)),
{
    lemma_starts(e, firm, br);
    assert(ts[pos + 0].kind == written(e, firm, br)[0]);
}

/// What is written at a firmness is read at that level.
proof fn lemma_written_read(ts: Seq<TokenView>, pos: int, e: ExprView, firm: int, br: nat)
    requires
        -1 <= firm <= 8,
        without_lambda(e),
        stands(ts, pos, written(e, firm, br)),
        stops_inside(kind_at(ts, pos + written(e, firm, br).len()), firm),
    ensures
        is_begun(ts, pos, firm, e, pos + written(e, firm, br).len()),
    decreases e, 2nat,
{
    let q = pos + written(e, firm, br).len();
    lemma_no_break(ts, pos, e, firm, br);
    let own = firmness(e);
    if own >= firm {
        if own == -1 {
            lemma_bare_read(ts, pos, e, br);
            lemma_starts_bare(e, br);
            lemma_climb(ts, pos, e, q, 8, firm);
        } else {
            assert(stops_inside(kind_at(ts, q), own));
            lemma_bare_read(ts, pos, e, br);
            lemma_starts_bare(e, br);
            if own >= 7 {
                assert(!is_at(ts, pos, TokenKind::Minus));
            }
            lemma_climb(ts, pos, e, q, own, firm);
        }
    } else {
        let open = seq![plain(TokenKind::LParen)];
        let close = seq![plain(TokenKind::RParen)];
        let w = line_breaks(br);
        lemma_split(ts, pos, open + w + bare(e, br) + w, close);
        lemma_split(ts, pos, open + w + bare(e, br), w);
        lemma_split(ts, pos, open + w, bare(e, br));
        lemma_split(ts, pos, open, w);
        let p = pos + 1 + br;
        let end = p + bare(e, br).len();
        lemma_single(ts, pos, plain(TokenKind::LParen));
        lemma_single(ts, q - 1, plain(TokenKind::RParen));
        lemma_starts_bare(e, br);
        assert(stands(ts, p, bare(e, br)));
        assert(ts[p + 0].kind == bare(e, br)[0]);
        lemma_breaks_read(ts, pos + 1, br);
        lemma_breaks_read(ts, end, br);
        assert(ends_expression(kind_at(ts, end)));
        lemma_bare_read(ts, p, e, br);
        let inner = if own == -1 {
            8
        } else {
            own
        };
        lemma_climb(ts, p, e, end, inner, -1);
        assert(expr_at(ts, p) == binary_at(ts, p, 0));
        assert(atom_at(ts, pos) == Ok::<(ExprView, int), ParseErrorView>((e, q)));
        lemma_climb(ts, pos, e, q, 8, firm);
    }
}

proof fn lemma_read(ts: Seq<TokenView>, pos: int, e: ExprView, firm: int, br: nat)
    requires
        -1 <= firm <= 8,
        without_lambda(e),
        stands(ts, pos, written(e, firm, br)),
        stops(kind_at(ts, pos + written(e, firm, br).len()), firm),
    ensures
        is_read(ts, pos, firm, e, pos + written(e, firm, br).len()),
        past_breaks(ts, pos) == pos,
    decreases e, 3nat,
{
    let q = pos + written(e, firm, br).len();
    lemma_no_break(ts, pos, e, firm, br);
    assert(stops_inside(kind_at(ts, q), firm));
    lemma_written_read(ts, pos, e, firm, br);
    lemma_closed(ts, pos, firm, e, q);
}

/// What is written without brackets is read at its own level, and `let` and `if`
/// where nothing goes on behind them.
#[verifier::rlimit(60)]
#[verifier::spinoff_prover]
proof fn lemma_bare_read(ts: Seq<TokenView>, pos: int, e: ExprView, br: nat)
    requires
        without_lambda(e),
        stands(ts, pos, bare(e, br)),
        stops_inside(kind_at(ts, pos + bare(e, br).len()), firmness(e)),
    ensures
        firmness(e) >= 0 ==> is_begun(ts, pos, firmness(e), e, pos + bare(e, br).len()),
        firmness(e) < 0 ==> is_read(ts, pos, 8, e, pos + bare(e, br).len()),
        bare(e, br).len() > 0,
    decreases e, 1nat,
{
    let q = pos + bare(e, br).len();
    lemma_starts_bare(e, br);
    assert(ts[pos + 0].kind == bare(e, br)[0]);
    match e {
        ExprView::Lit(_) => {},
        ExprView::Var(_) => {},
        ExprView::App(f, a) => {
            lemma_split(ts, pos, written(*f, 7, br), written(*a, 8, br));
            let p = pos + written(*f, 7, br).len();
            lemma_written_read(ts, pos, *f, 7, br);
            lemma_no_break(ts, p, *a, 8, br);
            lemma_written_read(ts, p, *a, 8, br);
            assert(arguments_at(ts, *f, p) == arguments_at(ts, e, q));
        },
        ExprView::UnaryMinus(x) => {
            let sign = seq![plain(TokenKind::Minus)];
            lemma_split(ts, pos, sign, written(*x, 7, br));
            lemma_single(ts, pos, plain(TokenKind::Minus));
            lemma_read(ts, pos + 1, *x, 7, br);
        },
        ExprView::Pipe(a, f) => {
            lemma_pipe_read(ts, pos, e, br);
        },
        ExprView::BinOp { op, left, right } => {
            lemma_binop_read(ts, pos, e, br);
        },
        ExprView::If { cond, then, else_ } => {
            lemma_if_read(ts, pos, e, br);
        },
        ExprView::Let { name, params, value, body } => {
            lemma_let_read(ts, pos, e, br);
        },
        ExprView::TensorLit(rows) => {
            lemma_tensor_read(ts, pos, e, br);
        },
        ExprView::Lambda { .. } => {},
    }
}

/// A pipe is read.
proof fn lemma_pipe_read(ts: Seq<TokenView>, pos: int, e: ExprView, br: nat)
    requires
        without_lambda(e),
        e is Pipe,
        stands(ts, pos, bare(e, br)),
        stops_inside(kind_at(ts, pos + bare(e, br).len()), firmness(e)),
    ensures
        is_begun(ts, pos, 0, e, pos + bare(e, br).len()),
    decreases e, 0nat,
{
    let q = pos + bare(e, br).len();
    if let ExprView::Pipe(a, f) = e {
        let op = seq![plain(TokenKind::Pipe)];
        let w = line_breaks(br);
        lemma_split(ts, pos, written(*a, 0, br) + op + w, written(*f, 1, br));
        lemma_split(ts, pos, written(*a, 0, br) + op, w);
        lemma_split(ts, pos, written(*a, 0, br), op);
        let p = pos + written(*a, 0, br).len();
        lemma_single(ts, p, plain(TokenKind::Pipe));
        lemma_written_read(ts, pos, *a, 0, br);
        lemma_read(ts, p + 1 + br, *f, 1, br);
        lemma_no_break(ts, p + 1 + br, *f, 1, br);
        lemma_breaks_read(ts, p + 1, br);
        assert(binary_rest(ts, *a, p, 0) == binary_rest(ts, e, q, 0));
    }
}

/// An operator between two operands is read.
proof fn lemma_binop_read(ts: Seq<TokenView>, pos: int, e: ExprView, br: nat)
    requires
        without_lambda(e),
        e is BinOp,
        stands(ts, pos, bare(e, br)),
        stops_inside(kind_at(ts, pos + bare(e, br).len()), firmness(e)),
    ensures
        is_begun(ts, pos, firmness(e), e, pos + bare(e, br).len()),
    decreases e, 0nat,
{
    let q = pos + bare(e, br).len();
    if let ExprView::BinOp { op, left, right } = e {
        let t = tightness(op);
        let fl = if t == 1 || t == 5 {
            t + 1
        } else {
            t
        };
        let fr = if t == 5 {
            t
        } else {
            t + 1
        };
        let k = plain(operator_token(op));
        let w = line_breaks(br);
        lemma_split(ts, pos, written(*left, fl, br) + seq![k] + w, written(*right, fr, br));
        lemma_split(ts, pos, written(*left, fl, br) + seq![k], w);
        lemma_split(ts, pos, written(*left, fl, br), seq![k]);
        let p = pos + written(*left, fl, br).len();
        lemma_single(ts, p, k);
        assert(infix_at(t, k) == Some(crate::parser::Infix::Op(op)));
        lemma_no_break(ts, pos, *left, fl, br);
        lemma_no_break(ts, p + 1 + br, *right, fr, br);
        lemma_read(ts, p + 1 + br, *right, fr, br);
        lemma_breaks_read(ts, p + 1, br);
        if t == 1 || t == 5 {
            lemma_read(ts, pos, *left, fl, br);
            if t == 5 {
                assert(binary_at(ts, pos, 6) == unary_at(ts, pos));
            }
            assert(binary_at(ts, pos, t) == binary_rest(ts, *left, p, t));
            assert(binary_rest(ts, *left, p, t) == Ok::<(ExprView, int), ParseErrorView>(
                (e, q),
            ));
        } else {
            lemma_written_read(ts, pos, *left, fl, br);
            assert(binary_rest(ts, *left, p, t) == binary_rest(ts, e, q, t));
        }
    }
}

/// Line breaks before a token that is none are skipped.
proof fn lemma_breaks_read(ts: Seq<TokenView>, pos: int, n: nat)
    requires
        stands(ts, pos, line_breaks(n)),
        !is_at(ts, pos + n, TokenKind::Newline),
    ensures
        past_breaks(ts, pos) == pos + n,
        n > 0 ==> is_at(ts, pos, TokenKind::Newline),
    decreases n,
{
    if n > 0 {
        assert(ts[pos + 0].kind == line_breaks(n)[0]);
        assert forall|i: int| 0 <= i < line_breaks((n - 1) as nat).len() implies ts[pos + 1
            + i].kind == #[trigger] line_breaks((n - 1) as nat)[i] by {
            assert(ts[pos + (i + 1)].kind == line_breaks(n)[i + 1]);
        }
        lemma_breaks_read(ts, pos + 1, (n - 1) as nat);
    }
}

/// Line breaks before other line breaks are skipped with them.
proof fn lemma_more_breaks(ts: Seq<TokenView>, pos: int, n: nat)
    requires
        stands(ts, pos, line_breaks(n)),
    ensures
        past_breaks(ts, pos) == past_breaks(ts, pos + n),
    decreases n,
{
    if n > 0 {
        assert(ts[pos + 0].kind == line_breaks(n)[0]);
        assert forall|i: int| 0 <= i < line_breaks((n - 1) as nat).len() implies ts[pos + 1
            + i].kind == #[trigger] line_breaks((n - 1) as nat)[i] by {
            assert(ts[pos + (i + 1)].kind == line_breaks(n)[i + 1]);
        }
        lemma_more_breaks(ts, pos + 1, (n - 1) as nat);
    }
}

/// An `if` is read.
#[verifier::rlimit(60)]
#[verifier::spinoff_prover]
proof fn lemma_if_read(ts: Seq<TokenView>, pos: int, e: ExprView, br: nat)
    requires
        without_lambda(e),
        e is If,
        stands(ts, pos, bare(e, br)),
        stops_inside(kind_at(ts, pos + bare(e, br).len()), firmness(e)),
    ensures
        is_read(ts, pos, 8, e, pos + bare(e, br).len()),
    decreases e, 0nat,
{
    let q = pos + bare(e, br).len();
    if let ExprView::If { cond, then, else_ } = e {
        let a = seq![plain(TokenKind::If)];
        let b = written(*cond, -1, br);
        let c = seq![plain(TokenKind::Then)];
        let d = written(*then, -1, br);
        let f = seq![plain(TokenKind::Else)];
        let g = written(*else_, -1, br);
        let w = line_breaks(br);
        lemma_split(ts, pos, a + w + b + w + c + w + d + w + f + w, g);
        lemma_split(ts, pos, a + w + b + w + c + w + d + w + f, w);
        lemma_split(ts, pos, a + w + b + w + c + w + d + w, f);
        lemma_split(ts, pos, a + w + b + w + c + w + d, w);
        lemma_split(ts, pos, a + w + b + w + c + w, d);
        lemma_split(ts, pos, a + w + b + w + c, w);
        lemma_split(ts, pos, a + w + b + w, c);
        lemma_split(ts, pos, a + w + b, w);
        lemma_split(ts, pos, a + w, b);
        lemma_split(ts, pos, a, w);
        let p1 = pos + 1 + br;
        let p2 = p1 + b.len();
        let p3 = p2 + br + 1 + br;
        let p4 = p3 + d.len();
        let p5 = p4 + br + 1 + br;
        lemma_single(ts, pos, plain(TokenKind::If));
        lemma_single(ts, p2 + br, plain(TokenKind::Then));
        lemma_single(ts, p4 + br, plain(TokenKind::Else));
        lemma_no_break(ts, p1, *cond, -1, br);
        lemma_no_break(ts, p3, *then, -1, br);
        lemma_no_break(ts, p5, *else_, -1, br);
        lemma_breaks_read(ts, pos + 1, br);
        lemma_breaks_read(ts, p2, br);
        lemma_breaks_read(ts, p2 + br + 1, br);
        lemma_breaks_read(ts, p4, br);
        lemma_breaks_read(ts, p4 + br + 1, br);
        lemma_read(ts, p1, *cond, -1, br);
        lemma_read(ts, p3, *then, -1, br);
        lemma_read(ts, p5, *else_, -1, br);
        assert(expr_at(ts, p1) == binary_at(ts, p1, 0));
        assert(expr_at(ts, p3) == binary_at(ts, p3, 0));
        assert(expr_at(ts, p5) == binary_at(ts, p5, 0));
        assert(clause_at(ts, p1, TokenKind::Then, "then"@) == Ok::<
            (ExprView, int),
            ParseErrorView,
        >((*cond, p3)));
        assert(clause_at(ts, p3, TokenKind::Else, "else"@) == Ok::<
            (ExprView, int),
            ParseErrorView,
        >((*then, p5)));
        assert(if_at(ts, pos) == Ok::<(ExprView, int), ParseErrorView>((e, q)));
    }
}

/// A `let` is read.
#[verifier::rlimit(60)]
#[verifier::spinoff_prover]
proof fn lemma_let_read(ts: Seq<TokenView>, pos: int, e: ExprView, br: nat)
    requires
        without_lambda(e),
        e is Let,
        stands(ts, pos, bare(e, br)),
        stops_inside(kind_at(ts, pos + bare(e, br).len()), firmness(e)),
    ensures
        is_read(ts, pos, 8, e, pos + bare(e, br).len()),
    decreases e, 0nat,
{
    let q = pos + bare(e, br).len();
    if let ExprView::Let { name, params, value, body } = e {
        let a = seq![plain(TokenKind::Let), TokenKindView::Ident(name)];
        let b = written_names(params);
        let c = seq![plain(TokenKind::Eq)];
        let d = written(*value, -1, br);
        let f = seq![plain(TokenKind::In)];
        let g = written(*body, -1, br);
        let w = line_breaks(br);
        lemma_split(ts, pos, a + b + c + w + d + w + f + w, g);
        lemma_split(ts, pos, a + b + c + w + d + w + f, w);
        lemma_split(ts, pos, a + b + c + w + d + w, f);
        lemma_split(ts, pos, a + b + c + w + d, w);
        lemma_split(ts, pos, a + b + c + w, d);
        lemma_split(ts, pos, a + b + c, w);
        lemma_split(ts, pos, a + b, c);
        lemma_split(ts, pos, a, b);
        let p1 = pos + 2;
        let p2 = p1 + b.len();
        let p3 = p2 + 1 + br;
        let p4 = p3 + d.len();
        let p5 = p4 + br + 1 + br;
        assert(ts[pos + 0].kind == a[0] && ts[pos + 1].kind == a[1]);
        lemma_single(ts, p2, plain(TokenKind::Eq));
        lemma_single(ts, p4 + br, plain(TokenKind::In));
        lemma_names_read(ts, p1, params);
        lemma_no_break(ts, p3, *value, -1, br);
        lemma_no_break(ts, p5, *body, -1, br);
        lemma_breaks_read(ts, p2 + 1, br);
        lemma_breaks_read(ts, p4, br);
        lemma_breaks_read(ts, p4 + br + 1, br);
        lemma_read(ts, p3, *value, -1, br);
        lemma_read(ts, p5, *body, -1, br);
        assert(expr_at(ts, p3) == binary_at(ts, p3, 0));
        assert(expr_at(ts, p5) == binary_at(ts, p5, 0));
        assert(head_at(ts, p1) == Ok::<(Seq<Seq<char>>, int), ParseErrorView>((params, p3)));
        assert(let_at(ts, pos) == Ok::<(ExprView, int), ParseErrorView>((e, q)));
    }
}

/// A tensor literal is read.
proof fn lemma_tensor_read(ts: Seq<TokenView>, pos: int, e: ExprView, br: nat)
    requires
        without_lambda(e),
        e is TensorLit,
        stands(ts, pos, bare(e, br)),
        stops_inside(kind_at(ts, pos + bare(e, br).len()), firmness(e)),
    ensures
        is_read(ts, pos, 8, e, pos + bare(e, br).len()),
    decreases e, 0nat,
{
    let q = pos + bare(e, br).len();
    if let ExprView::TensorLit(rows) = e {
        let open = seq![plain(TokenKind::LBrack)];
        let close = seq![plain(TokenKind::RBrack)];
        let inner = if rows.len() == 1 && rows[0].len() == 0 {
            seq![plain(TokenKind::Comma)]
        } else {
            written_rows(rows, rows.len(), br)
        };
        let w = line_breaks(br);
        lemma_split(ts, pos, open + w + inner + w, close);
        lemma_split(ts, pos, open + w + inner, w);
        lemma_split(ts, pos, open + w, inner);
        lemma_split(ts, pos, open, w);
        let p = pos + 1 + br;
        let end = p + inner.len();
        lemma_single(ts, pos, plain(TokenKind::LBrack));
        lemma_single(ts, q - 1, plain(TokenKind::RBrack));
        lemma_breaks_read(ts, end, br);
        let none = seq![Seq::<ExprView>::empty()];
        if rows.len() == 0 {
            assert(rows =~= Seq::empty());
            assert(inner.len() == 0);
            lemma_more_breaks(ts, pos + 1, br);
        } else if rows.len() == 1 && rows[0].len() == 0 {
            lemma_single(ts, p, plain(TokenKind::Comma));
            lemma_breaks_read(ts, pos + 1, br);
            assert(past_breaks(ts, p) == p);
            assert(rows =~= none) by {
                assert(rows[0] =~= Seq::<ExprView>::empty());
            }
            assert(rows_at(ts, none, p) == rows_at(ts, none, p + 1));
        } else {
            lemma_rows_start(rows, br);
            assert(ts[p + 0].kind == inner[0]);
            lemma_breaks_read(ts, pos + 1, br);
            lemma_rows_read(ts, p, rows, rows.len(), br);
            assert(rows.take(rows.len() as int) =~= rows);
            assert(rows_at(ts, none, p) == rows_at(ts, rows, end));
        }
        assert(tensor_at(ts, pos) == Ok::<(ExprView, int), ParseErrorView>((e, q)));
    }
}

proof fn lemma_names_read(ts: Seq<TokenView>, pos: int, names: Seq<Seq<char>>)
    requires
        stands(ts, pos, written_names(names)),
        !(kind_at(ts, pos + names.len()) is Ident),
    ensures
        names_at(ts, pos) == names,
    decreases names.len(),
{
    if names.len() == 0 {
        assert(names_at(ts, pos) =~= names);
    } else {
        let rest = names.subrange(1, names.len() as int);
        assert(ts[pos + 0].kind == written_names(names)[0]);
        assert forall|i: int| 0 <= i < written_names(rest).len() implies ts[pos + 1 + i].kind
            == #[trigger] written_names(rest)[i] by {
            assert(ts[pos + (i + 1)].kind == written_names(names)[i + 1]);
        }
        lemma_names_read(ts, pos + 1, rest);
        assert(seq![names[0]] + rest =~= names);
    }
}

/// The elements of a row that come first stand first.
proof fn lemma_row_prefix(row: Seq<ExprView>, j: nat, n: nat, br: nat)
    requires
        j <= n <= row.len(),
    ensures
        written_row(row, j, br).len() <= written_row(row, n, br).len(),
        forall|i: int|
            0 <= i < written_row(row, j, br).len() ==> written_row(row, n, br)[i]
                == #[trigger] written_row(
                row,
                j,
                br,
            )[i],
    decreases n,
{
    if j < n {
        lemma_row_prefix(row, j, (n - 1) as nat, br);
        if n > 1 {
            let before = written_row(row, (n - 1) as nat, br);
            assert forall|i: int| 0 <= i < written_row(row, j, br).len() implies written_row(
                row,
                n,
                br,
            )[i]
                == #[trigger] written_row(row, j, br)[i] by {
                assert(before[i] == written_row(row, j, br)[i]);
            }
        }
    }
}

proof fn lemma_rows_prefix(rows: Seq<Seq<ExprView>>, j: nat, n: nat, br: nat)
    requires
        j <= n <= rows.len(),
    ensures
        written_rows(rows, j, br).len() <= written_rows(rows, n, br).len(),
        forall|i: int|
            0 <= i < written_rows(rows, j, br).len() ==> written_rows(rows, n, br)[i]
                == #[trigger] written_rows(rows, j, br)[i],
    decreases n,
{
    if j < n {
        lemma_rows_prefix(rows, j, (n - 1) as nat, br);
        if n > 1 {
            let before = written_rows(rows, (n - 1) as nat, br);
            assert forall|i: int| 0 <= i < written_rows(rows, j, br).len() implies written_rows(
                rows,
                n,
                br,
            )[i] == #[trigger] written_rows(rows, j, br)[i] by {
                assert(before[i] == written_rows(rows, j, br)[i]);
            }
        }
    }
}

/// How the rows of a tensor literal start: with the first element, or with the
/// end of a first row that has none.
proof fn lemma_rows_start(rows: Seq<Seq<ExprView>>, br: nat)
    requires
        rows.len() > 0,
        rows.len() > 1 || rows[0].len() > 0,
        forall|i: int, j: int|
            0 <= i < rows.len() && 0 <= j < rows[i].len() ==> without_lambda(
                #[trigger] rows[i][j],
            ),
    ensures
        written_rows(rows, rows.len(), br).len() > 0,
        starts_atom(written_rows(rows, rows.len(), br)[0]) || written_rows(rows, rows.len(), br)[0]
            == plain(TokenKind::Minus) || written_rows(rows, rows.len(), br)[0] == plain(
            TokenKind::Semicolon,
        ),
{
    let all = written_rows(rows, rows.len(), br);
    if rows[0].len() > 0 {
        let row = rows[0];
        assert(without_lambda(rows[0][0]));
        lemma_starts(row[0], -1, br);
        lemma_row_prefix(row, 1, row.len(), br);
        lemma_rows_prefix(rows, 1, rows.len(), br);
        assert(written_row(row, 1, br) == written(row[0], -1, br));
        assert(written_row(row, row.len(), br)[0] == written_row(row, 1, br)[0]);
        assert(written_rows(rows, 1, br) == written_row(row, row.len(), br));
        assert(all[0] == written_rows(rows, 1, br)[0]);
    } else {
        lemma_rows_prefix(rows, 2, rows.len(), br);
        assert(written_row(rows[0], 0, br).len() == 0);
        assert(written_rows(rows, 1, br) == written_row(rows[0], 0, br));
        assert(written_rows(rows, 2, br)[0] == plain(TokenKind::Semicolon));
        assert(all[0] == written_rows(rows, 2, br)[0]);
    }
}

/// Whether a token ends a row.
spec fn ends_row(k: TokenKindView) -> bool {
    k == plain(TokenKind::Semicolon) || k == plain(TokenKind::RBrack) || k == plain(
        TokenKind::Newline,
    )
}

/// The first `n` elements of a row are read into the last row.
proof fn lemma_row_read(
    ts: Seq<TokenView>,
    pos: int,
    before: Seq<Seq<ExprView>>,
    row: Seq<ExprView>,
    n: nat,
    br: nat,
)
    requires
        n <= row.len(),
        forall|j: int| 0 <= j < row.len() ==> without_lambda(#[trigger] row[j]),
        stands(ts, pos, written_row(row, row.len(), br)),
        ends_row(kind_at(ts, pos + written_row(row, row.len(), br).len())),
    ensures
        rows_at(ts, before.push(Seq::empty()), pos) == rows_at(
            ts,
            before.push(row.take(n as int)),
            pos + written_row(row, n, br).len(),
        ),
    decreases row, n,
{
    if n == 0 {
        assert(row.take(0) =~= Seq::<ExprView>::empty());
    } else {
        lemma_row_read(ts, pos, before, row, (n - 1) as nat, br);
        let so_far = before.push(row.take(n - 1));
        let p = pos + written_row(row, (n - 1) as nat, br).len();
        let e = row[n - 1];
        let all = written_row(row, row.len(), br);
        lemma_row_prefix(row, n, row.len(), br);
        assert(stands(ts, pos, written_row(row, n, br))) by {
            assert forall|i: int| 0 <= i < written_row(row, n, br).len() implies ts[pos + i].kind
                == #[trigger] written_row(row, n, br)[i] by {
                assert(ts[pos + i].kind == all[i]);
            }
        }
        let comma = seq![plain(TokenKind::Comma)];
        let start = if n == 1 {
            p
        } else {
            lemma_split(
                ts,
                pos,
                written_row(row, (n - 1) as nat, br) + comma,
                written(e, -1, br),
            );
            lemma_split(ts, pos, written_row(row, (n - 1) as nat, br), comma);
            lemma_single(ts, p, plain(TokenKind::Comma));
            assert(past_breaks(ts, p) == p);
            assert(rows_at(ts, so_far, p) == rows_at(ts, so_far, p + 1));
            p + 1
        };
        assert(stands(ts, start, written(e, -1, br)));
        let end = start + written(e, -1, br).len();
        assert(end == pos + written_row(row, n, br).len());
        assert(ends_expression(kind_at(ts, end))) by {
            if n < row.len() {
                lemma_row_prefix(row, n + 1, row.len(), br);
                let more = written_row(row, n + 1, br);
                let i = written_row(row, n, br).len() as int;
                assert(more[i] == plain(TokenKind::Comma));
                assert(all[i] == more[i]);
                assert(ts[pos + i].kind == all[i]);
            }
        }
        lemma_no_break(ts, start, e, -1, br);
        lemma_read(ts, start, e, -1, br);
        let next = so_far.drop_last().push(so_far.last().push(e));
        assert(expr_at(ts, start) == binary_at(ts, start, 0));
        assert(rows_at(ts, so_far, start) == rows_at(ts, next, end));
        assert(so_far.drop_last() =~= before);
        assert(row.take(n - 1).push(e) =~= row.take(n as int));
    }
}

/// The first `n` rows of a tensor literal are read.
proof fn lemma_rows_read(ts: Seq<TokenView>, pos: int, rows: Seq<Seq<ExprView>>, n: nat, br: nat)
    requires
        0 < n <= rows.len(),
        forall|i: int, j: int|
            0 <= i < rows.len() && 0 <= j < rows[i].len() ==> without_lambda(
                #[trigger] rows[i][j],
            ),
        stands(ts, pos, written_rows(rows, rows.len(), br)),
        ends_row(kind_at(ts, pos + written_rows(rows, rows.len(), br).len())),
    ensures
        rows_at(ts, seq![Seq::empty()], pos) == rows_at(
            ts,
            rows.take(n as int),
            pos + written_rows(rows, n, br).len(),
        ),
    decreases rows, n,
{
    let all = written_rows(rows, rows.len(), br);
    let row = rows[n - 1];
    let tokens = written_row(row, row.len(), br);
    let before = rows.take(n - 1);
    lemma_rows_prefix(rows, n, rows.len(), br);
    assert(stands(ts, pos, written_rows(rows, n, br))) by {
        assert forall|i: int| 0 <= i < written_rows(rows, n, br).len() implies ts[pos + i].kind
            == #[trigger] written_rows(rows, n, br)[i] by {
            assert(ts[pos + i].kind == all[i]);
        }
    }
    let end = pos + written_rows(rows, n, br).len();
    assert(ends_row(kind_at(ts, end))) by {
        if n < rows.len() {
            lemma_rows_prefix(rows, n + 1, rows.len(), br);
            let more = written_rows(rows, n + 1, br);
            let i = written_rows(rows, n, br).len() as int;
            assert(more[i] == plain(TokenKind::Semicolon));
            assert(all[i] == more[i]);
            assert(ts[pos + i].kind == all[i]);
        }
    }
    assert forall|j: int| 0 <= j < row.len() implies without_lambda(#[trigger] row[j]) by {
        assert(without_lambda(rows[n - 1][j]));
    }
    assert(row.take(row.len() as int) =~= row);
    assert(before.push(row) =~= rows.take(n as int));
    if n == 1 {
        assert(before.push(Seq::<ExprView>::empty()) =~= seq![Seq::<ExprView>::empty()]);
        lemma_row_read(ts, pos, before, row, row.len(), br);
    } else {
        lemma_rows_read(ts, pos, rows, (n - 1) as nat, br);
        let semi = seq![plain(TokenKind::Semicolon)];
        let front = written_rows(rows, (n - 1) as nat, br);
        lemma_split(ts, pos, front + semi, tokens);
        lemma_split(ts, pos, front, semi);
        let p = pos + front.len();
        lemma_single(ts, p, plain(TokenKind::Semicolon));
        assert(past_breaks(ts, p) == p);
        assert(rows_at(ts, before, p) == rows_at(ts, before.push(Seq::empty()), p + 1));
        lemma_row_read(ts, p + 1, before, row, row.len(), br);
    }
}

/// An expression that is written with the brackets that it needs, before a token
/// that ends it, is read as that expression, up to that token.
pub proof fn law_written_expressions_are_read_back(
    ts: Seq<TokenView>,
    pos: int,
    e: ExprView,
    br: nat,
)
    requires
        without_lambda(e),
        stands(ts, pos, written(e, -1, br)),
        pos + written(e, -1, br).len() < ts.len(),
        ends_expression(ts[pos + written(e, -1, br).len()].kind),
    ensures
        expr_at(ts, pos) == Ok::<(ExprView, int), ParseErrorView>(
            (e, pos + written(e, -1, br).len()),
        ),
{
    lemma_read(ts, pos, e, -1, br);
}

/// How two operators between three operands group: the tighter one first, two of
/// one tightness from the left, but two powers from the right. Two comparisons
/// do not group. Comparisons are loosest, then come `+` and `-`, then `@`, then
/// `*` and `/`, and `^` is tightest.
pub proof fn law_two_operators(
    ts: Seq<TokenView>,
    pos: int,
    a: Seq<char>,
    p: BinOpKind,
    b: Seq<char>,
    q: BinOpKind,
    c: Seq<char>,
)
    requires
        0 <= pos,
        pos + 5 < ts.len(),
        ts[pos].kind == TokenKindView::Ident(a),
        ts[pos + 1].kind == TokenKindView::Plain(
            match p {
                BinOpKind::Add => TokenKind::Plus,
                BinOpKind::Sub => TokenKind::Minus,
                BinOpKind::Mul => TokenKind::Star,
                BinOpKind::Div => TokenKind::Slash,
                BinOpKind::Pow => TokenKind::Caret,
                BinOpKind::MatMul => TokenKind::At,
                BinOpKind::Eq => TokenKind::EqEq,
                BinOpKind::Ne => TokenKind::BangEq,
                BinOpKind::Lt => TokenKind::Lt,
                BinOpKind::Le => TokenKind::Le,
                BinOpKind::Gt => TokenKind::Gt,
                BinOpKind::Ge => TokenKind::Ge,
            },
        ),
        ts[pos + 2].kind == TokenKindView::Ident(b),
        ts[pos + 3].kind == TokenKindView::Plain(
            match q {
                BinOpKind::Add => TokenKind::Plus,
                BinOpKind::Sub => TokenKind::Minus,
                BinOpKind::Mul => TokenKind::Star,
                BinOpKind::Div => TokenKind::Slash,
                BinOpKind::Pow => TokenKind::Caret,
                BinOpKind::MatMul => TokenKind::At,
                BinOpKind::Eq => TokenKind::EqEq,
                BinOpKind::Ne => TokenKind::BangEq,
                BinOpKind::Lt => TokenKind::Lt,
                BinOpKind::Le => TokenKind::Le,
                BinOpKind::Gt => TokenKind::Gt,
                BinOpKind::Ge => TokenKind::Ge,
            },
        ),
        ts[pos + 4].kind == TokenKindView::Ident(c),
        ts[pos + 5].kind == TokenKindView::Plain(TokenKind::Eof) || ts[pos + 5].kind
            == TokenKindView::Plain(TokenKind::Newline),
    ensures
        ({
            let level = |op: BinOpKind|
                match op {
                    BinOpKind::Add => 2int,
                    BinOpKind::Sub => 2,
                    BinOpKind::MatMul => 3,
                    BinOpKind::Mul => 4,
                    BinOpKind::Div => 4,
                    BinOpKind::Pow => 5,
                    _ => 1,
                };
            let x = Box::new(ExprView::Var(a));
            let y = Box::new(ExprView::Var(b));
            let z = Box::new(ExprView::Var(c));
            let from_left = ExprView::BinOp {
                op: q,
                left: Box::new(ExprView::BinOp { op: p, left: x, right: y }),
                right: z,
            };
            let from_right = ExprView::BinOp {
                op: p,
                left: x,
                right: Box::new(ExprView::BinOp { op: q, left: y, right: z }),
            };
            let both = level(p) == level(q);
            &&& level(p) > level(q) || (both && 1 < level(p) < 5) ==> expr_at(ts, pos) == Ok::<
                (ExprView, int),
                ParseErrorView,
            >((from_left, pos + 5))
            &&& level(p) < level(q) || (both && level(p) == 5) ==> expr_at(ts, pos) == Ok::<
                (ExprView, int),
                ParseErrorView,
            >((from_right, pos + 5))
            &&& both && level(p) == 1 ==> expr_at(ts, pos) == Ok::<
                (ExprView, int),
                ParseErrorView,
            >((ExprView::BinOp { op: p, left: x, right: y }, pos + 3))
        }),
{
    let x = Box::new(ExprView::Var(a));
    let y = Box::new(ExprView::Var(b));
    let z = Box::new(ExprView::Var(c));
    let pair = ExprView::BinOp { op: p, left: x, right: y };
    let other = ExprView::BinOp { op: q, left: y, right: z };
    let from_left = ExprView::BinOp { op: q, left: Box::new(pair), right: z };
    let from_right = ExprView::BinOp { op: p, left: x, right: Box::new(other) };
    let all = seq![
        TokenKindView::Ident(a),
        plain(operator_token(p)),
        TokenKindView::Ident(b),
        plain(operator_token(q)),
        TokenKindView::Ident(c),
    ];
    assert(stands(ts, pos, all)) by {
        assert(all.len() == 5);
        assert forall|i: int| 0 <= i < all.len() implies ts[pos + i].kind == #[trigger] all[i] by {
            assert(i == 0 || i == 1 || i == 2 || i == 3 || i == 4);
        }
    }
    let both = tightness(p) == tightness(q);
    let (l, m, r) = (ExprView::Var(a), ExprView::Var(b), ExprView::Var(c));
    assert(forall|f: int| f <= 8 ==> #[trigger] written(l, f, 0) == seq![TokenKindView::Ident(a)]);
    assert(forall|f: int| f <= 8 ==> #[trigger] written(m, f, 0) == seq![TokenKindView::Ident(b)]);
    assert(forall|f: int| f <= 8 ==> #[trigger] written(r, f, 0) == seq![TokenKindView::Ident(c)]);
    let front = seq![
        TokenKindView::Ident(a),
        plain(operator_token(p)),
        TokenKindView::Ident(b),
    ];
    let back = seq![
        TokenKindView::Ident(b),
        plain(operator_token(q)),
        TokenKindView::Ident(c),
    ];
    reveal_with_fuel(bare, 2);
    reveal_with_fuel(written, 2);
    reveal_with_fuel(without_lambda, 3);
    assert(bare(pair, 0) == written(l, tightness(p), 0) + seq![plain(operator_token(p))] + written(
        m,
        tightness(p), 0,
    ));
    assert(bare(pair, 0) =~= front);
    assert(bare(other, 0) == written(m, tightness(q), 0) + seq![plain(operator_token(q))] + written(
        r,
        tightness(q), 0,
    ));
    assert(bare(other, 0) =~= back);
    let k = plain(operator_token(q));
    if tightness(p) > tightness(q) || (both && 1 < tightness(p) < 5) {
        assert(bare(from_left, 0) =~= front + seq![k] + seq![TokenKindView::Ident(c)]);
        assert(written(from_left, -1, 0) =~= all);
        law_written_expressions_are_read_back(ts, pos, from_left, 0);
    }
    if tightness(p) < tightness(q) || (both && tightness(p) == 5) {
        assert(bare(from_right, 0) =~= seq![TokenKindView::Ident(a)] + seq![
            plain(operator_token(p)),
        ] + back);
        assert(written(from_right, -1, 0) =~= all);
        law_written_expressions_are_read_back(ts, pos, from_right, 0);
    }
    if both && tightness(p) == 1 {
        assert(ts[pos + 0].kind == all[0] && ts[pos + 1].kind == all[1]);
        assert(ts[pos + 2].kind == all[2] && ts[pos + 3].kind == all[3]);
        assert(stands(ts, pos, written(l, 2, 0)) && stands(ts, pos + 2, written(m, 2, 0)));
        lemma_read(ts, pos, l, 2, 0);
        lemma_read(ts, pos + 2, m, 2, 0);
        assert(binary_at(ts, pos, 1) == binary_rest(ts, l, pos + 1, 1));
        assert(binary_at(ts, pos, 1) == Ok::<(ExprView, int), ParseErrorView>((pair, pos + 3)));
        assert(binary_at(ts, pos, 0) == binary_rest(ts, pair, pos + 3, 0));
    }
}

/// Application binds tighter than the minus sign, the minus sign tighter than
/// every operator, and every operator tighter than `|>`; applications and pipes
/// group to the left.
pub proof fn law_what_binds_tighter(
    ts: Seq<TokenView>,
    pos: int,
    f: Seq<char>,
    a: Seq<char>,
    op: BinOpKind,
    b: Seq<char>,
)
    requires
        0 <= pos,
    ensures
        ({
            let x = Box::new(ExprView::Var(f));
            let y = Box::new(ExprView::Var(a));
            let z = Box::new(ExprView::Var(b));
            let applied = ExprView::App(x, y);
            let k = TokenKindView::Plain(operator_token(op));
            let name = |s: Seq<char>| TokenKindView::Ident(s);
            let pipe = TokenKindView::Plain(TokenKind::Pipe);
            let minus = TokenKindView::Plain(TokenKind::Minus);
            let reads = |ks: Seq<TokenKindView>, e: ExprView|
                pos + ks.len() < ts.len() && (forall|i: int|
                    0 <= i < ks.len() ==> ts[pos + i].kind == #[trigger] ks[i]) && ts[pos
                    + ks.len()].kind == TokenKindView::Plain(TokenKind::Eof) ==> expr_at(ts, pos)
                    == Ok::<(ExprView, int), ParseErrorView>((e, pos + ks.len()));
            &&& reads(
                seq![name(f), name(a), k, name(b)],
                ExprView::BinOp { op, left: Box::new(applied), right: z },
            )
            &&& reads(
                seq![name(b), k, name(f), name(a)],
                ExprView::BinOp { op, left: z, right: Box::new(applied) },
            )
            &&& reads(
                seq![minus, name(a), k, name(b)],
                ExprView::BinOp { op, left: Box::new(ExprView::UnaryMinus(y)), right: z },
            )
            &&& reads(
                seq![minus, name(f), name(a)],
                ExprView::UnaryMinus(Box::new(applied)),
            )
            &&& reads(
                seq![name(f), name(a), name(b)],
                ExprView::App(Box::new(applied), z),
            )
            &&& reads(
                seq![name(a), pipe, name(f), pipe, name(b)],
                ExprView::Pipe(Box::new(ExprView::Pipe(y, x)), z),
            )
            &&& reads(
                seq![name(a), k, name(b), pipe, name(f)],
                ExprView::Pipe(
                    Box::new(ExprView::BinOp { op, left: y, right: z }),
                    x,
                ),
            )
            &&& reads(
                seq![name(a), pipe, name(f), name(b)],
                ExprView::Pipe(y, Box::new(ExprView::App(x, z))),
            )
        }),
{
    let x = Box::new(ExprView::Var(f));
    let y = Box::new(ExprView::Var(a));
    let z = Box::new(ExprView::Var(b));
    let applied = ExprView::App(x, y);
    let k = plain(operator_token(op));
    let t = tightness(op);
    let pipe = plain(TokenKind::Pipe);
    let minus = plain(TokenKind::Minus);
    let (nf, na, nb) = (
        TokenKindView::Ident(f),
        TokenKindView::Ident(a),
        TokenKindView::Ident(b),
    );
    assert(forall|g: int| g <= 8 ==> #[trigger] written(*x, g, 0) == seq![nf]);
    assert(forall|g: int| g <= 8 ==> #[trigger] written(*y, g, 0) == seq![na]);
    assert(forall|g: int| g <= 8 ==> #[trigger] written(*z, g, 0) == seq![nb]);
    assert(line_breaks(0) =~= Seq::<TokenKindView>::empty());
    reveal_with_fuel(without_lambda, 4);
    assert(bare(applied, 0) =~= seq![nf, na]);
    assert(forall|g: int| g <= 7 ==> #[trigger] written(applied, g, 0) == seq![nf, na]);
    let signed = ExprView::UnaryMinus(y);
    assert(bare(signed, 0) =~= seq![minus, na]);
    assert(forall|g: int| g <= 6 ==> #[trigger] written(signed, g, 0) == seq![minus, na]);
    let e1 = ExprView::BinOp { op, left: Box::new(applied), right: z };
    assert(bare(e1, 0) =~= seq![nf, na, k, nb]);
    lemma_names_give(ts, pos, e1, seq![nf, na, k, nb]);
    let e2 = ExprView::BinOp { op, left: z, right: Box::new(applied) };
    assert(bare(e2, 0) =~= seq![nb, k, nf, na]);
    lemma_names_give(ts, pos, e2, seq![nb, k, nf, na]);
    let e3 = ExprView::BinOp { op, left: Box::new(signed), right: z };
    assert(bare(e3, 0) =~= seq![minus, na, k, nb]);
    lemma_names_give(ts, pos, e3, seq![minus, na, k, nb]);
    let e4 = ExprView::UnaryMinus(Box::new(applied));
    assert(bare(e4, 0) =~= seq![minus, nf, na]);
    lemma_names_give(ts, pos, e4, seq![minus, nf, na]);
    let e5 = ExprView::App(Box::new(applied), z);
    assert(bare(e5, 0) =~= seq![nf, na, nb]);
    lemma_names_give(ts, pos, e5, seq![nf, na, nb]);
    let inner = ExprView::Pipe(y, x);
    assert(bare(inner, 0) =~= seq![na, pipe, nf]);
    assert(written(inner, 0, 0) == seq![na, pipe, nf]);
    let e6 = ExprView::Pipe(Box::new(inner), z);
    assert(bare(e6, 0) =~= seq![na, pipe, nf, pipe, nb]);
    lemma_names_give(ts, pos, e6, seq![na, pipe, nf, pipe, nb]);
    let pair = ExprView::BinOp { op, left: y, right: z };
    assert(bare(pair, 0) =~= seq![na, k, nb]);
    assert(written(pair, 0, 0) == seq![na, k, nb]);
    let e7 = ExprView::Pipe(Box::new(pair), x);
    assert(bare(e7, 0) =~= seq![na, k, nb, pipe, nf]);
    lemma_names_give(ts, pos, e7, seq![na, k, nb, pipe, nf]);
    let call = ExprView::App(x, z);
    assert(bare(call, 0) =~= seq![nf, nb]);
    assert(written(call, 1, 0) == seq![nf, nb]);
    let e8 = ExprView::Pipe(y, Box::new(call));
    assert(bare(e8, 0) =~= seq![na, pipe, nf, nb]);
    lemma_names_give(ts, pos, e8, seq![na, pipe, nf, nb]);
}

proof fn lemma_names_give(ts: Seq<TokenView>, pos: int, e: ExprView, ks: Seq<TokenKindView>)
    requires
        0 <= pos,
        without_lambda(e),
        firmness(e) >= 0,
        bare(e, 0) == ks,
    ensures
        pos + ks.len() < ts.len() && (forall|i: int|
            0 <= i < ks.len() ==> ts[pos + i].kind == #[trigger] ks[i]) && ts[pos + ks.len()].kind
            == plain(TokenKind::Eof) ==> expr_at(ts, pos) == Ok::<(ExprView, int), ParseErrorView>(
            (e, pos + ks.len()),
        ),
{
    assert(written(e, -1, 0) == ks);
    if pos + ks.len() < ts.len() && (forall|i: int|
        0 <= i < ks.len() ==> ts[pos + i].kind == #[trigger] ks[i]) && ts[pos + ks.len()].kind
        == plain(TokenKind::Eof) {
        law_written_expressions_are_read_back(ts, pos, e, 0);
    }
}

/// The tokens of the operators.
pub proof fn law_tokens_of_operators()
    ensures
        operator_token(BinOpKind::Add) == TokenKind::Plus,
        operator_token(BinOpKind::Sub) == TokenKind::Minus,
        operator_token(BinOpKind::Mul) == TokenKind::Star,
        operator_token(BinOpKind::Div) == TokenKind::Slash,
        operator_token(BinOpKind::Pow) == TokenKind::Caret,
        operator_token(BinOpKind::MatMul) == TokenKind::At,
        operator_token(BinOpKind::Eq) == TokenKind::EqEq,
        operator_token(BinOpKind::Ne) == TokenKind::BangEq,
        operator_token(BinOpKind::Lt) == TokenKind::Lt,
        operator_token(BinOpKind::Le) == TokenKind::Le,
        operator_token(BinOpKind::Gt) == TokenKind::Gt,
        operator_token(BinOpKind::Ge) == TokenKind::Ge,
{
}

// ---------------------------------------------------------------------------
// Types
// ---------------------------------------------------------------------------

/// Whether a dimension stands alone in shape arithmetic.
pub open spec fn is_dim_atom(d: DimExprView) -> bool {
    match d {
        DimExprView::Lit(n) => n <= i64::MAX,
        DimExprView::Var(_) => true,
        _ => false,
    }
}

/// Whether shape arithmetic is a product of dimensions, grouped to the left.
pub open spec fn is_dim_term(d: DimExprView) -> bool
    decreases d,
{
    match d {
        DimExprView::Mul(a, b) => is_dim_term(*a) && is_dim_atom(*b),
        _ => is_dim_atom(d),
    }
}

/// Whether shape arithmetic can be written: sums and differences of products,
/// grouped to the left, as there are no brackets in it.
pub open spec fn is_dim_sum(d: DimExprView) -> bool
    decreases d,
{
    match d {
        DimExprView::Add(a, b) => is_dim_sum(*a) && is_dim_term(*b),
        DimExprView::Sub(a, b) => is_dim_sum(*a) && is_dim_term(*b),
        _ => is_dim_term(d),
    }
}

/// Whether a type can be written. Every tensor type has a dimension, and types
/// are applied to names only.
pub open spec fn is_writable(ty: TypeExprView) -> bool
    decreases ty,
{
    match ty {
        TypeExprView::Named(_) => true,
        TypeExprView::Arrow(a, b) => is_writable(*a) && is_writable(*b),
        TypeExprView::App(f, a) => (*f is Named || *f is App) && is_writable(*f) && *a is Named,
        TypeExprView::Tensor(dims) => dims.len() > 0 && forall|i: int|
            0 <= i < dims.len() ==> is_dim_writable(#[trigger] dims[i]),
    }
}

/// Whether a dimension of a type can be written: arithmetic is more than one
/// dimension.
pub open spec fn is_dim_writable(d: TypeDimView) -> bool {
    match d {
        TypeDimView::Fixed(n) => n <= i64::MAX,
        TypeDimView::Var(_) => true,
        TypeDimView::Expr(e) => is_dim_sum(e) && !is_dim_atom(e),
    }
}

/// Shape arithmetic as it is written.
pub open spec fn written_dim(d: DimExprView) -> Seq<TokenKindView>
    decreases d,
{
    match d {
        DimExprView::Lit(n) => seq![plain(TokenKind::Int(n as i64))],
        DimExprView::Var(s) => seq![TokenKindView::Ident(s)],
        DimExprView::Add(a, b) => written_dim(*a) + seq![plain(TokenKind::Plus)] + written_dim(*b),
        DimExprView::Sub(a, b) => written_dim(*a) + seq![plain(TokenKind::Minus)] + written_dim(*b),
        DimExprView::Mul(a, b) => written_dim(*a) + seq![plain(TokenKind::Star)] + written_dim(*b),
    }
}

/// A dimension of a type as it is written.
pub open spec fn written_type_dim(d: TypeDimView) -> Seq<TokenKindView> {
    match d {
        TypeDimView::Fixed(n) => written_dim(DimExprView::Lit(n)),
        TypeDimView::Var(s) => written_dim(DimExprView::Var(s)),
        TypeDimView::Expr(e) => written_dim(e),
    }
}

/// The first `n` dimensions of a type, `,` between them.
pub open spec fn written_dims(dims: Seq<TypeDimView>, n: nat) -> Seq<TokenKindView>
    decreases n,
{
    if n == 0 || n > dims.len() {
        Seq::empty()
    } else if n == 1 {
        written_type_dim(dims[0])
    } else {
        written_dims(dims, (n - 1) as nat) + seq![plain(TokenKind::Comma)] + written_type_dim(
            dims[n - 1],
        )
    }
}

/// A type as it is written. Arrows group to the right; one in front of another
/// is in brackets.
pub open spec fn written_type(ty: TypeExprView) -> Seq<TokenKindView>
    decreases ty, 0nat,
{
    match ty {
        TypeExprView::Named(n) => seq![TokenKindView::Ident(n)],
        TypeExprView::App(f, a) => written_type(*f) + written_type(*a),
        TypeExprView::Tensor(dims) => seq![
            TokenKindView::Ident("Tensor"@),
            plain(TokenKind::LBrack),
        ] + written_dims(dims, dims.len()) + seq![plain(TokenKind::RBrack)],
        TypeExprView::Arrow(a, b) => (if *a is Arrow {
            seq![plain(TokenKind::LParen)] + written_type(*a) + seq![plain(TokenKind::RParen)]
        } else {
            written_type(*a)
        }) + seq![plain(TokenKind::Arrow)] + written_type(*b),
    }
}

proof fn lemma_dim_atom_read(ts: Seq<TokenView>, pos: int, d: DimExprView)
    requires
        is_dim_atom(d),
        stands(ts, pos, written_dim(d)),
    ensures
        written_dim(d).len() == 1,
        dim_atom_at(ts, pos) == Ok::<(DimExprView, int), ParseErrorView>((d, pos + 1)),
        pos < ts.len(),
{
    assert(ts[pos + 0].kind == written_dim(d)[0]);
}

/// A product of dimensions is read as far as it goes.
proof fn lemma_dim_term_read(ts: Seq<TokenView>, pos: int, d: DimExprView)
    requires
        is_dim_term(d),
        stands(ts, pos, written_dim(d)),
    ensures
        written_dim(d).len() > 0,
        dim_term_at(ts, pos) == dim_term_rest(ts, d, pos + written_dim(d).len()),
    decreases d,
{
    if let DimExprView::Mul(a, b) = d {
        let op = seq![plain(TokenKind::Star)];
        lemma_split(ts, pos, written_dim(*a) + op, written_dim(*b));
        lemma_split(ts, pos, written_dim(*a), op);
        let p = pos + written_dim(*a).len();
        lemma_single(ts, p, plain(TokenKind::Star));
        lemma_dim_term_read(ts, pos, *a);
        lemma_dim_atom_read(ts, p + 1, *b);
        assert(dim_term_rest(ts, *a, p) == dim_term_rest(ts, d, p + 2));
    } else {
        lemma_dim_atom_read(ts, pos, d);
    }
}

/// A sum of products is read as far as it goes.
proof fn lemma_dim_sum_read(ts: Seq<TokenView>, pos: int, d: DimExprView)
    requires
        is_dim_sum(d),
        stands(ts, pos, written_dim(d)),
        !is_at(ts, pos + written_dim(d).len(), TokenKind::Star),
    ensures
        written_dim(d).len() > 0,
        dim_expr_at(ts, pos) == dim_expr_rest(ts, d, pos + written_dim(d).len()),
    decreases d,
{
    let q = pos + written_dim(d).len();
    let sum = match d {
        DimExprView::Add(a, b) => Some((a, b, TokenKind::Plus)),
        DimExprView::Sub(a, b) => Some((a, b, TokenKind::Minus)),
        _ => None,
    };
    if let Some((a, b, k)) = sum {
        let op = seq![plain(k)];
        lemma_split(ts, pos, written_dim(*a) + op, written_dim(*b));
        lemma_split(ts, pos, written_dim(*a), op);
        let p = pos + written_dim(*a).len();
        lemma_single(ts, p, plain(k));
        lemma_dim_sum_read(ts, pos, *a);
        lemma_dim_term_read(ts, p + 1, *b);
        assert(dim_term_at(ts, p + 1) == Ok::<(DimExprView, int), ParseErrorView>((*b, q)));
        assert(dim_expr_rest(ts, *a, p) == dim_expr_rest(ts, d, q));
    } else {
        lemma_dim_term_read(ts, pos, d);
        assert(dim_term_at(ts, pos) == Ok::<(DimExprView, int), ParseErrorView>((d, q)));
    }
}

/// A dimension of a type is read.
proof fn lemma_type_dim_read(ts: Seq<TokenView>, pos: int, d: TypeDimView)
    requires
        is_dim_writable(d),
        stands(ts, pos, written_type_dim(d)),
        is_at(ts, pos + written_type_dim(d).len(), TokenKind::Comma) || is_at(
            ts,
            pos + written_type_dim(d).len(),
            TokenKind::RBrack,
        ),
    ensures
        written_type_dim(d).len() > 0,
        ({
            let r = dim_expr_at(ts, pos);
            &&& r matches Ok((e, p))
            &&& crate::parser::folded_dim(e) == d
            &&& p == pos + written_type_dim(d).len()
        }),
{
    let e = match d {
        TypeDimView::Fixed(n) => DimExprView::Lit(n),
        TypeDimView::Var(s) => DimExprView::Var(s),
        TypeDimView::Expr(e) => e,
    };
    lemma_dim_sum_read(ts, pos, e);
}

proof fn lemma_dims_prefix(dims: Seq<TypeDimView>, j: nat, n: nat)
    requires
        j <= n <= dims.len(),
    ensures
        written_dims(dims, j).len() <= written_dims(dims, n).len(),
        forall|i: int|
            0 <= i < written_dims(dims, j).len() ==> written_dims(dims, n)[i]
                == #[trigger] written_dims(dims, j)[i],
    decreases n,
{
    if j < n {
        lemma_dims_prefix(dims, j, (n - 1) as nat);
        if n > 1 {
            let before = written_dims(dims, (n - 1) as nat);
            assert forall|i: int| 0 <= i < written_dims(dims, j).len() implies written_dims(
                dims,
                n,
            )[i] == #[trigger] written_dims(dims, j)[i] by {
                assert(before[i] == written_dims(dims, j)[i]);
            }
        }
    }
}

/// The first `n` dimensions of a tensor type are read, but for the last of them.
proof fn lemma_dims_read(ts: Seq<TokenView>, pos: int, dims: Seq<TypeDimView>, n: nat)
    requires
        0 < n <= dims.len(),
        forall|i: int| 0 <= i < dims.len() ==> is_dim_writable(#[trigger] dims[i]),
        stands(ts, pos, written_dims(dims, dims.len())),
        is_at(ts, pos + written_dims(dims, dims.len()).len(), TokenKind::RBrack),
    ensures
        ({
            let last = written_type_dim(dims[n - 1]).len();
            let end = pos + written_dims(dims, n).len();
            &&& dims_at(ts, Seq::empty(), pos) == dims_at(ts, dims.take(n - 1), end - last)
            &&& stands(ts, end - last, written_type_dim(dims[n - 1]))
            &&& n < dims.len() ==> is_at(ts, end, TokenKind::Comma)
            &&& n == dims.len() ==> is_at(ts, end, TokenKind::RBrack)
        }),
    decreases n,
{
    let all = written_dims(dims, dims.len());
    let d = dims[n - 1];
    let end = pos + written_dims(dims, n).len();
    lemma_dims_prefix(dims, n, dims.len());
    assert(stands(ts, pos, written_dims(dims, n))) by {
        assert forall|i: int| 0 <= i < written_dims(dims, n).len() implies ts[pos + i].kind
            == #[trigger] written_dims(dims, n)[i] by {
            assert(ts[pos + i].kind == all[i]);
        }
    }
    if n < dims.len() {
        lemma_dims_prefix(dims, n + 1, dims.len());
        let more = written_dims(dims, n + 1);
        let i = written_dims(dims, n).len() as int;
        assert(more[i] == plain(TokenKind::Comma));
        assert(all[i] == more[i]);
        assert(ts[pos + i].kind == all[i]);
    }
    if n == 1 {
        assert(dims.take(0) =~= Seq::<TypeDimView>::empty());
    } else {
        let comma = seq![plain(TokenKind::Comma)];
        let front = written_dims(dims, (n - 1) as nat);
        lemma_split(ts, pos, front + comma, written_type_dim(d));
        lemma_split(ts, pos, front, comma);
        let p = pos + front.len();
        lemma_dims_read(ts, pos, dims, (n - 1) as nat);
        let start = p - written_type_dim(dims[n - 2]).len();
        lemma_type_dim_read(ts, start, dims[n - 2]);
        assert(dims.take(n - 2).push(dims[n - 2]) =~= dims.take(n - 1));
        assert(dims_at(ts, dims.take(n - 2), start) == dims_at(ts, dims.take(n - 1), p + 1));
    }
}

/// Whether no type goes on with a token of this kind.
pub open spec fn ends_type(k: TokenKindView) -> bool {
    k == plain(TokenKind::Newline) || k == plain(TokenKind::Eof) || k == plain(TokenKind::RParen)
}

/// A type name and its arguments are read as far as they go.
proof fn lemma_type_args_read(ts: Seq<TokenView>, pos: int, ty: TypeExprView)
    requires
        ty is Named || ty is App,
        is_writable(ty),
        stands(ts, pos, written_type(ty)),
        !is_at(ts, pos + 1, TokenKind::LBrack) || ty is App,
    ensures
        type_atom_at(ts, pos) == type_args_at(ts, ty, pos + written_type(ty).len()),
        written_type(ty).len() > 0,
    decreases ty,
{
    match ty {
        TypeExprView::Named(n) => {
            lemma_single(ts, pos, TokenKindView::Ident(n));
        },
        TypeExprView::App(f, a) => {
            lemma_split(ts, pos, written_type(*f), written_type(*a));
            let p = pos + written_type(*f).len();
            lemma_single(ts, p, written_type(*a)[0]);
            if *f is Named {
                assert(p == pos + 1);
            }
            lemma_type_args_read(ts, pos, *f);
            assert(type_args_at(ts, *f, p) == type_args_at(ts, ty, p + 1));
        },
        _ => {},
    }
}

/// A type that is no arrow is read.
proof fn lemma_type_atom_read(ts: Seq<TokenView>, pos: int, ty: TypeExprView)
    requires
        is_writable(ty),
        !(ty is Arrow),
        stands(ts, pos, written_type(ty)),
        ends_type(kind_at(ts, pos + written_type(ty).len())) || is_at(
            ts,
            pos + written_type(ty).len(),
            TokenKind::Arrow,
        ),
    ensures
        type_atom_at(ts, pos) == Ok::<(TypeExprView, int), ParseErrorView>(
            (ty, pos + written_type(ty).len()),
        ),
        written_type(ty).len() > 0,
{
    let q = pos + written_type(ty).len();
    if let TypeExprView::Tensor(dims) = ty {
        let open = seq![TokenKindView::Ident("Tensor"@), plain(TokenKind::LBrack)];
        let inner = written_dims(dims, dims.len());
        let close = seq![plain(TokenKind::RBrack)];
        lemma_split(ts, pos, open + inner, close);
        lemma_split(ts, pos, open, inner);
        lemma_single(ts, q - 1, plain(TokenKind::RBrack));
        assert(ts[pos + 0].kind == open[0] && ts[pos + 1].kind == open[1]);
        let n = dims.len();
        lemma_dims_read(ts, pos + 2, dims, n);
        let start = q - 1 - written_type_dim(dims[n - 1]).len();
        lemma_type_dim_read(ts, start, dims[n - 1]);
        assert(dims.take(n - 1).push(dims[n - 1]) =~= dims);
        assert(dims_at(ts, dims.take(n - 1), start) == Ok::<(TypeExprView, int), ParseErrorView>(
            (ty, q),
        ));
    } else {
        lemma_type_args_read(ts, pos, ty);
    }
}

/// A type is read.
proof fn lemma_type_read(ts: Seq<TokenView>, pos: int, ty: TypeExprView)
    requires
        is_writable(ty),
        stands(ts, pos, written_type(ty)),
        ends_type(kind_at(ts, pos + written_type(ty).len())),
    ensures
        type_at(ts, pos) == Ok::<(TypeExprView, int), ParseErrorView>(
            (ty, pos + written_type(ty).len()),
        ),
        written_type(ty).len() > 0,
    decreases ty,
{
    let q = pos + written_type(ty).len();
    if let TypeExprView::Arrow(a, b) = ty {
        let open = seq![plain(TokenKind::LParen)];
        let close = seq![plain(TokenKind::RParen)];
        let front = if *a is Arrow {
            open + written_type(*a) + close
        } else {
            written_type(*a)
        };
        let arrow = seq![plain(TokenKind::Arrow)];
        lemma_split(ts, pos, front + arrow, written_type(*b));
        lemma_split(ts, pos, front, arrow);
        let p = pos + front.len();
        lemma_single(ts, p, plain(TokenKind::Arrow));
        lemma_type_read(ts, p + 1, *b);
        if *a is Arrow {
            lemma_split(ts, pos, open + written_type(*a), close);
            lemma_split(ts, pos, open, written_type(*a));
            lemma_single(ts, pos, plain(TokenKind::LParen));
            lemma_single(ts, p - 1, plain(TokenKind::RParen));
            lemma_type_read(ts, pos + 1, *a);
            assert(type_atom_at(ts, pos) == Ok::<(TypeExprView, int), ParseErrorView>((*a, p)));
        } else {
            lemma_type_atom_read(ts, pos, *a);
        }
    } else {
        lemma_type_atom_read(ts, pos, ty);
    }
}

// ---------------------------------------------------------------------------
// Programs
// ---------------------------------------------------------------------------

/// An item as it is written.
pub open spec fn written_item(item: TopLevelView, br: nat) -> Seq<TokenKindView> {
    match item {
        TopLevelView::Binding { name, params, body } => seq![TokenKindView::Ident(name)]
            + written_names(params) + seq![plain(TokenKind::Eq)] + line_breaks(br) + written(
            body,
            -1,
            br,
        ),
        TopLevelView::TypeAnnotation { name, ty } => seq![
            TokenKindView::Ident(name),
            plain(TokenKind::Colon),
        ] + written_type(ty),
    }
}

/// Whether an item can be written.
pub open spec fn is_item_writable(item: TopLevelView) -> bool {
    match item {
        TopLevelView::Binding { name, params, body } => without_lambda(body),
        TopLevelView::TypeAnnotation { name, ty } => is_writable(ty),
    }
}

/// The first `n` items, each on a line of its own.
pub open spec fn written_items(items: Seq<TopLevelView>, n: nat, br: nat) -> Seq<TokenKindView>
    decreases n,
{
    if n == 0 || n > items.len() {
        Seq::empty()
    } else {
        written_items(items, (n - 1) as nat, br) + written_item(items[n - 1], br) + seq![
            plain(TokenKind::Newline),
        ]
    }
}

proof fn lemma_item_read(ts: Seq<TokenView>, pos: int, item: TopLevelView, br: nat)
    requires
        is_item_writable(item),
        stands(ts, pos, written_item(item, br)),
        is_at(ts, pos + written_item(item, br).len(), TokenKind::Newline),
    ensures
        top_level_at(ts, pos) == Ok::<(TopLevelView, int), ParseErrorView>(
            (item, pos + written_item(item, br).len()),
        ),
        kind_at(ts, pos) is Ident,
        written_item(item, br).len() > 0,
{
    let q = pos + written_item(item, br).len();
    match item {
        TopLevelView::Binding { name, params, body } => {
            let a = seq![TokenKindView::Ident(name)];
            let b = written_names(params);
            let c = seq![plain(TokenKind::Eq)];
            let w = line_breaks(br);
            lemma_split(ts, pos, a + b + c + w, written(body, -1, br));
            lemma_split(ts, pos, a + b + c, w);
            lemma_split(ts, pos, a + b, c);
            lemma_split(ts, pos, a, b);
            lemma_single(ts, pos, TokenKindView::Ident(name));
            let p = pos + 1 + b.len();
            lemma_single(ts, p, plain(TokenKind::Eq));
            lemma_names_read(ts, pos + 1, params);
            if params.len() > 0 {
                assert(ts[pos + 1 + 0].kind == b[0]);
            }
            lemma_no_break(ts, p + 1 + br, body, -1, br);
            lemma_breaks_read(ts, p + 1, br);
            lemma_read(ts, p + 1 + br, body, -1, br);
            assert(expr_at(ts, p + 1 + br) == binary_at(ts, p + 1 + br, 0));
            assert(head_at(ts, pos + 1) == Ok::<(Seq<Seq<char>>, int), ParseErrorView>(
                (params, p + 1 + br),
            ));
        },
        TopLevelView::TypeAnnotation { name, ty } => {
            let a = seq![TokenKindView::Ident(name), plain(TokenKind::Colon)];
            lemma_split(ts, pos, a, written_type(ty));
            assert(ts[pos + 0].kind == a[0] && ts[pos + 1].kind == a[1]);
            lemma_type_read(ts, pos + 2, ty);
        },
    }
}

proof fn lemma_items_prefix(items: Seq<TopLevelView>, j: nat, n: nat, br: nat)
    requires
        j <= n <= items.len(),
    ensures
        written_items(items, j, br).len() <= written_items(items, n, br).len(),
        forall|i: int|
            0 <= i < written_items(items, j, br).len() ==> written_items(items, n, br)[i]
                == #[trigger] written_items(items, j, br)[i],
    decreases n,
{
    if j < n {
        lemma_items_prefix(items, j, (n - 1) as nat, br);
        let before = written_items(items, (n - 1) as nat, br);
        assert forall|i: int| 0 <= i < written_items(items, j, br).len() implies written_items(
            items,
            n,
            br,
        )[i] == #[trigger] written_items(items, j, br)[i] by {
            assert(before[i] == written_items(items, j, br)[i]);
        }
    }
}

/// The first `n` items are read.
proof fn lemma_items_read(ts: Seq<TokenView>, items: Seq<TopLevelView>, n: nat, br: nat)
    requires
        n <= items.len(),
        forall|i: int| 0 <= i < items.len() ==> is_item_writable(#[trigger] items[i]),
        stands(ts, 0, written_items(items, items.len(), br)),
    ensures
        items_at(ts, Seq::empty(), 0) == items_at(
            ts,
            items.take(n as int),
            written_items(items, n, br).len() as int,
        ),
    decreases n,
{
    if n == 0 {
        assert(items.take(0) =~= Seq::<TopLevelView>::empty());
    } else {
        lemma_items_read(ts, items, (n - 1) as nat, br);
        let all = written_items(items, items.len(), br);
        let item = items[n - 1];
        let front = written_items(items, (n - 1) as nat, br);
        let line = seq![plain(TokenKind::Newline)];
        lemma_items_prefix(items, n, items.len(), br);
        assert(stands(ts, 0, written_items(items, n, br))) by {
            assert forall|i: int| 0 <= i < written_items(items, n, br).len() implies ts[0 + i].kind
                == #[trigger] written_items(items, n, br)[i] by {
                assert(ts[0 + i].kind == all[i]);
            }
        }
        lemma_split(ts, 0, front + written_item(item, br), line);
        lemma_split(ts, 0, front, written_item(item, br));
        let p = front.len() as int;
        let q = p + written_item(item, br).len();
        lemma_single(ts, q, plain(TokenKind::Newline));
        lemma_item_read(ts, p, item, br);
        assert(past_breaks(ts, p) == p);
        assert(items.take(n - 1).push(item) =~= items.take(n as int));
        assert(items_at(ts, items.take(n - 1), p) == items_at(ts, items.take(n as int), q));
        assert(past_breaks(ts, q) == past_breaks(ts, q + 1));
        assert(items_at(ts, items.take(n as int), q) == items_at(
            ts,
            items.take(n as int),
            q + 1,
        ));
    }
}

/// A program that is written item by item, each on a line of its own and with
/// the brackets that it needs, is read as that program, however many line breaks
/// stand where they may.
pub proof fn law_written_programs_are_read_back(
    ts: Seq<TokenView>,
    items: Seq<TopLevelView>,
    br: nat,
)
    requires
        forall|i: int| 0 <= i < items.len() ==> is_item_writable(#[trigger] items[i]),
        stands(
            ts,
            0,
            written_items(items, items.len(), br) + seq![plain(TokenKind::Eof)],
        ),
    ensures
        parse_model(ts) == Ok::<Seq<TopLevelView>, ParseErrorView>(items),
{
    let all = written_items(items, items.len(), br);
    lemma_split(ts, 0, all, seq![plain(TokenKind::Eof)]);
    lemma_single(ts, all.len() as int, plain(TokenKind::Eof));
    lemma_items_read(ts, items, items.len(), br);
    assert(items.take(items.len() as int) =~= items);
    assert(past_breaks(ts, all.len() as int) == all.len());
}

// ---------------------------------------------------------------------------
// What was expected
// ---------------------------------------------------------------------------

/// The error for a token where something else was expected.
pub open spec fn refused<T>(
    r: Result<T, ParseErrorView>,
    ts: Seq<TokenView>,
    pos: int,
    expected: Seq<char>,
) -> bool {
    r matches Err(e) && e == (ParseErrorView::UnexpectedToken {
        got: ts[pos].kind,
        expected,
        span: ts[pos].span,
    })
}

/// Whether an expression can start with a token: a literal, a name, an opening
/// bracket, `let`, `if` or a minus sign.
pub open spec fn starts_expression(k: TokenKindView) -> bool {
    match k {
        TokenKindView::Float(_) => true,
        TokenKindView::Ident(_) => true,
        TokenKindView::Plain(p) => p is Int || p is Bool || p is LParen || p is LBrack || p is Let
            || p is If || p is Minus,
    }
}

/// An expression is expected where none starts; a name behind `let`; a type behind
/// `:`; a definition where an item has to start.
pub proof fn law_what_was_expected(ts: Seq<TokenView>, pos: int)
    requires
        0 <= pos < ts.len(),
    ensures
        !starts_expression(ts[pos].kind) ==> refused(expr_at(ts, pos), ts, pos, "式"@),
        !(ts[pos].kind is Ident) && ts[pos].kind != plain(TokenKind::LParen) ==> refused(
            type_at(ts, pos),
            ts,
            pos,
            "型式"@,
        ),
        !(ts[pos].kind is Ident) ==> refused(
            top_level_at(ts, pos),
            ts,
            pos,
            "識別子（トップレベル定義名）"@,
        ),
        !(ts[pos].kind is Ident) && !(ts[pos].kind matches TokenKindView::Plain(k) && k is Int)
            ==> refused(dim_expr_at(ts, pos), ts, pos, "次元（整数または識別子）"@),
        pos + 1 < ts.len() && ts[pos].kind == plain(TokenKind::Let) && !(ts[pos + 1].kind is Ident)
            ==> refused(atom_at(ts, pos), ts, pos + 1, "識別子"@),
{
    if !starts_expression(ts[pos].kind) {
        assert(refused(atom_at(ts, pos), ts, pos, "式"@));
        assert(refused(application_at(ts, pos), ts, pos, "式"@));
        assert(refused(unary_at(ts, pos), ts, pos, "式"@));
        assert(refused(binary_at(ts, pos, 6), ts, pos, "式"@));
        assert(refused(binary_at(ts, pos, 5), ts, pos, "式"@));
        assert(refused(binary_at(ts, pos, 4), ts, pos, "式"@));
        assert(refused(binary_at(ts, pos, 3), ts, pos, "式"@));
        assert(refused(binary_at(ts, pos, 2), ts, pos, "式"@));
        assert(refused(binary_at(ts, pos, 1), ts, pos, "式"@));
        assert(refused(binary_at(ts, pos, 0), ts, pos, "式"@));
    }
    if !(ts[pos].kind is Ident) && ts[pos].kind != plain(TokenKind::LParen) {
        assert(refused(type_atom_at(ts, pos), ts, pos, "型式"@));
    }
}

/// Behind an expression in brackets its `)` is expected, behind a condition
/// `then`, behind the first branch `else`, behind the value of a `let` its `in`,
/// and behind the parameters of a definition `=`.
pub proof fn law_what_has_to_follow(ts: Seq<TokenView>, pos: int, q: int, e: ExprView)
    requires
        0 <= pos < q,
        q < ts.len(),
        !is_at(ts, pos, TokenKind::Newline),
        !is_at(ts, q, TokenKind::Newline),
        expr_at(ts, pos) == Ok::<(ExprView, int), ParseErrorView>((e, q)),
    ensures
        pos > 0 && ts[pos - 1].kind == plain(TokenKind::LParen) ==> if ts[q].kind == plain(
            TokenKind::RParen,
        ) {
            atom_at(ts, pos - 1) == Ok::<(ExprView, int), ParseErrorView>((e, q + 1))
        } else {
            refused(atom_at(ts, pos - 1), ts, q, ")"@)
        },
        pos > 0 && ts[pos - 1].kind == plain(TokenKind::If) && ts[q].kind != plain(TokenKind::Then)
            ==> refused(atom_at(ts, pos - 1), ts, q, "then"@),
        ts[q].kind != plain(TokenKind::Else) ==> refused(
            clause_at(ts, pos, TokenKind::Else, "else"@),
            ts,
            q,
            "else"@,
        ),
        pos > 2 && ts[pos - 3].kind == plain(TokenKind::Let) && ts[pos - 2].kind is Ident && ts[pos
            - 1].kind == plain(TokenKind::Eq) && ts[q].kind != plain(TokenKind::In) ==> refused(
            atom_at(ts, pos - 3),
            ts,
            q,
            "in"@,
        ),
        !(ts[pos].kind is Ident) && ts[pos].kind != plain(TokenKind::Eq) ==> refused(
            head_at(ts, pos),
            ts,
            pos,
            "="@,
        ),
{
    assert(past_breaks(ts, pos) == pos);
    assert(past_breaks(ts, q) == q);
    if pos > 2 && ts[pos - 3].kind == plain(TokenKind::Let) && ts[pos - 2].kind is Ident && ts[pos
        - 1].kind == plain(TokenKind::Eq) {
        assert(names_at(ts, pos - 1) =~= Seq::empty());
        assert(head_at(ts, pos - 1) == Ok::<(Seq<Seq<char>>, int), ParseErrorView>(
            (Seq::empty(), pos),
        ));
        assert(atom_at(ts, pos - 3) == let_at(ts, pos - 3));
    }
    if pos > 0 && ts[pos - 1].kind == plain(TokenKind::If) {
        assert(atom_at(ts, pos - 1) == if_at(ts, pos - 1));
    }
    if !(ts[pos].kind is Ident) {
        assert(names_at(ts, pos) =~= Seq::empty());
    }
}

/// Behind the first dimension of a tensor type a comma or its bracket is expected.
pub proof fn law_what_has_to_follow_a_dimension(ts: Seq<TokenView>, pos: int, d: Seq<char>)
    requires
        0 <= pos,
        pos + 3 < ts.len(),
        ts[pos].kind == TokenKindView::Ident("Tensor"@),
        ts[pos + 1].kind == plain(TokenKind::LBrack),
        ts[pos + 2].kind == TokenKindView::Ident(d),
        !(ts[pos + 3].kind matches TokenKindView::Plain(k) && (k is Comma || k is RBrack || k
            is Star || k is Plus || k is Minus)),
    ensures
        refused(type_at(ts, pos), ts, pos + 3, "`,` または `]`"@),
{
    assert(dim_term_at(ts, pos + 2) == Ok::<(DimExprView, int), ParseErrorView>(
        (DimExprView::Var(d), pos + 3),
    ));
    assert(dim_expr_at(ts, pos + 2) == Ok::<(DimExprView, int), ParseErrorView>(
        (DimExprView::Var(d), pos + 3),
    ));
    assert(refused(dims_at(ts, Seq::empty(), pos + 2), ts, pos + 3, "`,` または `]`"@));
    assert(refused(type_atom_at(ts, pos), ts, pos + 3, "`,` または `]`"@));
}

/// A program is refused at the first token that can neither end what is before it
/// nor start a new item.
pub proof fn law_items_follow_items(ts: Seq<TokenView>, items: Seq<TopLevelView>, q: int)
    requires
        0 <= q < ts.len(),
        ts[q].kind != plain(TokenKind::Newline),
        ts[q].kind != plain(TokenKind::Eof),
        !(ts[q].kind is Ident),
    ensures
        refused(items_at(ts, items, q), ts, q, "識別子（トップレベル定義名）"@),
{
    assert(past_breaks(ts, q) == q);
}

// ---------------------------------------------------------------------------
// What may be repeated
// ---------------------------------------------------------------------------

/// Commas in a tensor literal may be left out or repeated: one by itself changes
/// nothing. A semicolon starts a row, even if that stays empty.
pub proof fn law_separators_of_a_literal(ts: Seq<TokenView>, rows: Seq<Seq<ExprView>>, pos: int)
    requires
        0 <= pos < ts.len(),
    ensures
        ts[pos].kind == plain(TokenKind::Comma) ==> rows_at(ts, rows, pos) == rows_at(
            ts,
            rows,
            pos + 1,
        ),
        ts[pos].kind == plain(TokenKind::Semicolon) ==> rows_at(ts, rows, pos) == rows_at(
            ts,
            rows.push(Seq::empty()),
            pos + 1,
        ),
        ts[pos].kind == plain(TokenKind::RBrack) ==> rows_at(ts, rows, pos) == Ok::<
            (ExprView, int),
            ParseErrorView,
        >((ExprView::TensorLit(rows), pos + 1)),
{
    assert(ts[pos].kind != plain(TokenKind::Newline) ==> past_breaks(ts, pos) == pos);
}

/// A minus sign may stand before another: the second is the sign of what stands
/// behind it by itself.
pub proof fn law_signs_may_be_repeated(ts: Seq<TokenView>, pos: int)
    requires
        0 <= pos,
        pos + 1 < ts.len(),
        ts[pos].kind == plain(TokenKind::Minus),
    ensures
        atom_at(ts, pos + 1) matches Ok((e, q)) ==> {
            let negative = ExprView::UnaryMinus(Box::new(e));
            &&& atom_at(ts, pos) == Ok::<(ExprView, int), ParseErrorView>((negative, q))
            &&& pos + 1 < q < ts.len() && !starts_atom(ts[q].kind) ==> unary_at(ts, pos) == Ok::<
                (ExprView, int),
                ParseErrorView,
            >((negative, q))
        },
{
    if let Ok((e, q)) = atom_at(ts, pos + 1) {
        if pos + 1 < q < ts.len() && !starts_atom(ts[q].kind) {
            assert(application_at(ts, pos + 1) == arguments_at(ts, e, q));
        }
    }
}

// ---------------------------------------------------------------------------
// What results stand for
// ---------------------------------------------------------------------------

/// What was read agrees with the grammar only where it is that tree and reading
/// stopped at that position, or where it is that error.
pub proof fn law_trees_agree_exactly(
    r: Result<Expr, ParseError>,
    end: int,
    e: ExprView,
    p: int,
    error: ParseErrorView,
)
    ensures
        agrees(r, end, Ok((e, p))) <==> r is Ok && r->Ok_0@ == e && end == p,
        agrees(r, end, Err(error)) <==> r is Err && r->Err_0@ == error,
{
}

/// A token, and an error about one, is what it says.
pub proof fn law_tokens_are_what_they_are(
    kind: TokenKind,
    s: String,
    span: Span,
    expected: &'static str,
    ts: Seq<Token>,
)
    ensures
        TokenKind::Float(s)@ == TokenKindView::Float(s@),
        TokenKind::Ident(s)@ == TokenKindView::Ident(s@),
        !(kind is Float) && !(kind is Ident) ==> kind@ == TokenKindView::Plain(kind),
        (Token { kind, span })@ == (TokenView { kind: kind@, span }),
        tokens_of(ts).len() == ts.len(),
        forall|i: int| 0 <= i < ts.len() ==> #[trigger] tokens_of(ts)[i] == ts[i]@,
        (ParseError::UnexpectedToken { got: kind, expected, span })@ == (
        ParseErrorView::UnexpectedToken { got: kind@, expected: expected@, span }),
        (ParseError::UnexpectedEof { expected })@ == (ParseErrorView::UnexpectedEof {
            expected: expected@,
        }),
{
}

/// A tree is what it says, part by part.
pub proof fn law_trees_are_what_they_are(
    n: i64,
    t: bool,
    s: String,
    op: BinOpKind,
    a: Box<Expr>,
    b: Box<Expr>,
    c: Box<Expr>,
    params: Vec<String>,
    rows: Vec<Vec<Expr>>,
)
    ensures
        Expr::Lit(Literal::Int(n))@ == ExprView::Lit(LiteralView::Int(n)),
        Expr::Lit(Literal::Bool(t))@ == ExprView::Lit(LiteralView::Bool(t)),
        Expr::Lit(Literal::Float(s))@ == ExprView::Lit(LiteralView::Float(s@)),
        Expr::Var(s)@ == ExprView::Var(s@),
        Expr::App(a, b)@ == ExprView::App(Box::new((*a)@), Box::new((*b)@)),
        Expr::Pipe(a, b)@ == ExprView::Pipe(Box::new((*a)@), Box::new((*b)@)),
        Expr::UnaryMinus(a)@ == ExprView::UnaryMinus(Box::new((*a)@)),
        (Expr::BinOp { op, left: a, right: b })@ == (ExprView::BinOp {
            op,
            left: Box::new((*a)@),
            right: Box::new((*b)@),
        }),
        (Expr::If { cond: a, then: b, else_: c })@ == (ExprView::If {
            cond: Box::new((*a)@),
            then: Box::new((*b)@),
            else_: Box::new((*c)@),
        }),
        ({
            let e = (Expr::Let { name: s, params, value: a, body: b })@;
            &&& e matches ExprView::Let { name, params: names, value, body }
            &&& name == s@ && *value == (*a)@ && *body == (*b)@
            &&& names.len() == params@.len()
            &&& forall|i: int| 0 <= i < params@.len() ==> #[trigger] names[i] == params@[i]@
        }),
        (Expr::Lambda { param: s, body: a })@ == (ExprView::Lambda {
            param: s@,
            body: Box::new((*a)@),
        }),
        ({
            let e = Expr::TensorLit(rows)@;
            &&& e matches ExprView::TensorLit(parts)
            &&& parts.len() == rows@.len()
            &&& forall|i: int|
                0 <= i < rows@.len() ==> (#[trigger] parts[i]).len() == rows@[i]@.len()
            &&& forall|i: int, j: int|
                0 <= i < rows@.len() && 0 <= j < rows@[i]@.len() ==> #[trigger] parts[i][j]
                    == rows@[i]@[j]@
        }),
{
    reveal_with_fuel(Expr::model, 2);
}

} // verus!
