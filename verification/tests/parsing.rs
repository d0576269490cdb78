use haplo::ast::{BinOpKind, DimExpr, Expr, Literal, Program, TopLevel, TypeDim, TypeExpr};
use haplo::lexer::{lex, TokenKind};
use haplo::parser::{parse, ParseError};

fn read(src: &str) -> Result<Program, ParseError> {
    parse(&lex(src).expect("lex error"))
}

fn expr(src: &str) -> Expr {
    match read(&format!("main = {}", src)).unwrap().remove(0) {
        TopLevel::Binding { body, .. } => body,
        other => panic!("expected a binding, got {:?}", other),
    }
}

fn type_of(src: &str) -> TypeExpr {
    match read(&format!("x : {}", src)).unwrap().remove(0) {
        TopLevel::TypeAnnotation { ty, .. } => ty,
        other => panic!("expected an annotation, got {:?}", other),
    }
}

/// An expression as text, every operation in brackets.
fn show(e: &Expr) -> String {
    match e {
        Expr::Lit(Literal::Int(n)) => format!("{}", n),
        Expr::Lit(Literal::Float(s)) => s.clone(),
        Expr::Lit(Literal::Bool(b)) => format!("{}", b),
        Expr::Var(n) => n.clone(),
        Expr::App(f, a) => format!("({} {})", show(f), show(a)),
        Expr::BinOp { op, left, right } => format!("({} {:?} {})", show(left), op, show(right)),
        Expr::UnaryMinus(x) => format!("(- {})", show(x)),
        Expr::Pipe(a, f) => format!("({} |> {})", show(a), show(f)),
        Expr::If { cond, then, else_ } => {
            format!("(if {} {} {})", show(cond), show(then), show(else_))
        }
        Expr::Let { name, params, value, body } => {
            format!("(let {} {:?} {} {})", name, params, show(value), show(body))
        }
        Expr::TensorLit(rows) => format!(
            "[{}]",
            rows.iter()
                .map(|r| r.iter().map(show).collect::<Vec<_>>().join(","))
                .collect::<Vec<_>>()
                .join(";")
        ),
        Expr::Lambda { .. } => panic!("no syntax gives a function literal"),
    }
}

#[test]
fn levels_of_operators() {
    assert_eq!(
        show(&expr("a |> b == c + d @ e * f ^ g")),
        "(a |> (b Eq (c Add (d MatMul (e Mul (f Pow g))))))"
    );
    assert_eq!(show(&expr("a - b - c")), "((a Sub b) Sub c)");
    assert_eq!(show(&expr("a / b * c")), "((a Div b) Mul c)");
    assert_eq!(show(&expr("a @ b @ c")), "((a MatMul b) MatMul c)");
    assert_eq!(show(&expr("a |> f |> g")), "((a |> f) |> g)");
    assert_eq!(show(&expr("a ^ b ^ c")), "(a Pow (b Pow c))");
}

#[test]
fn all_comparisons() {
    let ops = [
        ("==", BinOpKind::Eq),
        ("!=", BinOpKind::Ne),
        ("<", BinOpKind::Lt),
        ("<=", BinOpKind::Le),
        (">", BinOpKind::Gt),
        (">=", BinOpKind::Ge),
    ];
    for (text, kind) in ops {
        match expr(&format!("a {} b", text)) {
            Expr::BinOp { op, .. } => assert_eq!(op, kind),
            other => panic!("expected an operator, got {:?}", other),
        }
    }
}

#[test]
fn comparisons_do_not_chain() {
    assert!(read("main = a < b < c").is_err());
}

#[test]
fn minus_before_and_between() {
    assert_eq!(show(&expr("10 - 3")), "(10 Sub 3)");
    assert_eq!(show(&expr("f (-3)")), "(f (- 3))");
    assert_eq!(show(&expr("-f x")), "(- (f x))");
    assert_eq!(show(&expr("- - x")), "(- (- x))");
    assert_eq!(show(&expr("-2 ^ 2")), "((- 2) Pow 2)");
}

#[test]
fn application_groups_to_the_left() {
    assert_eq!(show(&expr("f a 1 2.5 true [1] (g b)")), "((((((f a) 1) 2.5) true) [1]) (g b))");
}

#[test]
fn let_with_parameters_over_lines() {
    assert_eq!(
        show(&expr("let add a b =\n  a + b\nin\n  add 1 2")),
        "(let add [\"a\", \"b\"] (a Add b) ((add 1) 2))"
    );
}

#[test]
fn if_over_lines() {
    assert_eq!(
        show(&expr("if a\nthen b\nelse\n c")),
        "(if a b c)"
    );
}

#[test]
fn tensor_literals() {
    assert_eq!(show(&expr("[]")), "[]");
    assert_eq!(show(&expr("[1, 2; 3, 4]")), "[1,2;3,4]");
    assert_eq!(show(&expr("[a + 1, f b]")), "[(a Add 1),(f b)]");
    assert_eq!(show(&expr("[1,, 2,;]")), "[1,2;]");
    assert_eq!(show(&expr("[;]")), "[;]");
}

#[test]
fn arrows_group_to_the_right() {
    match type_of("Int -> Bool -> f32") {
        TypeExpr::Arrow(a, rest) => {
            assert!(matches!(*a, TypeExpr::Named(ref n) if n == "Int"));
            assert!(matches!(*rest, TypeExpr::Arrow(_, _)));
        }
        other => panic!("expected an arrow, got {:?}", other),
    }
    assert!(matches!(type_of("(Int -> Bool) -> f32"),
        TypeExpr::Arrow(a, _) if matches!(*a, TypeExpr::Arrow(_, _))));
}

#[test]
fn type_arguments() {
    match type_of("Vec a b") {
        TypeExpr::App(f, b) => {
            assert!(matches!(*b, TypeExpr::Named(ref n) if n == "b"));
            assert!(matches!(*f, TypeExpr::App(_, _)));
        }
        other => panic!("expected an application, got {:?}", other),
    }
    assert!(matches!(type_of("Tensor"), TypeExpr::Named(n) if n == "Tensor"));
}

#[test]
fn dimension_arithmetic() {
    let var = |s: &str| Box::new(DimExpr::Var(s.to_string()));
    match type_of("Tensor[3, n, m+n*2-1]") {
        TypeExpr::Tensor(dims) => assert_eq!(
            dims,
            vec![
                TypeDim::Fixed(3),
                TypeDim::Var("n".to_string()),
                TypeDim::Expr(DimExpr::Sub(
                    Box::new(DimExpr::Add(
                        var("m"),
                        Box::new(DimExpr::Mul(var("n"), Box::new(DimExpr::Lit(2)))),
                    )),
                    Box::new(DimExpr::Lit(1)),
                )),
            ]
        ),
        other => panic!("expected a tensor type, got {:?}", other),
    }
}

fn message(src: &str) -> String {
    match read(src) {
        Err(e) => e.message("2.5"),
        Ok(p) => panic!("expected an error, got {:?}", p),
    }
}

#[test]
fn rejections_say_what_was_expected() {
    assert_eq!(
        message("1 = 2"),
        "予期しないトークン \"Int(1)\" (1:1) — 識別子（トップレベル定義名） を期待"
    );
    assert_eq!(message("x 1"), "予期しないトークン \"Int(1)\" (1:3) — = を期待");
    assert_eq!(message("x ="), "予期しないトークン \"Eof\" (1:4) — 式 を期待");
    assert_eq!(message("x = (1"), "予期しないトークン \"Eof\" (1:7) — ) を期待");
    assert_eq!(message("x = let 1"), "予期しないトークン \"Int(1)\" (1:9) — 識別子 を期待");
    assert_eq!(message("x = let a = 1 b"), "予期しないトークン \"Eof\" (1:16) — in を期待");
    assert_eq!(message("x = if a b"), "予期しないトークン \"Eof\" (1:11) — then を期待");
    assert_eq!(message("x = if a then b"), "予期しないトークン \"Eof\" (1:16) — else を期待");
    assert_eq!(message("x : ->"), "予期しないトークン \"Arrow\" (1:5) — 型式 を期待");
    assert_eq!(
        message("x : Tensor[+]"),
        "予期しないトークン \"Plus\" (1:12) — 次元（整数または識別子） を期待"
    );
    assert_eq!(
        message("x : Tensor[1 2]"),
        "予期しないトークン \"Int(2)\" (1:14) — `,` または `]` を期待"
    );
    assert_eq!(message("x = 1 : true"), "予期しないトークン \"Colon\" (1:7) — 識別子（トップレベル定義名） を期待");
}

#[test]
fn rejections_show_names_and_floats() {
    assert_eq!(
        message("x = if a then b c then"),
        "予期しないトークン \"Then\" (1:19) — else を期待"
    );
    assert_eq!(message("x 2.50 = 1"), "予期しないトークン \"Float(2.5)\" (1:3) — = を期待");
    assert_eq!(
        message("x : (a -> b c = d"),
        "予期しないトークン \"Eq\" (1:15) — ) を期待"
    );
    assert_eq!(
        message("x : Tensor[a b]"),
        "予期しないトークン \"Ident(\\\"b\\\")\" (1:14) — `,` または `]` を期待"
    );
    assert_eq!(message("true"), "予期しないトークン \"Bool(true)\" (1:1) — 識別子（トップレベル定義名） を期待");
    match read("x 2.50 = 1") {
        Err(e) => assert_eq!(e.float_literal(), Some("2.50")),
        Ok(_) => panic!("expected an error"),
    }
}

#[test]
fn end_of_file_message() {
    let e = ParseError::UnexpectedEof { expected: "式" };
    assert_eq!(e.message(""), "予期しないファイル末尾 — 式 を期待");
    assert_eq!(e.float_literal(), None);
}

#[test]
fn rejection_names_one_of_the_tokens() {
    let tokens = lex("f x =\n  x + )\n").unwrap();
    match parse(&tokens) {
        Err(ParseError::UnexpectedToken { got, span, .. }) => {
            assert_eq!(got, TokenKind::RParen);
            assert!(tokens.iter().any(|t| t.kind == got && t.span == span));
        }
        other => panic!("expected a rejection, got {:?}", other),
    }
}

#[test]
fn copies_are_equal() {
    let e = expr("let f a = [a, -1.5; if a == 2 then 3 else 4 |> g] in f");
    assert_eq!(show(&e.clone()), show(&e));
}
