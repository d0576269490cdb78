use haplo::ast::{BinOpKind, Expr, Literal, Program, TopLevel, TypeDim, TypeExpr};
use haplo::lexer::lex;
use haplo::parser::parse;

fn parse_str(src: &str) -> Program {
    let tokens = lex(src).expect("lex error");
    parse(&tokens).expect("parse error")
}

fn parse_expr_str(src: &str) -> Expr {
    let src = format!("main = {}", src);
    let prog = parse_str(&src);
    match prog.into_iter().next().unwrap() {
        TopLevel::Binding { body, .. } => body,
        _ => panic!("expected binding"),
    }
}

#[test]
fn test_parse_simple_binding() {
    let prog = parse_str("main = 42");
    assert_eq!(prog.len(), 1);
    assert!(matches!(
        &prog[0],
        TopLevel::Binding { name, .. } if name == "main"
    ));
}

#[test]
fn test_parse_binop() {
    let e = parse_expr_str("2 + 3");
    assert!(matches!(
        e,
        Expr::BinOp { op: BinOpKind::Add, .. }
    ));
}

#[test]
fn test_parse_precedence() {
    let e = parse_expr_str("2 + 3 * 4");
    match e {
        Expr::BinOp {
            op: BinOpKind::Add,
            left,
            right,
        } => {
            assert!(matches!(*left, Expr::Lit(Literal::Int(2))));
            assert!(matches!(*right, Expr::BinOp { op: BinOpKind::Mul, .. }));
        }
        _ => panic!("unexpected: {:?}", e),
    }
}

#[test]
fn test_parse_power_rtl() {
    let e = parse_expr_str("2 ^ 3 ^ 4");
    match e {
        Expr::BinOp {
            op: BinOpKind::Pow,
            right,
            ..
        } => {
            assert!(matches!(*right, Expr::BinOp { op: BinOpKind::Pow, .. }));
        }
        _ => panic!("unexpected: {:?}", e),
    }
}

#[test]
fn test_parse_fn_def() {
    let prog = parse_str("f x = x + 1");
    match &prog[0] {
        TopLevel::Binding { name, params, .. } => {
            assert_eq!(name, "f");
            assert_eq!(params, &["x"]);
        }
        _ => panic!(),
    }
}

#[test]
fn test_parse_app() {
    let e = parse_expr_str("f 3");
    assert!(matches!(e, Expr::App(_, _)));
}

#[test]
fn test_parse_let() {
    let e = parse_expr_str("let x = 3 in x + 1");
    assert!(matches!(e, Expr::Let { .. }));
}

#[test]
fn test_parse_if() {
    let e = parse_expr_str("if true then 1 else 0");
    assert!(matches!(e, Expr::If { .. }));
}

#[test]
fn test_parse_tensor_1d() {
    let e = parse_expr_str("[1.0, 2.0, 3.0]");
    match e {
        Expr::TensorLit(rows) => {
            assert_eq!(rows.len(), 1);
            assert_eq!(rows[0].len(), 3);
        }
        _ => panic!(),
    }
}

#[test]
fn test_parse_tensor_2d() {
    let e = parse_expr_str("[1.0, 2.0; 3.0, 4.0]");
    match e {
        Expr::TensorLit(rows) => {
            assert_eq!(rows.len(), 2);
            assert_eq!(rows[0].len(), 2);
            assert_eq!(rows[1].len(), 2);
        }
        _ => panic!(),
    }
}

#[test]
fn test_parse_pipe() {
    let e = parse_expr_str("[1.0] |> sum");
    assert!(matches!(e, Expr::Pipe(_, _)));
}

#[test]
fn test_parse_type_annotation() {
    let prog = parse_str("f : Int -> Int");
    assert!(matches!(&prog[0], TopLevel::TypeAnnotation { name, .. } if name == "f"));
}

#[test]
fn test_parse_tensor_type_dims() {
    let prog = parse_str("g : Tensor[3, n] -> Tensor[n]");
    match &prog[0] {
        TopLevel::TypeAnnotation { ty, .. } => match ty {
            TypeExpr::Arrow(arg, _) => match arg.as_ref() {
                TypeExpr::Tensor(dims) => {
                    assert_eq!(
                        dims,
                        &vec![TypeDim::Fixed(3), TypeDim::Var("n".to_string())]
                    );
                }
                other => panic!("Tensor 型を期待: {:?}", other),
            },
            other => panic!("Arrow 型を期待: {:?}", other),
        },
        other => panic!("TypeAnnotation を期待: {:?}", other),
    }
}

#[test]
fn test_parse_multiline() {
    let src = "x = 1\ny = 2\nmain = x + y";
    let prog = parse_str(src);
    assert_eq!(prog.len(), 3);
}
