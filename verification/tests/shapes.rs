use haplo::ast::Program;
use haplo::lexer::lex;
use haplo::parser::parse;
use haplo::shape_stage::{
    dim_pair_conflict, fmt_dims, shape_eval_program, Budget, DimConflictKind, DimVal, ShapeEnv,
    ShapeError, ShapeGlobals, ShapeType, MAX_APPLY_DEPTH, MAX_APPLY_FUEL,
};

fn program(src: &str) -> Program {
    parse(&lex(src).unwrap()).unwrap()
}

fn check(src: &str) -> Result<ShapeType, ShapeError> {
    shape_eval_program(&program(src))
}

/// The dimensions of a tensor as a message writes them.
fn dims(src: &str) -> String {
    match check(src).unwrap() {
        ShapeType::Tensor(d) => fmt_dims(&d),
        other => panic!("expected a tensor, got {:?}", other),
    }
}

fn message(src: &str) -> String {
    check(src).unwrap_err().message()
}

#[test]
fn dimensions_as_text() {
    assert_eq!(fmt_dims(&vec![]), "[]");
    assert_eq!(
        fmt_dims(&vec![DimVal::Concrete(2), DimVal::Var("n".to_string()), DimVal::Unknown]),
        "[2, n, ?]"
    );
}

#[test]
fn matrix_product_shapes() {
    assert_eq!(dims("main = [1, 2, 3; 4, 5, 6] @ [1; 2; 3]"), "[2, 1]");
    assert_eq!(dims("main = [1, 2; 3, 4] @ [1, 2]"), "[2]");
    assert_eq!(
        message("main = [1, 2, 3; 4, 5, 6] @ [1, 2; 3, 4]"),
        "行列積 `@` の内次元が一致しません: [2, 3] @ [2, 2]"
    );
}

#[test]
fn elementwise_shapes() {
    assert_eq!(dims("main = [1, 2] ^ [1, 2]"), "[2]");
    assert_eq!(dims("main = 1 - [1, 2]"), "[2]");
    assert_eq!(dims("main = [1, 2] / 2"), "[2]");
    assert_eq!(
        message("main = [1, 2] * [1, 2, 3]"),
        "演算子 `*` の shape が一致しません: [2] と [3]"
    );
    assert_eq!(
        message("main = [1, 2] - [1, 2; 3, 4]"),
        "演算子 `-` の shape が一致しません: [2] と [2, 2]"
    );
}

#[test]
fn literal_rows() {
    assert_eq!(dims("main = []"), "[0]");
    assert!(matches!(check("main = [1, 2; 3]"), Err(ShapeError::NonUniformTensor)));
}

#[test]
fn shapes_of_built_in_functions() {
    assert_eq!(dims("main = zeros [2, 3]"), "[2, 3]");
    assert_eq!(dims("main = ones 4"), "[4]");
    assert_eq!(dims("main = transpose [1, 2, 3; 4, 5, 6]"), "[3, 2]");
    assert_eq!(dims("main = flatten [1, 2, 3; 4, 5, 6]"), "[6]");
    assert_eq!(dims("main = concat [1, 2] [3]"), "[3]");
    assert_eq!(dims("main = abs [1, 2]"), "[2]");
    assert_eq!(dims("main = clip 0 1 [1, 2]"), "[2]");
    assert_eq!(dims("f w = sum w\nmain = grad f [1, 2, 3]"), "[3]");
    assert!(matches!(check("main = sum [1, 2]"), Ok(ShapeType::Scalar)));
    assert!(matches!(check("main = norm [1, 2]"), Ok(ShapeType::Scalar)));
    assert!(matches!(check("main = reshape [1, 2] [2]"), Ok(ShapeType::Unknown)));
}

#[test]
fn branches_that_differ_say_nothing() {
    assert!(matches!(
        check("main = if true then [1, 2] else [1, 2, 3]"),
        Ok(ShapeType::Unknown)
    ));
    assert_eq!(dims("main = if true then [1, 2] else [3, 4]"), "[2]");
}

#[test]
fn the_unknown_makes_no_error() {
    assert!(check("x = reshape [1, 2] [2]\nmain = x + [1, 2, 3]").is_ok());
    assert!(check("f x = x @ [1, 2]\nmain = f").is_ok());
    assert!(check("main = missing + [1, 2]").is_ok());
    // The same expression with its shapes known is refused.
    assert!(check("x = [1, 2]\nmain = x + [1, 2, 3]").is_err());
}

#[test]
fn annotations_of_values() {
    assert!(check("w : Tensor[3]\nw = [1, 2, 3]\nmain = w").is_ok());
    match check("w : Tensor[3]\nw = [1, 2]\nmain = w") {
        Err(ShapeError::AnnotationMismatch { name, declared, inferred }) => {
            assert_eq!(name, "w");
            assert_eq!(declared, vec![DimVal::Concrete(3)]);
            assert_eq!(inferred, vec![DimVal::Concrete(2)]);
        }
        other => panic!("expected an annotation mismatch, got {:?}", other),
    }
}

#[test]
fn two_variables_in_one_place() {
    let src = "f : Tensor[n] -> Tensor[m] -> Tensor[n]\nf a b = a + b\nmain = 1";
    match check(src) {
        Err(ShapeError::VarConflict { op, var_a, var_b }) => {
            assert_eq!((op, var_a.as_str(), var_b.as_str()), ("+", "n", "m"));
        }
        other => panic!("expected a conflict of variables, got {:?}", other),
    }
    assert!(check(
        "f : Tensor[n] -> Tensor[n] -> Tensor[n]\nf a b = a + b\nmain = 1"
    )
    .is_ok());
}

#[test]
fn texts_of_annotation_errors() {
    assert_eq!(
        message("w : Tensor[3]\nw = [1, 2]\nmain = w"),
        "`w` の型注釈 [3] と本体の shape [2] が一致しません"
    );
    assert_eq!(
        message("f : Tensor[n] -> Tensor[m] -> Tensor[n]\nf a b = a + b\nmain = 1"),
        "演算子 `+` の次元変数 `n` と `m` が衝突しています（独立した変数のため等しい保証がありません）"
    );
    assert_eq!(
        ShapeError::NonUniformTensor.message(),
        "テンソルリテラルの行の長さが揃っていません"
    );
}

#[test]
fn functions_are_followed() {
    assert_eq!(dims("f a b = a @ b\nmain = f [1, 2; 3, 4] [1, 2]"), "[2]");
    assert_eq!(dims("main = [1, 2; 3, 4] |> transpose"), "[2, 2]");
    assert!(check("f a b = a + b\nmain = f [1, 2] [1, 2, 3]").is_err());
}

#[test]
fn endless_recursion_is_cut_off() {
    assert!(matches!(check("f x = f x\nmain = f 1"), Ok(ShapeType::Unknown)));
    assert!(matches!(
        check("f x = (f x) + (f x)\nmain = f 1"),
        Ok(ShapeType::Unknown)
    ));
}

#[test]
fn budgets() {
    let mut b = Budget::full();
    assert_eq!((b.depth, b.fuel), (0, MAX_APPLY_FUEL));
    for _ in 0..MAX_APPLY_DEPTH {
        assert!(b.enter());
    }
    assert!(!b.enter());
    b.leave();
    assert!(b.enter());
    let mut b = Budget { depth: 0, fuel: 1 };
    assert!(b.consume_fuel());
    assert!(!b.consume_fuel());
}

#[test]
fn scopes_of_shapes() {
    let mut globals = ShapeGlobals::empty();
    let outer = ShapeEnv::empty();
    let inner = outer.extend("x".to_string(), ShapeType::Unknown);
    assert!(outer.lookup(&globals, "x").is_none());
    ShapeEnv::define_global(&mut globals, "x".to_string(), ShapeType::Scalar);
    assert!(matches!(outer.lookup(&globals, "x"), Some(ShapeType::Scalar)));
    assert!(matches!(inner.lookup(&globals, "x"), Some(ShapeType::Unknown)));
    assert!(outer.lookup(&globals, "y").is_none());
    ShapeEnv::define_global(&mut globals, "y".to_string(), ShapeType::Scalar);
    assert!(matches!(inner.lookup(&globals, "y"), Some(ShapeType::Scalar)));
}

#[test]
fn conflicts_of_dimensions_have_no_side() {
    // `[2, 2] + [2, 3]` and `[2, 3] + [2, 2]` are refused alike.
    for (a, b) in [("[1, 2; 3, 4]", "[1, 2, 3; 4, 5, 6]"), ("[1, 2, 3; 4, 5, 6]", "[1, 2; 3, 4]")] {
        assert!(matches!(
            check(&format!("main = {} + {}", a, b)),
            Err(ShapeError::ElementwiseMismatch { .. })
        ));
    }
    for (a, b) in [("n", "m"), ("m", "n")] {
        let src = format!(
            "f : Tensor[{}] -> Tensor[{}] -> Tensor[{}]\nf a b = a + b\nmain = 1",
            a, b, a
        );
        match check(&src) {
            Err(ShapeError::VarConflict { var_a, var_b, .. }) => {
                assert_eq!((var_a.as_str(), var_b.as_str()), (a, b));
            }
            other => panic!("expected a conflict of variables, got {:?}", other),
        }
    }
}

#[test]
fn conflicts_of_two_dimensions() {
    let var = |s: &str| DimVal::Var(s.to_string());
    let dims = [DimVal::Concrete(2), DimVal::Concrete(3), var("n"), var("m"), DimVal::Unknown];
    for (i, x) in dims.iter().enumerate() {
        for (j, y) in dims.iter().enumerate() {
            match dim_pair_conflict(x, y) {
                DimConflictKind::ConcreteMismatch => assert!(i != j && i < 2 && j < 2),
                DimConflictKind::VarMismatch(a, b) => {
                    assert!(i != j && (2..4).contains(&i) && (2..4).contains(&j));
                    assert_eq!((var(&a), var(&b)), (x.clone(), y.clone()));
                }
                DimConflictKind::Agree => {
                    assert!(i == j || i / 2 != j / 2);
                }
            }
        }
    }
}
