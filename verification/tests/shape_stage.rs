use haplo::lexer::lex;
use haplo::parser::parse;
use haplo::shape_stage::{shape_eval_program, DimVal, ShapeError, ShapeType};

fn check(src: &str) -> Result<ShapeType, ShapeError> {
    let tokens = lex(src).expect("lex error");
    let program = parse(&tokens).expect("parse error");
    shape_eval_program(&program)
}

#[test]
fn g4_matmul_mismatch_detected() {
    let src = "
a = [1.0, 2.0, 3.0; 4.0, 5.0, 6.0]
b = [1.0, 2.0; 3.0, 4.0]
main = a @ b
";
    assert!(matches!(check(src), Err(ShapeError::MatMulMismatch { .. })));
}

#[test]
fn g4_matmul_ok() {
    let src = "
a = [1.0, 2.0, 3.0; 4.0, 5.0, 6.0]
b = [1.0, 2.0; 3.0, 4.0; 5.0, 6.0]
main = a @ b
";
    match check(src) {
        Ok(ShapeType::Tensor(d)) => {
            assert_eq!(d, vec![DimVal::Concrete(2), DimVal::Concrete(2)]);
        }
        other => panic!("Tensor[2,2] を期待: {:?}", other),
    }
}

#[test]
fn g4_elementwise_mismatch() {
    let src = "main = [1.0, 2.0, 3.0] + [1.0, 2.0]";
    assert!(matches!(
        check(src),
        Err(ShapeError::ElementwiseMismatch { op: "+", .. })
    ));
}

#[test]
fn g4_elementwise_ok() {
    let src = "main = [1.0, 2.0, 3.0] + [4.0, 5.0, 6.0]";
    match check(src) {
        Ok(ShapeType::Tensor(d)) => assert_eq!(d, vec![DimVal::Concrete(3)]),
        other => panic!("Tensor[3] を期待: {:?}", other),
    }
}

#[test]
fn g4_scalar_broadcast() {
    let src = "main = [1.0, 2.0, 3.0] + 1.0";
    match check(src) {
        Ok(ShapeType::Tensor(d)) => assert_eq!(d, vec![DimVal::Concrete(3)]),
        other => panic!("Tensor[3] を期待: {:?}", other),
    }
}

#[test]
fn g4_tensor_lit_shapes() {
    match check("main = [1.0, 2.0, 3.0]") {
        Ok(ShapeType::Tensor(d)) => assert_eq!(d, vec![DimVal::Concrete(3)]),
        other => panic!("Tensor[3] を期待: {:?}", other),
    }
    match check("main = [1.0, 2.0, 3.0; 4.0, 5.0, 6.0]") {
        Ok(ShapeType::Tensor(d)) => {
            assert_eq!(d, vec![DimVal::Concrete(2), DimVal::Concrete(3)])
        }
        other => panic!("Tensor[2,3] を期待: {:?}", other),
    }
}

#[test]
fn g4_sum_is_scalar() {
    assert!(matches!(
        check("main = sum [1.0, 2.0, 3.0]"),
        Ok(ShapeType::Scalar)
    ));
}

#[test]
fn g4_grad_same_shape() {
    let src = "f w = sum (w * w)\nmain = grad f [1.0, 2.0, 3.0]";
    match check(src) {
        Ok(ShapeType::Tensor(d)) => assert_eq!(d, vec![DimVal::Concrete(3)]),
        other => panic!("Tensor[3] を期待: {:?}", other),
    }
}

#[test]
fn g4_function_application() {
    let src = "double v = v + v\nmain = double [1.0, 2.0]";
    match check(src) {
        Ok(ShapeType::Tensor(d)) => assert_eq!(d, vec![DimVal::Concrete(2)]),
        other => panic!("Tensor[2] を期待: {:?}", other),
    }
}

#[test]
fn g4_mismatch_inside_function_body() {
    let src = "bad v = v + [1.0, 2.0]\nmain = bad [1.0, 2.0, 3.0]";
    assert!(matches!(
        check(src),
        Err(ShapeError::ElementwiseMismatch { .. })
    ));
}

#[test]
fn g4_unknown_no_false_positive() {
    let src = "
a = [1.0, 2.0; 3.0, 4.0]
main = a @ zeros [2]
";
    assert!(check(src).is_ok());

    let src2 = "main = reshape [1.0, 2.0, 3.0, 4.0] [2, 2] + 1.0";
    assert!(check(src2).is_ok());
}

#[test]
fn g4_linreg_passes_shape_check() {
    let src = "
x = [1.0, 2.0, 3.0; 4.0, 5.0, 6.0; 7.0, 8.0, 9.0; 1.0, 0.0, 1.0]
y = [1.0, 2.0, 3.0, 0.5]
lr = 0.01
predict feats w b = feats @ w + b
mse pred target = mean ((pred - target) ^ 2)
loss w = mse (predict x w 0.0) y
step w = w - lr * grad loss w
main = iterate (zeros [3]) 1000 step
";
    assert!(check(src).is_ok());
}

#[test]
fn g4_global_value_mismatch_detected() {
    let src = "
bad = [1.0, 2.0] + [1.0, 2.0, 3.0]
main = 1
";
    assert!(matches!(
        check(src),
        Err(ShapeError::ElementwiseMismatch { .. })
    ));
}

#[test]
fn g4_self_recursion_terminates() {
    let src = "f n = if n == 0 then 1 else f (n - 1)\nmain = f 5";
    assert!(check(src).is_ok());
}

#[test]
fn g4_mutual_recursion_terminates() {
    let src = "
isEven n = if n == 0 then true else isOdd (n - 1)
isOdd n = if n == 0 then false else isEven (n - 1)
main = isEven 10
";
    assert!(check(src).is_ok());
}

#[test]
fn g4_branching_recursion_terminates() {
    let src = "f n = if n <= 1 then n else f (n - 1) + f (n - 2)\nmain = f 20";
    assert!(check(src).is_ok());
}

#[test]
fn p3_annotation_checks_body_mismatch() {
    let src = "
f : Tensor[3] -> Tensor[3]
f w = w + [1.0, 2.0]
main = 1
";
    assert!(matches!(
        check(src),
        Err(ShapeError::ElementwiseMismatch { .. })
    ));
}

#[test]
fn p3_return_type_mismatch() {
    let src = "
f : Tensor[3] -> Tensor[2]
f w = w
main = 1
";
    assert!(matches!(
        check(src),
        Err(ShapeError::AnnotationMismatch { .. })
    ));
}

#[test]
fn p3_annotation_ok_no_false_positive() {
    let src = "
f : Tensor[3] -> Tensor[3]
f w = w + w
main = 1
";
    assert!(check(src).is_ok());
}

#[test]
fn p3_var_dims_no_false_positive() {
    let src = "
predict : Tensor[n, d] -> Tensor[d] -> Tensor[n]
predict feats w = feats @ w
main = 1
";
    assert!(check(src).is_ok());
}

#[test]
fn p3_global_value_annotation_mismatch() {
    let src = "
x : Tensor[2]
x = [1.0, 2.0, 3.0]
main = 1
";
    assert!(matches!(
        check(src),
        Err(ShapeError::AnnotationMismatch { .. })
    ));
}

#[test]
fn p3_global_annotation_improves_precision() {
    let src = "
w : Tensor[3]
w = zeros [3]
main = w + [1.0, 2.0]
";
    assert!(matches!(
        check(src),
        Err(ShapeError::ElementwiseMismatch { .. })
    ));
}

#[test]
fn p3_underspecified_annotation_is_lenient() {
    let src = "
f : Tensor[3]
f a b = a + b
main = 1
";
    assert!(check(src).is_ok());
}

#[test]
fn p4_var_conflict_elementwise() {
    let src = "
f : Tensor[n] -> Tensor[m] -> Tensor[n]
f a b = a + b
main = 1
";
    assert!(
        matches!(check(src), Err(ShapeError::VarConflict { .. }))
    );
}

#[test]
fn p4_var_same_name_elementwise_ok() {
    let src = "
f : Tensor[n] -> Tensor[n] -> Tensor[n]
f a b = a + b
main = 1
";
    assert!(check(src).is_ok());
}

#[test]
fn p4_var_same_name_result_shape() {
    let src = "
f : Tensor[n] -> Tensor[n] -> Tensor[n]
f a b = a + b
g : Tensor[3] -> Tensor[3]
g v = f v v
main = 1
";
    assert!(check(src).is_ok());
}

#[test]
fn p4_var_conflict_matmul_inner() {
    let src = "
f : Tensor[m, k] -> Tensor[j, n] -> Tensor[m, n]
f a b = a @ b
main = 1
";
    assert!(
        matches!(check(src), Err(ShapeError::VarConflict { op: "@", .. }))
    );
}

#[test]
fn p4_var_matmul_inner_same_ok() {
    let src = "
f : Tensor[m, k] -> Tensor[k, n] -> Tensor[m, n]
f a b = a @ b
main = 1
";
    assert!(check(src).is_ok());
}

#[test]
fn p4_rank_mismatch_always_errors() {
    let src = "
f : Tensor[n] -> Tensor[n, m] -> Tensor[n]
f a b = a + b
main = 1
";
    assert!(
        matches!(check(src), Err(ShapeError::ElementwiseMismatch { .. }))
    );
}

#[test]
fn p4_annotation_rank_mismatch() {
    let src = "
f : Tensor[n] -> Tensor[n, n]
f a = a
main = 1
";
    assert!(
        matches!(check(src), Err(ShapeError::AnnotationMismatch { .. }))
    );
}

#[test]
fn p4_annotation_var_name_mismatch() {
    let src = "
f : Tensor[n] -> Tensor[m]
f a = a
main = 1
";
    assert!(
        matches!(check(src), Err(ShapeError::AnnotationMismatch { .. }))
    );
}

#[test]
fn p4_annotation_var_name_same_ok() {
    let src = "
f : Tensor[n] -> Tensor[n]
f a = a
main = 1
";
    assert!(check(src).is_ok());
}

#[test]
fn p4_shape_arithmetic_parses_and_no_false_positive() {
    let src = "
concat : Tensor[m] -> Tensor[n] -> Tensor[m+n]
concat a b = a
sliding : Tensor[m+n] -> Tensor[m+n]
sliding a = a
main = 1
";
    assert!(check(src).is_ok());
}

#[test]
fn p4_shape_arithmetic_flatten_rank_mismatch() {
    let src = "
flatten : Tensor[m, n] -> Tensor[m*n]
flatten a = a
main = 1
";
    assert!(
        matches!(check(src), Err(ShapeError::AnnotationMismatch { .. }))
    );
}

#[test]
fn p4_shape_arithmetic_complex_expr() {
    let src = "
shift : Tensor[m] -> Tensor[m+1]
shift a = zeros [1]
clip : Tensor[m+n-1] -> Tensor[m+n-1]
clip a = a
main = 1
";
    assert!(check(src).is_ok());
}

#[test]
fn p3_linreg_annotations_pass() {
    let src = "
x = [1.0, 2.0, 3.0; 4.0, 5.0, 6.0; 7.0, 8.0, 9.0; 1.0, 0.0, 1.0]
y = [1.0, 2.0, 3.0, 0.5]
lr = 0.01
predict : Tensor[n, d] -> Tensor[d] -> f32 -> Tensor[n]
predict feats w b = feats @ w + b
mse : Tensor[n] -> Tensor[n] -> f32
mse pred target = mean ((pred - target) ^ 2)
loss : Tensor[3] -> f32
loss w = mse (predict x w 0.0) y
step : Tensor[3] -> Tensor[3]
step w = w - lr * grad loss w
main : Tensor[3]
main = iterate (zeros [3]) 1000 step
";
    assert!(check(src).is_ok());
}
