use haplo::interpreter::{compare_numeric, Difference};
use haplo::num::{BinaryOp, Query, Relation, UnaryOp};
use haplo::pipeline::HaploError;
use haplo::value::{EvalError, Shown, Value};

/// Floating-point arithmetic on bit patterns.
fn arithmetic(q: Query) -> Vec<u64> {
    let f = f64::from_bits;
    match q {
        Query::Parse(s) => vec![word(s.parse::<f64>().unwrap_or(f64::NAN))],
        Query::FromInt(n) => vec![word(n as f64)],
        Query::Unary(op, x) => {
            let x = f(x);
            let y = match op {
                UnaryOp::Neg => -x,
                UnaryOp::Exp => x.exp(),
                UnaryOp::Log => x.ln(),
                UnaryOp::Tanh => x.tanh(),
                UnaryOp::Sqrt => x.sqrt(),
                UnaryOp::Abs => x.abs(),
            };
            vec![word(y)]
        }
        Query::Binary(op, x, y) => {
            let (x, y) = (f(x), f(y));
            let z = match op {
                BinaryOp::Add => x + y,
                BinaryOp::Sub => x - y,
                BinaryOp::Mul => x * y,
                BinaryOp::Div => x / y,
                BinaryOp::Pow => x.powf(y),
                BinaryOp::Max => x.max(y),
                BinaryOp::Min => x.min(y),
            };
            vec![word(z)]
        }
        Query::Compare(r, x, y) => {
            let (x, y) = (f(x), f(y));
            let b = match r {
                Relation::Eq => x == y,
                Relation::Lt => x < y,
                Relation::Le => x <= y,
                Relation::Gt => x > y,
                Relation::Ge => x >= y,
            };
            vec![b as u64]
        }
        Query::ToSize(x) => vec![f(x) as usize as u64],
        Query::Sum(xs) => vec![word(ndarray::Array1::from_vec(floats(&xs)).sum())],
        Query::MatMul { m, k, n, a, b } => {
            let a = ndarray::Array2::from_shape_vec((m, k), floats(&a)).unwrap();
            let b = ndarray::Array2::from_shape_vec((k, n), floats(&b)).unwrap();
            a.dot(&b).iter().map(|x| word(*x)).collect()
        }
        Query::MatVec { m, k, a, v } => {
            let a = ndarray::Array2::from_shape_vec((m, k), floats(&a)).unwrap();
            let v = ndarray::Array1::from_vec(floats(&v));
            a.dot(&v).iter().map(|x| word(*x)).collect()
        }
    }
}

/// A number as its bit pattern, one for all that are no number.
fn word(x: f64) -> u64 {
    if x.is_nan() {
        0x7ff8_0000_0000_0000
    } else {
        x.to_bits()
    }
}

fn floats(xs: &[u64]) -> Vec<f64> {
    xs.iter().map(|x| f64::from_bits(*x)).collect()
}

fn run(src: &str) -> Result<Value, HaploError> {
    haplo::pipeline::run(&arithmetic, src, 1000)
}

fn value(body: &str) -> Value {
    run(&format!("main = {}", body)).unwrap()
}

fn number(body: &str) -> f64 {
    match value(body) {
        Value::Float(x) => f64::from_bits(x),
        other => panic!("expected a float, got {:?}", other),
    }
}

fn integer(body: &str) -> i64 {
    match value(body) {
        Value::Int(n) => n,
        other => panic!("expected an integer, got {:?}", other),
    }
}

fn truth(body: &str) -> bool {
    match value(body) {
        Value::Bool(b) => b,
        other => panic!("expected a truth value, got {:?}", other),
    }
}

/// The shape and elements of a tensor.
fn tensor(src: &str) -> (Vec<usize>, Vec<f64>) {
    match run(src).unwrap() {
        Value::Tensor(t) => (t.shape().clone(), floats(t.data())),
        other => panic!("expected a tensor, got {:?}", other),
    }
}

fn tensor_of(body: &str) -> (Vec<usize>, Vec<f64>) {
    tensor(&format!("main = {}", body))
}

fn error_of(src: &str) -> EvalError {
    match run(src) {
        Err(HaploError::Eval(e)) => e,
        other => panic!("expected an evaluation error, got {:?}", other),
    }
}

/// The message of the evaluation error of an expression.
fn message(body: &str) -> String {
    error_of(&format!("main = {}", body)).message()
}

fn close(a: f64, b: f64) -> bool {
    (a - b).abs() < 1e-9
}

// Integers

#[test]
fn integer_division_cuts_towards_zero() {
    assert_eq!(integer("7 / 2"), 3);
    assert_eq!(integer("(-7) / 2"), -3);
    assert_eq!(integer("7 / (-2)"), -3);
    assert_eq!(integer("(-7) / (-2)"), 3);
}

#[test]
fn integer_powers() {
    assert_eq!(integer("3 ^ 4"), 81);
    assert_eq!(integer("(-2) ^ 63"), i64::MIN);
    assert_eq!(integer("0 ^ 0"), 1);
    assert_eq!(integer("(-1) ^ 4294967295"), -1);
    assert_eq!(integer("1 ^ 1000000"), 1);
    assert!(close(number("2 ^ (-1)"), 0.5));
}

#[test]
fn integer_powers_take_every_exponent() {
    assert_eq!(integer("0 ^ 4294967296"), 0);
    assert_eq!(integer("1 ^ 9223372036854775807"), 1);
    assert_eq!(integer("(-1) ^ 4294967296"), 1);
    assert_eq!(integer("(-1) ^ 9223372036854775807"), -1);
    assert!(matches!(
        error_of("main = 5 ^ 4294967296"),
        EvalError::IntegerOverflow
    ));
}

#[test]
fn integers_are_ordered_exactly() {
    // Both round to the same floating-point number.
    let (a, b) = ("9007199254740993", "9007199254740992");
    assert!(truth(&format!("{} > {}", a, b)));
    assert!(truth(&format!("{} >= {}", a, b)));
    assert!(!truth(&format!("{} < {}", a, b)));
    assert!(!truth(&format!("{} <= {}", a, b)));
    assert!(!truth(&format!("{} == {}", a, b)));
    assert!(truth(&format!("{} < {}", b, a)));
    assert!(truth("(-2) ^ 63 < 9223372036854775807"));
}

#[test]
fn differences_of_numbers() {
    let whole = |a: i64, b: i64| {
        matches!(
            compare_numeric(&arithmetic, &Value::Int(a), &Value::Int(b)),
            Ok(Difference::Whole(d)) if d == a as i128 - b as i128
        )
    };
    assert!(whole(9007199254740993, 9007199254740992));
    assert!(whole(i64::MAX, i64::MIN));
    assert!(whole(i64::MIN, i64::MAX));
    assert!(whole(3, 3));
    let (x, y) = (2.5f64.to_bits(), 2f64.to_bits());
    assert!(matches!(
        compare_numeric(&arithmetic, &Value::Float(x), &Value::Int(2)),
        Ok(Difference::Floats(a, b)) if (a, b) == (x, y)
    ));
    assert!(compare_numeric(&arithmetic, &Value::Bool(true), &Value::Int(2)).is_err());
    assert!(compare_numeric(&arithmetic, &Value::Int(2), &Value::Bool(true)).is_err());
}

#[test]
fn infinite_numbers_are_ordered() {
    assert!(truth("1e999 <= 1e999"));
    assert!(truth("1e999 >= 1e999"));
    assert!(!truth("1e999 < 1e999"));
    assert!(truth("-1e999 < 1e999"));
    // The logarithm of a negative number is no number.
    assert!(!truth("log (-1.0) <= 1.0"));
    assert!(!truth("log (-1.0) >= 1.0"));
}

#[test]
fn integer_overflow() {
    for body in [
        "9223372036854775807 + 1",
        "(-9223372036854775807) - 2",
        "9223372036854775807 * 2",
        "2 ^ 63",
        "(-3) ^ 99",
        "-((-2) ^ 63)",
        "((-2) ^ 63) / (-1)",
        "abs ((-2) ^ 63)",
    ] {
        assert!(matches!(
            error_of(&format!("main = {}", body)),
            EvalError::IntegerOverflow
        ));
    }
    assert_eq!(integer("((-2) ^ 63) / 1"), i64::MIN);
    assert_eq!(message("2 ^ 63"), "整数演算の結果が大きすぎます");
}

#[test]
fn division_by_zero() {
    assert!(matches!(error_of("main = 1 / 0"), EvalError::DivisionByZero));
    assert!(matches!(error_of("main = 1.0 / 0"), EvalError::DivisionByZero));
    assert!(matches!(error_of("main = 1 / 0.0"), EvalError::DivisionByZero));
    assert_eq!(message("1 / 0"), "ゼロ除算");
    let (_, x) = tensor_of("[1.0] / 0.0");
    assert!(x[0].is_infinite());
}

// Numbers

#[test]
fn integers_and_floats_mix() {
    assert!(close(number("1 + 2.5"), 3.5));
    assert!(close(number("2.5 * 2"), 5.0));
    assert!(close(number("2 ^ 0.5"), 2f64.sqrt()));
    assert!(close(number("-1.5"), -1.5));
}

#[test]
fn comparisons() {
    assert!(truth("1 < 2.5"));
    assert!(!truth("2.5 <= 2"));
    assert!(truth("2 >= 2"));
    assert!(truth("3.5 > 3"));
    assert!(truth("1 == 1.0"));
    assert!(truth("1.0 == 1"));
    assert!(truth("true == true"));
    assert!(truth("true != false"));
    assert_eq!(message("true < 1"), "型不一致: 数値 が必要ですが Bool でした");
    assert_eq!(message("1 < true"), "型不一致: 数値 が必要ですが Bool でした");
    assert_eq!(
        message("1 == true"),
        "型不一致: 比較可能な型 が必要ですが 比較不可能な型 でした"
    );
}

#[test]
fn functions_of_numbers() {
    assert!(close(number("exp 1"), 1f64.exp()));
    assert!(close(number("log 2.0"), 2f64.ln()));
    assert!(close(number("tanh 0.5"), 0.5f64.tanh()));
    assert!(close(number("sqrt 9"), 3.0));
    assert_eq!(integer("abs (-3)"), 3);
    assert!(close(number("abs (-2.5)"), 2.5));
    assert_eq!(
        message("exp true"),
        "型不一致: 数値またはテンソル が必要ですが Bool でした"
    );
}

// Tensors

#[test]
fn elementwise_operators() {
    assert_eq!(tensor_of("[1, 2; 3, 4] - [1, 1; 1, 1]"), (vec![2, 2], vec![0.0, 1.0, 2.0, 3.0]));
    assert_eq!(tensor_of("[1.0, 2.0] * [3.0, 4.0]"), (vec![2], vec![3.0, 8.0]));
    assert_eq!(tensor_of("[6.0, 8.0] / [3.0, 4.0]"), (vec![2], vec![2.0, 2.0]));
    assert_eq!(tensor_of("[2.0, 3.0] ^ [3.0, 2.0]"), (vec![2], vec![8.0, 9.0]));
}

#[test]
fn a_number_goes_with_every_element() {
    assert_eq!(tensor_of("10 - [1.0, 2.0]"), (vec![2], vec![9.0, 8.0]));
    assert_eq!(tensor_of("[1.0, 2.0] - 1"), (vec![2], vec![0.0, 1.0]));
    assert_eq!(tensor_of("2.0 / [1.0, 4.0]"), (vec![2], vec![2.0, 0.5]));
    assert_eq!(tensor_of("2 ^ [1.0, 3.0]"), (vec![2], vec![2.0, 8.0]));
    assert_eq!(tensor_of("-[1.0, -2.0]"), (vec![2], vec![-1.0, 2.0]));
}

#[test]
fn matrix_products() {
    assert_eq!(
        tensor_of("[1, 2, 3; 4, 5, 6] @ [1, 0; 0, 1; 1, 1]"),
        (vec![2, 2], vec![4.0, 5.0, 10.0, 11.0])
    );
    assert_eq!(tensor_of("[1, 2; 3, 4] @ [1, 1]"), (vec![2], vec![3.0, 7.0]));
    assert_eq!(
        message("[1, 2] @ [1, 2]"),
        "引数エラー: @ は 2D×2D または 2D×1D のみ対応（1D × 1D は未対応）"
    );
    assert_eq!(
        message("1 @ 2"),
        "型不一致: 互換性のある型 が必要ですが 非互換な型の組み合わせ でした"
    );
}

#[test]
fn shapes_that_differ_only_when_run() {
    let src = "a = reshape [1, 2, 3, 4] [2, 2]\nb = reshape [1, 2, 3] [3]\nmain = ";
    match error_of(&format!("{}a + b", src)) {
        EvalError::TensorShapeMismatch { op, a, b } => {
            assert_eq!((op, a, b), ("+", vec![2, 2], vec![3]));
        }
        other => panic!("expected a shape mismatch, got {:?}", other),
    }
    assert_eq!(
        error_of(&format!("{}a @ b", src)).message(),
        "演算子 `@` の shape 不一致: [2, 2] と [3]"
    );
}

#[test]
fn empty_and_uneven_literals() {
    assert_eq!(tensor_of("[]"), (vec![0], vec![]));
    assert_eq!(tensor_of("[;]"), (vec![2, 0], vec![]));
    match run("main = [1, 2; 3]") {
        Err(HaploError::Shape(e)) => {
            assert_eq!(e.message(), "テンソルリテラルの行の長さが揃っていません")
        }
        other => panic!("expected a shape error, got {:?}", other),
    }
    assert_eq!(
        message("[true]"),
        "型不一致: Float または Int が必要ですが Bool でした"
    );
    assert_eq!(
        EvalError::TensorNonUniform.message(),
        "テンソルリテラルの行の長さが揃っていません"
    );
}

#[test]
fn aggregates() {
    assert!(close(number("sum [1, 2; 3, 4]"), 10.0));
    assert!(close(number("mean [1, 2; 3, 6]"), 3.0));
    assert!(close(number("max [1.5, -2.0, 7.25, 3.0]"), 7.25));
    assert!(close(number("min [1.5, -2.0, 7.25]"), -2.0));
    assert!(close(number("norm [3, 4]"), 5.0));
    assert_eq!(message("mean []"), "引数エラー: mean: 空のテンソル");
    assert_eq!(message("max []"), "引数エラー: max: 空のテンソル");
    assert_eq!(message("min []"), "引数エラー: min: 空のテンソル");
    assert_eq!(message("sum 1"), "型不一致: Tensor が必要ですが Int でした");
}

#[test]
fn structure() {
    assert_eq!(tensor_of("zeros [2, 2]"), (vec![2, 2], vec![0.0; 4]));
    assert_eq!(tensor_of("ones 3"), (vec![3], vec![1.0; 3]));
    assert_eq!(
        tensor_of("transpose [1, 2, 3; 4, 5, 6]"),
        (vec![3, 2], vec![1.0, 4.0, 2.0, 5.0, 3.0, 6.0])
    );
    assert_eq!(tensor_of("reshape [1, 2, 3, 4, 5, 6] [3, 2]").0, vec![3, 2]);
    assert_eq!(tensor_of("flatten [1, 2; 3, 4]"), (vec![4], vec![1.0, 2.0, 3.0, 4.0]));
    assert_eq!(tensor_of("concat [1] [2, 3]"), (vec![3], vec![1.0, 2.0, 3.0]));
    assert_eq!(tensor_of("abs [-1, 2]"), (vec![2], vec![1.0, 2.0]));
    assert_eq!(tensor_of("clip 0 1 [-1.0, 0.5, 3.0]"), (vec![3], vec![0.0, 0.5, 1.0]));
    assert!(close(number("clip 0 1 5"), 1.0));
}

#[test]
fn transposing_twice_gives_back() {
    assert_eq!(
        tensor_of("transpose (transpose [1, 2, 3; 4, 5, 6])"),
        tensor_of("[1, 2, 3; 4, 5, 6]")
    );
}

#[test]
fn structure_errors() {
    assert_eq!(
        message("transpose [1, 2]"),
        "演算子 `transpose`: 2次元テンソルが必要ですが 1次元でした"
    );
    assert_eq!(
        message("flatten [1, 2]"),
        "演算子 `flatten`: 2次元テンソルが必要ですが 1次元でした"
    );
    assert_eq!(
        message("concat [1, 2; 3, 4] [1]"),
        "演算子 `concat`: 1次元テンソルが必要ですが 2次元でした"
    );
    assert_eq!(
        message("reshape [1, 2, 3] [2, 2]"),
        "演算子 `reshape` の shape 不一致: [3] と [2, 2]"
    );
    assert_eq!(
        message("zeros true"),
        "引数エラー: shape は Int またはテンソルである必要があります、got: \"Bool\""
    );
    assert_eq!(
        message("zeros [4294967296, 4294967296]"),
        "引数エラー: shape が大きすぎます"
    );
    assert_eq!(message("zeros (-1)"), "引数エラー: shape が大きすぎます");
}

#[test]
fn softmax_adds_up() {
    let (shape, x) = tensor_of("softmax [1.0, 2.0, 3.0]");
    assert_eq!(shape, vec![3]);
    let e: Vec<f64> = [1f64, 2.0, 3.0].iter().map(|x| x.exp()).collect();
    let s: f64 = e.iter().sum();
    for i in 0..3 {
        assert!(close(x[i], e[i] / s));
    }
}

// Functions

#[test]
fn definitions_refer_to_later_functions() {
    let src = "main = isEven 10\nisEven n = if n == 0 then true else isOdd (n - 1)\n\
               isOdd n = if n == 0 then false else isEven (n - 1)";
    assert!(matches!(run(src), Ok(Value::Bool(true))));
}

#[test]
fn values_come_in_order() {
    assert!(matches!(run("a = 1\nb = a + 1\nmain = b"), Ok(Value::Int(2))));
    assert_eq!(error_of("main = b\nb = 1").message(), "未定義の変数: b");
}

#[test]
fn scopes() {
    assert!(matches!(run("x = 1\nmain = let x = 2 in x"), Ok(Value::Int(2))));
    assert!(matches!(run("x = 1\nmain = (let x = 2 in x) + x"), Ok(Value::Int(3))));
    assert!(matches!(
        run("main = let y = 1 in let f x = x + y in let y = 100 in f 1"),
        Ok(Value::Int(2))
    ));
    assert!(matches!(run("sum = 5\nmain = sum"), Ok(Value::Int(5))));
}

#[test]
fn parameters_meet_arguments_in_order() {
    assert!(matches!(run("f a b c = a - b * c\nmain = f 100 3 4"), Ok(Value::Int(88))));
    assert!(matches!(
        run("f a b = a - b\ng = f 10\nmain = g 1 |> f 20"),
        Ok(Value::Int(11))
    ));
}

#[test]
fn pipes_apply() {
    assert!(matches!(run("f a b = a - b\nmain = 3 |> f 10"), Ok(Value::Int(7))));
    assert!(close(number("[1.0, 2.0] |> sum |> exp"), 3f64.exp()));
}

#[test]
fn what_is_no_function() {
    assert_eq!(message("1 2"), "型不一致: 関数 が必要ですが Int でした");
    assert_eq!(message("[1] 2"), "型不一致: 関数 が必要ですが Tensor でした");
    assert_eq!(message("if 1 then 2 else 3"), "型不一致: Bool が必要ですが Int でした");
    assert_eq!(message("-true"), "型不一致: 数値 が必要ですが Bool でした");
    assert_eq!(
        EvalError::ArityMismatch.message(),
        "関数でない値を適用しようとしました"
    );
}

#[test]
fn a_program_without_main() {
    assert_eq!(error_of("x = 1").message(), "`main` の定義が見つかりません");
}

#[test]
fn calls_nest_only_so_deep() {
    let src = "f n = if n == 0 then 0 else f (n - 1)\nmain = f 50";
    assert!(matches!(haplo::pipeline::run(&arithmetic, src, 51), Ok(Value::Int(0))));
    assert!(matches!(haplo::pipeline::run(&arithmetic, src, 400), Ok(Value::Int(0))));
    match haplo::pipeline::run(&arithmetic, src, 50) {
        Err(HaploError::Eval(e)) => assert_eq!(e.message(), "関数呼び出しが深すぎます"),
        other => panic!("expected the limit, got {:?}", other),
    }
}

#[test]
fn annotations_do_not_change_values() {
    assert!(matches!(
        run("f : Int -> Int\nf x = x + 1\nmain : Int\nmain = f 1"),
        Ok(Value::Int(2))
    ));
}

// Iteration

#[test]
fn iteration() {
    assert!(matches!(run("f x = x * 2\nmain = iterate 1 10 f"), Ok(Value::Int(1024))));
    assert!(matches!(run("f x = x * 2\nmain = iterate 7 0 f"), Ok(Value::Int(7))));
    assert!(matches!(run("f x = x * 2\nmain = iterate 7 (-3) f"), Ok(Value::Int(7))));
    assert!(matches!(
        run("f x = x * 2\nmain = iterate (iterate 1 4 f) 6 f"),
        Ok(Value::Int(1024))
    ));
    assert_eq!(
        error_of("f x = x\nmain = iterate 1 2.0 f").message(),
        "型不一致: Int が必要ですが Float でした"
    );
    assert!(matches!(
        error_of("f x = x * 4294967296\nmain = iterate 1 9 f"),
        EvalError::IntegerOverflow
    ));
}

// Derivatives

fn derivative(src: &str) -> f64 {
    match run(src).unwrap() {
        Value::Float(x) => f64::from_bits(x),
        other => panic!("expected a float, got {:?}", other),
    }
}

#[test]
fn derivatives_by_a_number() {
    assert!(close(derivative("f x = x * x * x\nmain = grad f 2.0"), 12.0));
    assert!(close(derivative("f x = x ^ 3\nmain = grad f 2"), 12.0));
    assert!(close(derivative("f x = 1.0 / x\nmain = grad f 2.0"), -0.25));
    assert!(close(derivative("f x = x / 4 - 3 + 2 * x\nmain = grad f 2.0"), 2.25));
    assert!(close(derivative("f x = 2.0 ^ x\nmain = grad f 3.0"), 8.0 * 2f64.ln()));
    assert!(close(derivative("f x = (-1.0) ^ x\nmain = grad f 2.0"), 0.0));
    assert!(close(derivative("f x = exp (-x)\nmain = grad f 1.0"), -(-1f64).exp()));
    assert!(close(derivative("f x = log x\nmain = grad f 4.0"), 0.25));
    assert!(close(
        derivative("f x = tanh x\nmain = grad f 0.5"),
        1.0 - 0.5f64.tanh().powi(2)
    ));
    assert!(close(derivative("f x = sqrt x\nmain = grad f 4.0"), 0.25));
    assert!(close(derivative("f x = 5\nmain = grad f 4.0"), 0.0));
}

#[test]
fn derivatives_by_a_tensor() {
    let (shape, g) = tensor("f w = sum (w * w)\nmain = grad f [1.0, 2.0, 3.0]");
    assert_eq!((shape, g), (vec![3], vec![2.0, 4.0, 6.0]));
    let (shape, g) = tensor("f w = mean w\nmain = grad f [1.0, 2.0; 3.0, 4.0]");
    assert_eq!((shape, g), (vec![2, 2], vec![0.25; 4]));
    let (shape, g) = tensor("f w = sum ([1.0, 2.0; 3.0, 4.0] @ w)\nmain = grad f [1.0, 1.0]");
    assert_eq!((shape, g), (vec![2], vec![4.0, 6.0]));
    let (shape, g) = tensor("f w = sum (w @ [1.0, 2.0])\nmain = grad f [1.0, 1.0; 1.0, 1.0]");
    assert_eq!((shape, g), (vec![2, 2], vec![1.0, 2.0, 1.0, 2.0]));
    let (shape, g) =
        tensor("f w = sum (w @ [1.0, 2.0; 3.0, 4.0])\nmain = grad f [1.0, 1.0; 1.0, 1.0]");
    assert_eq!((shape, g), (vec![2, 2], vec![3.0, 7.0, 3.0, 7.0]));
    let (shape, g) =
        tensor("f w = sum ([1.0, 2.0; 3.0, 4.0] @ w)\nmain = grad f [1.0, 1.0; 1.0, 1.0]");
    assert_eq!((shape, g), (vec![2, 2], vec![4.0, 4.0, 6.0, 6.0]));
    let (shape, g) = tensor("f w = 5\nmain = grad f [1.0, 1.0]");
    assert_eq!((shape, g), (vec![2], vec![0.0, 0.0]));
}

#[test]
fn a_scalar_operand_gathers_its_derivative() {
    assert!(close(derivative("f x = sum (x * [1.0, 2.0, 3.0])\nmain = grad f 1.0"), 6.0));
    assert!(close(derivative("f x = sum ([1.0, 2.0, 3.0] - x)\nmain = grad f 1.0"), -3.0));
}

#[test]
fn derivative_of_softmax() {
    let (_, g) = tensor("f w = sum (softmax w)\nmain = grad f [1.0, 2.0]");
    assert!(close(g[0], 0.0) && close(g[1], 0.0));
}

#[test]
fn derivatives_nest() {
    assert!(close(
        derivative("f x = x * x\ng y = y * grad f 3.0\nmain = grad g 1.0"),
        6.0
    ));
}

#[test]
fn nothing_traced_leaves_a_derivative() {
    // A function that keeps what it is given cannot carry it out.
    for src in [
        "f x = let g y = x in g\nmain = grad f 1.0",
        "f x = reshape x\nmain = grad f 1.0",
    ] {
        assert!(matches!(error_of(src), EvalError::TypeMismatch { .. }));
    }
    assert!(matches!(value("let f x = x * x in grad f 3"), Value::Float(_)));
    assert!(matches!(value("let f x = sum x in grad f [1, 2]"), Value::Tensor(_)));
}

#[test]
fn derivative_errors() {
    assert_eq!(
        error_of("f x = x\nmain = grad f true").message(),
        "型不一致: 数値またはテンソル が必要ですが Bool でした"
    );
    assert_eq!(
        error_of("f x = f\nmain = grad f 1.0").message(),
        "型不一致: 数値またはテンソル が必要ですが Closure でした"
    );
    assert_eq!(
        error_of("f x = if x < 1 then x else x\nmain = grad f 1.0").message(),
        "引数エラー: 比較演算子は微分できません"
    );
    assert_eq!(
        error_of("f x = max x\nmain = grad f [1.0]").message(),
        "型不一致: Tensor が必要ですが Tracked でした"
    );
    assert_eq!(
        error_of("f x = x + true\nmain = grad f 1.0").message(),
        "型不一致: 数値またはテンソル が必要ですが Bool でした"
    );
    match error_of("a = reshape [1, 2] [2]\nf x = sum (x + a)\nmain = grad f [1, 2, 3]") {
        EvalError::TensorShapeMismatch { op, a, b } => {
            assert_eq!((op, a, b), ("+", vec![3], vec![2]));
        }
        other => panic!("expected a shape mismatch, got {:?}", other),
    }
    // A node of the outer differentiation is none of the inner one.
    assert_eq!(
        error_of("g y = let h = y * y * y in let f x = h in grad f 1.0\nmain = grad g 1.0")
            .message(),
        "引数エラー: 微分の対象でない追跡値です"
    );
}

#[test]
fn training_lowers_the_loss() {
    let src = "
x = [1.0, 2.0, 3.0; 4.0, 5.0, 6.0; 7.0, 8.0, 9.0; 1.0, 0.0, 1.0]
y = [1.0, 2.0, 3.0, 0.5]
lr = 0.01
predict feats w b = feats @ w + b
mse pred target   = mean ((pred - target) ^ 2)
loss w            = mse (predict x w 0.0) y
step w            = w - lr * grad loss w
";
    let start = match run(&format!("{}main = loss (zeros [3])", src)).unwrap() {
        Value::Float(x) => f64::from_bits(x),
        other => panic!("expected a float, got {:?}", other),
    };
    let end = match run(&format!("{}main = loss (iterate (zeros [3]) 200 step)", src)).unwrap() {
        Value::Float(x) => f64::from_bits(x),
        other => panic!("expected a float, got {:?}", other),
    };
    assert!(end < start / 10.0);
    let (shape, w) = tensor(&format!("{}main = iterate (zeros [3]) 200 step", src));
    assert_eq!(shape, vec![3]);
    assert!(w.iter().all(|x| x.is_finite()));
}

// Shown values

fn shown(body: &str) -> String {
    match value(body).shown() {
        Shown::Text(s) => s,
        Shown::Number(x) => format!("number {}", f64::from_bits(x)),
        Shown::Array(t) => format!("array {:?}", t.shape()),
    }
}

#[test]
fn how_values_are_shown() {
    assert_eq!(shown("-42"), "-42");
    assert_eq!(shown("(-2) ^ 63"), "-9223372036854775808");
    assert_eq!(shown("true"), "true");
    assert_eq!(shown("1 == 2"), "false");
    assert_eq!(shown("2.5"), "number 2.5");
    assert_eq!(shown("[1, 2]"), "array [2]");
    assert_eq!(shown("let f x = x in f"), "<closure>");
    assert_eq!(shown("sum"), "<builtin:Sum>");
    assert_eq!(shown("iterate 1 2"), "<builtin:Iterate (部分適用 2 引数)>");
    assert!(matches!(Value::Traced(3).shown(), Shown::Text(s) if s == "<tracked>"));
}

// Errors of every stage

#[test]
fn errors_name_their_stage() {
    let text = |src: &str| match run(src) {
        Err(e) => e.message(""),
        Ok(v) => panic!("expected an error, got {:?}", v),
    };
    assert_eq!(text("#"), "字句解析エラー: 予期しない文字 '#' (1:1)");
    assert_eq!(text("x ="), "構文解析エラー: 予期しないトークン \"Eof\" (1:4) — 式 を期待");
    assert_eq!(
        text("main = [1, 2] + [1, 2, 3]"),
        "shape 検査エラー: 演算子 `+` の shape が一致しません: [2] と [3]"
    );
    assert_eq!(text("main = y"), "評価エラー: 未定義の変数: y");
}

#[test]
fn a_shape_error_comes_before_evaluation() {
    assert!(matches!(
        run("main = [1 / 0, 2] + [1, 2, 3]"),
        Err(HaploError::Shape(_))
    ));
}
