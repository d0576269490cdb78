use haplo::ast::{Expr, Literal};
use haplo::autodiff::Tapes;
use haplo::interpreter::eval_tensor_lit;
use haplo::lexer::lex;
use haplo::num::{BinaryOp, Query, Relation, UnaryOp};
use haplo::parser::parse;
use haplo::pipeline::HaploError;
use haplo::shape_stage::{
    shape_eval_program, shape_eval_tensor_lit, Budget, DimVal, ShapeEnv, ShapeError, ShapeGlobals,
    ShapeType,
};
use haplo::value::{Env, Globals, Value};

/// Floating-point arithmetic on bit patterns.
fn arithmetic(q: Query) -> Vec<u64> {
    let f = f64::from_bits;
    match q {
        Query::Parse(s) => vec![word(s.parse::<f64>().unwrap_or(f64::NAN))],
        Query::FromInt(n) => vec![word(n as f64)],
        Query::Unary(op, x) => {
            let x = f(x);
            let y = match op {
                UnaryOp::Neg => -x,
                UnaryOp::Exp => x.exp(),
                UnaryOp::Log => x.ln(),
                UnaryOp::Tanh => x.tanh(),
                UnaryOp::Sqrt => x.sqrt(),
                UnaryOp::Abs => x.abs(),
            };
            vec![word(y)]
        }
        Query::Binary(op, x, y) => {
            let (x, y) = (f(x), f(y));
            let z = match op {
                BinaryOp::Add => x + y,
                BinaryOp::Sub => x - y,
                BinaryOp::Mul => x * y,
                BinaryOp::Div => x / y,
                BinaryOp::Pow => x.powf(y),
                BinaryOp::Max => x.max(y),
                BinaryOp::Min => x.min(y),
            };
            vec![word(z)]
        }
        Query::Compare(r, x, y) => {
            let (x, y) = (f(x), f(y));
            let b = match r {
                Relation::Eq => x == y,
                Relation::Lt => x < y,
                Relation::Le => x <= y,
                Relation::Gt => x > y,
                Relation::Ge => x >= y,
            };
            vec![b as u64]
        }
        Query::ToSize(x) => vec![f(x) as usize as u64],
        Query::Sum(xs) => vec![word(ndarray::Array1::from_vec(floats(&xs)).sum())],
        Query::MatMul { m, k, n, a, b } => {
            let a = ndarray::Array2::from_shape_vec((m, k), floats(&a)).unwrap();
            let b = ndarray::Array2::from_shape_vec((k, n), floats(&b)).unwrap();
            a.dot(&b).iter().map(|x| word(*x)).collect()
        }
        Query::MatVec { m, k, a, v } => {
            let a = ndarray::Array2::from_shape_vec((m, k), floats(&a)).unwrap();
            let v = ndarray::Array1::from_vec(floats(&v));
            a.dot(&v).iter().map(|x| word(*x)).collect()
        }
    }
}

/// A number as its bit pattern, one for all that are no number.
fn word(x: f64) -> u64 {
    if x.is_nan() {
        0x7ff8_0000_0000_0000
    } else {
        x.to_bits()
    }
}

fn floats(xs: &[u64]) -> Vec<f64> {
    xs.iter().map(|x| f64::from_bits(*x)).collect()
}

fn shape(src: &str) -> ShapeType {
    shape_eval_program(&parse(&lex(src).unwrap()).unwrap()).unwrap()
}

fn run(src: &str) -> Result<Value, HaploError> {
    haplo::pipeline::run(&arithmetic, src, 1000)
}

/// The value of a program without regard to its shapes.
fn evaluate(src: &str) -> Value {
    haplo::interpreter::eval_program(&arithmetic, &parse(&lex(src).unwrap()).unwrap(), 1000)
        .unwrap()
}

/// Whether what is said of a shape holds of a value.
fn holds(s: &ShapeType, v: &Value) -> bool {
    match (s, v) {
        (ShapeType::Unknown, _) => true,
        (ShapeType::Scalar, Value::Int(_) | Value::Float(_) | Value::Bool(_)) => true,
        (ShapeType::Tensor(dims), Value::Tensor(t)) => {
            dims.len() == t.shape().len()
                && dims.iter().zip(t.shape()).all(|(d, n)| match d {
                    DimVal::Concrete(k) => k == n,
                    _ => true,
                })
        }
        (ShapeType::Closure(_), Value::Closure(_)) => true,
        (ShapeType::Builtin(a), Value::Builtin(b)) => a == b,
        (ShapeType::PartialBuiltin(a, x), Value::PartialBuiltin(b, y)) => {
            a == b && x.len() == y.len()
        }
        _ => false,
    }
}

const TRAINING: &str = "
x = [1.0, 2.0, 3.0; 4.0, 5.0, 6.0; 7.0, 8.0, 9.0; 1.0, 0.0, 1.0]
y = [1.0, 2.0, 3.0, 0.5]
lr = 0.01

predict feats w b = feats @ w + b
mse pred target   = mean ((pred - target) ^ 2)
loss w            = mse (predict x w 0.0) y
step w            = w - lr * grad loss w

main = iterate (zeros [3]) 20 step
";

#[test]
fn shapes_hold_of_values() {
    for src in [
        "main = 1 + 2 * 3",
        "main = [1, 2; 3, 4] @ [1, 2]",
        "main = transpose [1, 2, 3; 4, 5, 6]",
        "main = concat (flatten [1, 2; 3, 4]) [5]",
        "main = if 1 < 2 then [1, 2] else [3, 4]",
        "main = if 1 < 2 then [1, 2] else [3, 4, 5]",
        "main = let f a b = a @ b in f [1, 2; 3, 4]",
        "main = reshape [1, 2, 3, 4]",
        "main = softmax (ones 4)",
        "f w = sum (w * w)\nmain = grad f [1, 2, 3]",
        "f n = if n == 0 then 0 else f (n - 1)\nmain = f 5",
        "w : Tensor[2, 2]\nw = zeros [2, 2]\nmain = w @ [1, 2]",
        TRAINING,
    ] {
        let v = run(src).unwrap();
        assert!(holds(&shape(src), &v), "{}", src);
    }
}

#[test]
fn the_training_program_is_checked_and_runs() {
    match shape(TRAINING) {
        ShapeType::Tensor(dims) => assert_eq!(dims, vec![DimVal::Concrete(3)]),
        other => panic!("expected a tensor, got {:?}", other),
    }
    assert!(matches!(run(TRAINING), Ok(Value::Tensor(_))));
}

#[test]
fn what_is_refused_would_fail() {
    for (a, op, b) in [
        ("[1, 2]", "+", "[1, 2, 3]"),
        ("[1, 2]", "*", "[1, 2; 3, 4]"),
        ("[1, 2; 3, 4]", "@", "[1, 2, 3]"),
        ("[1, 2, 3; 4, 5, 6]", "@", "[1, 2; 3, 4]"),
    ] {
        let src = format!("main = {} {} {}", a, op, b);
        assert!(matches!(run(&src), Err(HaploError::Shape(_))));
        let program = parse(&lex(&src).unwrap()).unwrap();
        assert!(haplo::interpreter::eval_program(&arithmetic, &program, 1000).is_err());
        let src = format!("f w = sum (w {} {})\nmain = grad f {}", op, b, a);
        assert!(matches!(run(&src), Err(HaploError::Shape(_))));
        let program = parse(&lex(&src).unwrap()).unwrap();
        assert!(haplo::interpreter::eval_program(&arithmetic, &program, 1000).is_err());
    }
}

#[test]
fn what_is_not_run_is_checked_all_the_same() {
    for src in [
        "main = if true then 1 else sum ([1, 2] + [1, 2, 3])",
        "f w = w + [1, 2, 3]\nmain = iterate [1, 2] 0 f",
    ] {
        assert!(matches!(run(src), Err(HaploError::Shape(_))));
        evaluate(src);
    }
}

#[test]
fn a_step_that_changes_a_shape_is_not_seen() {
    let src = "step v = concat v v\nmain = iterate [1, 2] 2 step";
    let v = run(src).unwrap();
    match &v {
        Value::Tensor(t) => assert_eq!(t.shape(), &vec![8]),
        other => panic!("expected a tensor, got {:?}", other),
    }
    assert!(!holds(&shape(src), &v));
}

#[test]
fn an_annotation_is_taken_at_its_word() {
    let src = "w : Tensor[3]\nw = reshape [1, 2] [2]\nmain = w";
    assert!(!holds(&shape(src), &run(src).unwrap()));
}

#[test]
fn an_inner_derivative_reads_its_own_tape() {
    // `x` is the first node of the outer tape, and so is `y` of the inner one.
    let src = "g x = let f y = sum (x * y) in sum (grad f [1, 2, 3])\nmain = grad g [1, 2]";
    assert!(matches!(run(src), Err(HaploError::Shape(_))));
    evaluate(src);
}

#[test]
fn literals_have_the_shape_of_their_value() {
    for src in ["main = []", "main = [;]", "main = [1, 2.5]", "main = [1, 2; 3, 4; 5, 6]"] {
        match (shape(src), evaluate(src)) {
            (ShapeType::Tensor(dims), Value::Tensor(t)) => {
                let sizes: Vec<DimVal> = t.shape().iter().map(|n| DimVal::Concrete(*n)).collect();
                assert_eq!(dims, sizes);
            }
            other => panic!("expected tensors, got {:?}", other),
        }
    }
    let program = parse(&lex("main = [1, 2; 3]").unwrap()).unwrap();
    assert!(matches!(
        shape_eval_program(&program),
        Err(haplo::shape_stage::ShapeError::NonUniformTensor)
    ));
    assert!(matches!(
        haplo::interpreter::eval_program(&arithmetic, &program, 10),
        Err(haplo::value::EvalError::TensorNonUniform)
    ));
}

#[test]
fn variables_for_sizes() {
    // A variable that meets itself is no conflict.
    let src = "a : Tensor[n]\na = [1.0, 2.0]\nmain = a + a";
    assert!(matches!(run(src), Ok(Value::Tensor(_))));
    // Names for different sizes, which do not meet.
    let src = "a : Tensor[n]\na = [1, 2]\nb : Tensor[m]\nb = [1, 2, 3]\nmain = concat a b";
    assert!(matches!(run(src), Ok(Value::Tensor(_))));
    // Two names that meet are refused, even for one size.
    let src = "a : Tensor[n]\na = [1, 2]\nb : Tensor[m]\nb = [3, 4]\nmain = a + b";
    assert!(matches!(run(src), Err(HaploError::Shape(ShapeError::VarConflict { .. }))));
    assert!(matches!(evaluate(src), Value::Tensor(_)));
}

#[test]
fn literals_and_their_shapes() {
    let row = |n: i64| (0..n).map(|i| Expr::Lit(Literal::Int(i))).collect::<Vec<Expr>>();
    let literals = [
        (vec![], Some(vec![0])),
        (vec![row(0)], Some(vec![0])),
        (vec![row(3)], Some(vec![3])),
        (vec![row(3), row(3)], Some(vec![2, 3])),
        (vec![row(3), row(2)], None),
    ];
    for (rows, expected) in literals {
        let inferred = shape_eval_tensor_lit(
            &rows,
            &ShapeEnv::empty(),
            &ShapeGlobals::empty(),
            &mut Budget::full(),
        );
        let value = eval_tensor_lit(
            &arithmetic,
            &rows,
            &Env::empty(),
            &Globals::empty(),
            10,
            &mut Tapes { stack: Vec::new() },
        );
        match (inferred, value, expected) {
            (Ok(s), Ok(v), Some(n)) => {
                assert!(holds(&s, &v));
                assert!(matches!(v, Value::Tensor(t) if *t.shape() == n));
            }
            (Err(_), Err(_), None) => {}
            other => panic!("unexpected {:?}", other),
        }
    }
}
