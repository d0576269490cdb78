use haplo::interpreter::eval_program;
use haplo::lexer::lex;
use haplo::num::{BinaryOp, Query, Relation, UnaryOp};
use haplo::parser::parse;
use haplo::tensor::Tensor;
use haplo::value::Value;

/// Floating-point arithmetic on bit patterns.
fn arithmetic(q: Query) -> Vec<u64> {
    let f = f64::from_bits;
    match q {
        Query::Parse(s) => vec![word(s.parse::<f64>().unwrap_or(f64::NAN))],
        Query::FromInt(n) => vec![word(n as f64)],
        Query::Unary(op, x) => {
            let x = f(x);
            let y = match op {
                UnaryOp::Neg => -x,
                UnaryOp::Exp => x.exp(),
                UnaryOp::Log => x.ln(),
                UnaryOp::Tanh => x.tanh(),
                UnaryOp::Sqrt => x.sqrt(),
                UnaryOp::Abs => x.abs(),
            };
            vec![word(y)]
        }
        Query::Binary(op, x, y) => {
            let (x, y) = (f(x), f(y));
            let z = match op {
                BinaryOp::Add => x + y,
                BinaryOp::Sub => x - y,
                BinaryOp::Mul => x * y,
                BinaryOp::Div => x / y,
                BinaryOp::Pow => x.powf(y),
                BinaryOp::Max => x.max(y),
                BinaryOp::Min => x.min(y),
            };
            vec![word(z)]
        }
        Query::Compare(r, x, y) => {
            let (x, y) = (f(x), f(y));
            let b = match r {
                Relation::Eq => x == y,
                Relation::Lt => x < y,
                Relation::Le => x <= y,
                Relation::Gt => x > y,
                Relation::Ge => x >= y,
            };
            vec![b as u64]
        }
        Query::ToSize(x) => vec![f(x) as usize as u64],
        Query::Sum(xs) => vec![word(ndarray::Array1::from_vec(floats(&xs)).sum())],
        Query::MatMul { m, k, n, a, b } => {
            let a = ndarray::Array2::from_shape_vec((m, k), floats(&a)).unwrap();
            let b = ndarray::Array2::from_shape_vec((k, n), floats(&b)).unwrap();
            a.dot(&b).iter().map(|x| word(*x)).collect()
        }
        Query::MatVec { m, k, a, v } => {
            let a = ndarray::Array2::from_shape_vec((m, k), floats(&a)).unwrap();
            let v = ndarray::Array1::from_vec(floats(&v));
            a.dot(&v).iter().map(|x| word(*x)).collect()
        }
    }
}

/// A number as its bit pattern, one for all that are no number.
fn word(x: f64) -> u64 {
    if x.is_nan() {
        0x7ff8_0000_0000_0000
    } else {
        x.to_bits()
    }
}

fn floats(xs: &[u64]) -> Vec<f64> {
    xs.iter().map(|x| f64::from_bits(*x)).collect()
}

fn run(src: &str) -> Value {
    let tokens = lex(src).expect("lex error");
    let program = parse(&tokens).expect("parse error");
    eval_program(&arithmetic, &program, 1000).expect("eval error")
}

fn run_f(src: &str) -> f64 {
    match run(src) {
        Value::Float(x) => f64::from_bits(x),
        Value::Int(n) => n as f64,
        other => panic!("expected float, got {:?}", other),
    }
}

/// The elements of a tensor, row by row.
fn elements(t: &Tensor) -> Vec<f64> {
    floats(t.data())
}

#[test]
fn g0_literal_int() {
    assert!(matches!(run("main = 42"), Value::Int(42)));
}

#[test]
fn g0_literal_float() {
    let v = run("main = 3.14");
    match v {
        Value::Float(x) => assert!((f64::from_bits(x) - 3.14).abs() < 1e-9),
        _ => panic!(),
    }
}

#[test]
fn g0_arith() {
    assert!(matches!(run("main = 2 + 3 * 4"), Value::Int(14)));
}

#[test]
fn g0_sub() {
    assert!(matches!(run("main = 10 - 3"), Value::Int(7)));
}

#[test]
fn g0_div() {
    assert!(matches!(run("main = 10 / 2"), Value::Int(5)));
}

#[test]
fn g0_pow() {
    assert!(matches!(run("main = 2 ^ 10"), Value::Int(1024)));
}

#[test]
fn g0_bool() {
    assert!(matches!(run("main = true"), Value::Bool(true)));
}

#[test]
fn g0_if_true() {
    assert!(matches!(run("main = if true then 1 else 0"), Value::Int(1)));
}

#[test]
fn g0_if_false() {
    assert!(matches!(
        run("main = if false then 1 else 0"),
        Value::Int(0)
    ));
}

#[test]
fn g0_let() {
    assert!(matches!(
        run("main = let x = 3 in x * x"),
        Value::Int(9)
    ));
}

#[test]
fn g0_fn() {
    assert!(matches!(run("f x = x + 1\nmain = f 3"), Value::Int(4)));
}

#[test]
fn g0_multiarg_fn() {
    assert!(matches!(
        run("add x y = x + y\nmain = add 2 3"),
        Value::Int(5)
    ));
}

#[test]
fn g0_comparison() {
    assert!(matches!(run("main = 3 > 2"), Value::Bool(true)));
    assert!(matches!(run("main = 1 == 1"), Value::Bool(true)));
    assert!(matches!(run("main = 1 != 2"), Value::Bool(true)));
}

#[test]
fn g0_nested_fn() {
    let src = "
double x = x * 2
add1 x = x + 1
main = double (add1 3)
";
    assert!(matches!(run(src), Value::Int(8)));
}

#[test]
fn g0_unary_minus() {
    assert!(matches!(run("main = -5"), Value::Int(-5)));
}

#[test]
fn g1_tensor_1d() {
    let v = run("main = [1.0, 2.0, 3.0]");
    match v {
        Value::Tensor(t) => {
            assert_eq!(t.shape(), &vec![3]);
        }
        _ => panic!(),
    }
}

#[test]
fn g1_tensor_2d() {
    let v = run("main = [1.0, 2.0; 3.0, 4.0]");
    match v {
        Value::Tensor(t) => {
            assert_eq!(t.shape(), &vec![2, 2]);
        }
        _ => panic!(),
    }
}

#[test]
fn g1_tensor_add() {
    let v = run("main = [1.0, 2.0] + [3.0, 4.0]");
    match v {
        Value::Tensor(t) => {
            assert_eq!(t.shape(), &vec![2]);
            assert!((elements(&t)[0] - 4.0).abs() < 1e-9);
            assert!((elements(&t)[1] - 6.0).abs() < 1e-9);
        }
        _ => panic!(),
    }
}

#[test]
fn g1_matmul_identity() {
    let src = "
a = [1.0, 0.0; 0.0, 1.0]
main = a @ a
";
    match run(src) {
        Value::Tensor(t) => {
            assert_eq!(t.shape(), &vec![2, 2]);
            assert!((elements(&t)[0] - 1.0).abs() < 1e-9);
            assert!((elements(&t)[1]).abs() < 1e-9);
            assert!((elements(&t)[2]).abs() < 1e-9);
            assert!((elements(&t)[3] - 1.0).abs() < 1e-9);
        }
        _ => panic!(),
    }
}

#[test]
fn g1_sum() {
    let x = run_f("main = sum [1.0, 2.0, 3.0]");
    assert!((x - 6.0).abs() < 1e-9);
}

#[test]
fn g1_mean() {
    let x = run_f("main = mean [2.0, 4.0]");
    assert!((x - 3.0).abs() < 1e-9);
}

#[test]
fn g1_pipe_sum() {
    let x = run_f("main = [1.0, 2.0, 3.0] |> sum");
    assert!((x - 6.0).abs() < 1e-9);
}

#[test]
fn g1_scalar_broadcast() {
    let v = run("main = [1.0, 2.0, 3.0] + 1.0");
    match v {
        Value::Tensor(t) => {
            assert!((elements(&t)[0] - 2.0).abs() < 1e-9);
            assert!((elements(&t)[2] - 4.0).abs() < 1e-9);
        }
        _ => panic!(),
    }
}

#[test]
fn g1_tensor_pow_scalar() {
    let v = run("main = [1.0, 2.0, 3.0] ^ 2");
    match v {
        Value::Tensor(t) => {
            assert!((elements(&t)[0] - 1.0).abs() < 1e-9);
            assert!((elements(&t)[1] - 4.0).abs() < 1e-9);
            assert!((elements(&t)[2] - 9.0).abs() < 1e-9);
        }
        _ => panic!(),
    }
}

#[test]
fn g1_zeros() {
    let v = run("main = zeros [3]");
    match v {
        Value::Tensor(t) => {
            assert_eq!(t.shape(), &vec![3]);
            assert!(elements(&t).iter().all(|&x| x == 0.0));
        }
        _ => panic!(),
    }
}

#[test]
fn g1_exp() {
    let x = run_f("main = exp 0.0");
    assert!((x - 1.0).abs() < 1e-9);
}
