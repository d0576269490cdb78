use haplo::num::{BinaryOp, Query, Relation, UnaryOp};
use haplo::pipeline::HaploError;
use haplo::tensor::Tensor;
use haplo::value::{Shown, Value};

/// Floating-point arithmetic on bit patterns.
fn arithmetic(q: Query) -> Vec<u64> {
    let f = f64::from_bits;
    match q {
        Query::Parse(s) => vec![word(s.parse::<f64>().unwrap_or(f64::NAN))],
        Query::FromInt(n) => vec![word(n as f64)],
        Query::Unary(op, x) => {
            let x = f(x);
            let y = match op {
                UnaryOp::Neg => -x,
                UnaryOp::Exp => x.exp(),
                UnaryOp::Log => x.ln(),
                UnaryOp::Tanh => x.tanh(),
                UnaryOp::Sqrt => x.sqrt(),
                UnaryOp::Abs => x.abs(),
            };
            vec![word(y)]
        }
        Query::Binary(op, x, y) => {
            let (x, y) = (f(x), f(y));
            let z = match op {
                BinaryOp::Add => x + y,
                BinaryOp::Sub => x - y,
                BinaryOp::Mul => x * y,
                BinaryOp::Div => x / y,
                BinaryOp::Pow => x.powf(y),
                BinaryOp::Max => x.max(y),
                BinaryOp::Min => x.min(y),
            };
            vec![word(z)]
        }
        Query::Compare(r, x, y) => {
            let (x, y) = (f(x), f(y));
            let b = match r {
                Relation::Eq => x == y,
                Relation::Lt => x < y,
                Relation::Le => x <= y,
                Relation::Gt => x > y,
                Relation::Ge => x >= y,
            };
            vec![b as u64]
        }
        Query::ToSize(x) => vec![f(x) as usize as u64],
        Query::Sum(xs) => vec![word(ndarray::Array1::from_vec(floats(&xs)).sum())],
        Query::MatMul { m, k, n, a, b } => {
            let a = ndarray::Array2::from_shape_vec((m, k), floats(&a)).unwrap();
            let b = ndarray::Array2::from_shape_vec((k, n), floats(&b)).unwrap();
            a.dot(&b).iter().map(|x| word(*x)).collect()
        }
        Query::MatVec { m, k, a, v } => {
            let a = ndarray::Array2::from_shape_vec((m, k), floats(&a)).unwrap();
            let v = ndarray::Array1::from_vec(floats(&v));
            a.dot(&v).iter().map(|x| word(*x)).collect()
        }
    }
}

/// A number as its bit pattern, one for all that are no number.
fn word(x: f64) -> u64 {
    if x.is_nan() {
        0x7ff8_0000_0000_0000
    } else {
        x.to_bits()
    }
}

fn floats(xs: &[u64]) -> Vec<f64> {
    xs.iter().map(|x| f64::from_bits(*x)).collect()
}

fn run(src: &str) -> Result<Value, HaploError> {
    haplo::pipeline::run(&arithmetic, src, 1000)
}

/// A value as text, where it needs no floating-point printing.
fn text(v: &Value) -> String {
    match v.shown() {
        Shown::Text(s) => s,
        other => panic!("expected text, got {:?}", other),
    }
}

/// The elements of a tensor, row by row.
fn elements(t: &Tensor) -> Vec<f64> {
    floats(t.data())
}

#[test]
fn integration_g0_canonical() {
    let val = run("main = 2 + 3 * 4").unwrap();
    assert_eq!(text(&val), "14");
}

#[test]
fn integration_g0_fn_chain() {
    let src = "
f x = x + 1
g x = x * 2
main = g (f 3)
";
    assert_eq!(text(&run(src).unwrap()), "8");
}

#[test]
fn integration_g1_matmul_identity() {
    let src = "
a = [1.0, 0.0; 0.0, 1.0]
main = a @ a
";
    let val = run(src).unwrap();
    match val {
        Value::Tensor(t) => {
            assert_eq!(t.shape(), &vec![2, 2]);
            assert!((elements(&t)[0] - 1.0).abs() < 1e-9);
            assert!((elements(&t)[3] - 1.0).abs() < 1e-9);
        }
        _ => panic!("expected tensor"),
    }
}

#[test]
fn integration_g1_sum_pipe() {
    let val = run("main = [1.0, 2.0, 3.0] |> sum").unwrap();
    match val {
        Value::Float(x) => assert!((f64::from_bits(x) - 6.0).abs() < 1e-9),
        _ => panic!(),
    }
}

#[test]
fn integration_g4_shape_mismatch_rejected_before_eval() {
    let src = "
a = [1.0, 2.0, 3.0; 4.0, 5.0, 6.0]
b = [1.0, 2.0; 3.0, 4.0]
main = a @ b
";
    match run(src) {
        Err(HaploError::Shape(_)) => {} // 期待どおり shape 段で弾かれた
        other => panic!("shape エラーで弾かれるはず: {:?}", other),
    }
}

#[test]
fn integration_g4_recursion_runs_end_to_end() {
    let src = "
isEven n = if n == 0 then true else isOdd (n - 1)
isOdd n = if n == 0 then false else isEven (n - 1)
main = isEven 10
";
    assert!(matches!(run(src), Ok(Value::Bool(true))));
}

#[test]
fn integration_p3_annotation_mismatch_rejected_before_eval() {
    let src = "
g : Tensor[2] -> Tensor[3]
g v = v
main = 1
";
    match run(src) {
        Err(HaploError::Shape(_)) => {} // 期待どおり shape 段で弾かれた
        other => panic!("shape エラーで弾かれるはず: {:?}", other),
    }
}
