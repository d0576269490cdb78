use haplo::ast::BinOpKind;
use haplo::autodiff::{
    backward, binop, exp, leaf, log, matmul_forward, mean, neg, sqrt, sum, tanh, tape_begin,
    tape_end, Op, Tapes,
};
use haplo::num::{BinaryOp, Query, Relation, UnaryOp};
use haplo::tensor::Tensor;
use haplo::value::EvalError;
use std::rc::Rc;

/// Floating-point arithmetic on bit patterns.
fn arithmetic(q: Query) -> Vec<u64> {
    let f = f64::from_bits;
    match q {
        Query::Parse(s) => vec![word(s.parse::<f64>().unwrap_or(f64::NAN))],
        Query::FromInt(n) => vec![word(n as f64)],
        Query::Unary(op, x) => {
            let x = f(x);
            let y = match op {
                UnaryOp::Neg => -x,
                UnaryOp::Exp => x.exp(),
                UnaryOp::Log => x.ln(),
                UnaryOp::Tanh => x.tanh(),
                UnaryOp::Sqrt => x.sqrt(),
                UnaryOp::Abs => x.abs(),
            };
            vec![word(y)]
        }
        Query::Binary(op, x, y) => {
            let (x, y) = (f(x), f(y));
            let z = match op {
                BinaryOp::Add => x + y,
                BinaryOp::Sub => x - y,
                BinaryOp::Mul => x * y,
                BinaryOp::Div => x / y,
                BinaryOp::Pow => x.powf(y),
                BinaryOp::Max => x.max(y),
                BinaryOp::Min => x.min(y),
            };
            vec![word(z)]
        }
        Query::Compare(r, x, y) => {
            let (x, y) = (f(x), f(y));
            let b = match r {
                Relation::Eq => x == y,
                Relation::Lt => x < y,
                Relation::Le => x <= y,
                Relation::Gt => x > y,
                Relation::Ge => x >= y,
            };
            vec![b as u64]
        }
        Query::ToSize(x) => vec![f(x) as usize as u64],
        Query::Sum(xs) => vec![word(ndarray::Array1::from_vec(floats(&xs)).sum())],
        Query::MatMul { m, k, n, a, b } => {
            let a = ndarray::Array2::from_shape_vec((m, k), floats(&a)).unwrap();
            let b = ndarray::Array2::from_shape_vec((k, n), floats(&b)).unwrap();
            a.dot(&b).iter().map(|x| word(*x)).collect()
        }
        Query::MatVec { m, k, a, v } => {
            let a = ndarray::Array2::from_shape_vec((m, k), floats(&a)).unwrap();
            let v = ndarray::Array1::from_vec(floats(&v));
            a.dot(&v).iter().map(|x| word(*x)).collect()
        }
    }
}

/// A number as its bit pattern, one for all that are no number.
fn word(x: f64) -> u64 {
    if x.is_nan() {
        0x7ff8_0000_0000_0000
    } else {
        x.to_bits()
    }
}

fn floats(xs: &[u64]) -> Vec<f64> {
    xs.iter().map(|x| f64::from_bits(*x)).collect()
}

fn bits(xs: &[f64]) -> Vec<u64> {
    xs.iter().map(|x| x.to_bits()).collect()
}

fn tensor(shape: &[usize], xs: &[f64]) -> Tensor {
    Tensor::new(shape.to_vec(), bits(xs)).unwrap()
}

/// A stack with one tape, on which the given tensors are leaves.
fn tapes_with(inputs: &[Tensor]) -> Tapes {
    let mut tapes = Tapes { stack: Vec::new() };
    tape_begin(&mut tapes);
    for (i, t) in inputs.iter().enumerate() {
        assert_eq!(leaf(&mut tapes, Rc::new(t.clone())), i);
    }
    tapes
}

fn value_of(tapes: &Tapes, id: usize) -> Vec<f64> {
    floats(tapes.stack.last().unwrap().nodes[id].value.data())
}

fn close(a: &[f64], b: &[f64]) -> bool {
    a.len() == b.len() && a.iter().zip(b).all(|(x, y)| (x - y).abs() < 1e-9)
}

/// The value of `x op y` and the derivatives of its sum by both.
fn through(op: BinOpKind, x: &Tensor, y: &Tensor) -> (Vec<f64>, Vec<f64>, Vec<f64>) {
    let mut tapes = tapes_with(&[x.clone(), y.clone()]);
    let z = binop(&arithmetic, &mut tapes, op, 0, 1).unwrap();
    let s = sum(&arithmetic, &mut tapes, z);
    let grads = backward(&arithmetic, &tapes, s);
    assert_eq!(grads.len(), 4);
    assert_eq!(grads[0].shape(), x.shape());
    assert_eq!(grads[1].shape(), y.shape());
    (value_of(&tapes, z), floats(grads[0].data()), floats(grads[1].data()))
}

#[test]
fn tapes_begin_and_end() {
    let mut tapes = Tapes { stack: Vec::new() };
    tape_end(&mut tapes);
    assert_eq!(tapes.stack.len(), 0);
    tape_begin(&mut tapes);
    leaf(&mut tapes, Rc::new(Tensor::scalar(0)));
    tape_begin(&mut tapes);
    assert_eq!(tapes.stack.len(), 2);
    assert_eq!(leaf(&mut tapes, Rc::new(Tensor::scalar(0))), 0);
    tape_end(&mut tapes);
    assert_eq!(tapes.stack.len(), 1);
    assert_eq!(tapes.stack[0].nodes.len(), 1);
}

#[test]
fn sums_and_differences() {
    let x = tensor(&[2], &[1.0, 2.0]);
    let y = tensor(&[2], &[10.0, 20.0]);
    assert_eq!(
        through(BinOpKind::Add, &x, &y),
        (vec![11.0, 22.0], vec![1.0, 1.0], vec![1.0, 1.0])
    );
    assert_eq!(
        through(BinOpKind::Sub, &x, &y),
        (vec![-9.0, -18.0], vec![1.0, 1.0], vec![-1.0, -1.0])
    );
}

#[test]
fn products_and_quotients() {
    let x = tensor(&[2], &[1.0, 6.0]);
    let y = tensor(&[2], &[4.0, 2.0]);
    assert_eq!(
        through(BinOpKind::Mul, &x, &y),
        (vec![4.0, 12.0], vec![4.0, 2.0], vec![1.0, 6.0])
    );
    assert_eq!(
        through(BinOpKind::Div, &x, &y),
        (vec![0.25, 3.0], vec![0.25, 0.5], vec![-0.0625, -1.5])
    );
}

#[test]
fn powers() {
    let x = tensor(&[2], &[2.0, -3.0]);
    let y = tensor(&[2], &[3.0, 2.0]);
    let (z, gx, gy) = through(BinOpKind::Pow, &x, &y);
    assert!(close(&z, &[8.0, 9.0]));
    assert!(close(&gx, &[12.0, -6.0]));
    // A base that is not positive has no logarithm and counts nothing.
    assert!(close(&gy, &[8.0 * 2f64.ln(), 0.0]));
}

#[test]
fn scalars_on_either_side() {
    let x = Tensor::scalar(2f64.to_bits());
    let y = tensor(&[3], &[1.0, 2.0, 3.0]);
    assert_eq!(
        through(BinOpKind::Mul, &x, &y),
        (vec![2.0, 4.0, 6.0], vec![6.0], vec![2.0, 2.0, 2.0])
    );
    assert_eq!(
        through(BinOpKind::Sub, &y, &x),
        (vec![-1.0, 0.0, 1.0], vec![1.0, 1.0, 1.0], vec![-3.0])
    );
}

#[test]
fn matrix_products_differentiate() {
    let a = tensor(&[2, 2], &[1.0, 2.0, 3.0, 4.0]);
    let b = tensor(&[2, 2], &[5.0, 6.0, 7.0, 8.0]);
    let v = tensor(&[2], &[5.0, 6.0]);
    assert_eq!(
        through(BinOpKind::MatMul, &a, &b),
        (
            vec![19.0, 22.0, 43.0, 50.0],
            vec![11.0, 15.0, 11.0, 15.0],
            vec![4.0, 4.0, 6.0, 6.0]
        )
    );
    assert_eq!(
        through(BinOpKind::MatMul, &a, &v),
        (vec![17.0, 39.0], vec![5.0, 6.0, 5.0, 6.0], vec![4.0, 6.0])
    );
}

#[test]
fn pointwise_functions() {
    let x = tensor(&[2], &[0.25, 4.0]);
    let mut tapes = tapes_with(&[x]);
    let ids = [
        neg(&arithmetic, &mut tapes, 0),
        exp(&arithmetic, &mut tapes, 0),
        log(&arithmetic, &mut tapes, 0),
        tanh(&arithmetic, &mut tapes, 0),
        sqrt(&arithmetic, &mut tapes, 0),
    ];
    assert_eq!(ids, [1, 2, 3, 4, 5]);
    let t = |x: f64| 1.0 - x.tanh() * x.tanh();
    let expected = [
        ([-0.25, -4.0], [-1.0, -1.0]),
        ([0.25f64.exp(), 4f64.exp()], [0.25f64.exp(), 4f64.exp()]),
        ([0.25f64.ln(), 4f64.ln()], [4.0, 0.25]),
        ([0.25f64.tanh(), 4f64.tanh()], [t(0.25), t(4.0)]),
        ([0.5, 2.0], [1.0, 0.25]),
    ];
    for (id, (value, slope)) in ids.iter().zip(expected) {
        assert!(close(&value_of(&tapes, *id), &value));
        let grads = backward(&arithmetic, &tapes, *id);
        assert!(close(&floats(grads[0].data()), &slope));
    }
}

#[test]
fn totals_and_means() {
    let x = tensor(&[2, 2], &[1.0, 2.0, 3.0, 6.0]);
    let mut tapes = tapes_with(&[x]);
    let s = sum(&arithmetic, &mut tapes, 0);
    let m = mean(&arithmetic, &mut tapes, 0);
    assert_eq!(value_of(&tapes, s), vec![12.0]);
    assert_eq!(value_of(&tapes, m), vec![3.0]);
    assert!(matches!(tapes.stack[0].nodes[s].op, Op::Sum(0)));
    assert!(matches!(tapes.stack[0].nodes[m].op, Op::Mean(0)));
    assert_eq!(floats(backward(&arithmetic, &tapes, s)[0].data()), vec![1.0; 4]);
    assert_eq!(floats(backward(&arithmetic, &tapes, m)[0].data()), vec![0.25; 4]);
}

#[test]
fn a_node_used_twice_gathers_both_shares() {
    let x = tensor(&[2], &[3.0, 5.0]);
    let mut tapes = tapes_with(&[x]);
    let square = binop(&arithmetic, &mut tapes, BinOpKind::Mul, 0, 0).unwrap();
    let twice = binop(&arithmetic, &mut tapes, BinOpKind::Add, square, 0).unwrap();
    let grads = backward(&arithmetic, &tapes, twice);
    assert_eq!(floats(grads[0].data()), vec![7.0, 11.0]);
}

#[test]
fn what_the_output_does_not_use_has_no_slope() {
    let mut tapes = tapes_with(&[tensor(&[2], &[1.0, 2.0]), tensor(&[3], &[1.0, 2.0, 3.0])]);
    let s = sum(&arithmetic, &mut tapes, 0);
    let later = sum(&arithmetic, &mut tapes, 1);
    let grads = backward(&arithmetic, &tapes, s);
    assert_eq!(floats(grads[1].data()), vec![0.0; 3]);
    assert_eq!(floats(grads[later].data()), vec![0.0]);
}

#[test]
fn operators_that_leave_no_node() {
    let mut tapes = tapes_with(&[tensor(&[2], &[1.0, 2.0]), tensor(&[3], &[1.0, 2.0, 3.0])]);
    match binop(&arithmetic, &mut tapes, BinOpKind::Add, 0, 1) {
        Err(EvalError::TensorShapeMismatch { op, a, b }) => {
            assert_eq!((op, a, b), ("+", vec![2], vec![3]));
        }
        other => panic!("expected a shape mismatch, got {:?}", other),
    }
    match binop(&arithmetic, &mut tapes, BinOpKind::Lt, 0, 0) {
        Err(e) => assert_eq!(e.message(), "引数エラー: 比較演算子は微分できません"),
        Ok(id) => panic!("expected an error, got node {}", id),
    }
    assert_eq!(tapes.stack[0].nodes.len(), 2);
}

#[test]
fn matrix_product_errors() {
    let a = tensor(&[2, 3], &[0.0; 6]);
    let v = tensor(&[2], &[0.0; 2]);
    match matmul_forward(&arithmetic, &a, &v) {
        Err(e) => assert_eq!(e.message(), "演算子 `@` の shape 不一致: [2, 3] と [2]"),
        Ok(t) => panic!("expected an error, got {:?}", t),
    }
    assert!(matches!(
        matmul_forward(&arithmetic, &v, &a),
        Err(EvalError::InvalidArgument(_))
    ));
}

#[test]
fn negating_twice_gives_back() {
    let mut tapes = tapes_with(&[tensor(&[2], &[1.5, -2.0])]);
    let once = neg(&arithmetic, &mut tapes, 0);
    let twice = neg(&arithmetic, &mut tapes, once);
    assert_eq!((once, twice), (1, 2));
    assert_eq!(value_of(&tapes, once), vec![-1.5, 2.0]);
    assert_eq!(value_of(&tapes, twice), value_of(&tapes, 0));
}

#[test]
fn sums_and_means_have_even_slopes() {
    // Other nodes stand between, and use the same input.
    let mut tapes = tapes_with(&[tensor(&[4], &[1.0, -2.0, 3.0, 0.0])]);
    let e = exp(&arithmetic, &mut tapes, 0);
    binop(&arithmetic, &mut tapes, BinOpKind::Mul, e, 0).unwrap();
    let s = sum(&arithmetic, &mut tapes, 0);
    assert_eq!(floats(backward(&arithmetic, &tapes, s)[0].data()), vec![1.0; 4]);
    let m = mean(&arithmetic, &mut tapes, 0);
    assert_eq!(floats(backward(&arithmetic, &tapes, m)[0].data()), vec![0.25; 4]);
    // An empty tensor counts as one element.
    let mut tapes = tapes_with(&[tensor(&[0], &[])]);
    let m = mean(&arithmetic, &mut tapes, 0);
    assert_eq!(value_of(&tapes, m), vec![0.0]);
    assert!(backward(&arithmetic, &tapes, m)[0].data().is_empty());
}

#[test]
fn a_wild_slope_elsewhere_does_not_matter() {
    // The logarithm of zero has an infinite slope, but not by the first input.
    let mut tapes = tapes_with(&[tensor(&[1], &[1.0]), tensor(&[1], &[0.0])]);
    log(&arithmetic, &mut tapes, 1);
    let s = sum(&arithmetic, &mut tapes, 0);
    assert_eq!(floats(backward(&arithmetic, &tapes, s)[0].data()), vec![1.0]);
    let m = mean(&arithmetic, &mut tapes, 0);
    assert_eq!(floats(backward(&arithmetic, &tapes, m)[0].data()), vec![1.0]);
    // By the second it does.
    let s = sum(&arithmetic, &mut tapes, 1);
    assert!(floats(backward(&arithmetic, &tapes, s)[1].data())[0].is_nan());
}
