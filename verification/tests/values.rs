use haplo::autodiff::Tapes;
use haplo::interpreter::apply_builtin;
use haplo::num::{BinaryOp, Query, Relation, UnaryOp, HALF, ONE, TWO, ZERO};
use haplo::tensor::{same_shape, size_of_shape, Tensor};
use haplo::value::{
    coerce_to_float, coerce_to_tensor, value_type_name, BuiltinFn, Env, EvalError, Globals,
    Value,
};
use std::rc::Rc;

/// Floating-point arithmetic on bit patterns.
fn arithmetic(q: Query) -> Vec<u64> {
    let f = f64::from_bits;
    match q {
        Query::Parse(s) => vec![word(s.parse::<f64>().unwrap_or(f64::NAN))],
        Query::FromInt(n) => vec![word(n as f64)],
        Query::Unary(op, x) => {
            let x = f(x);
            let y = match op {
                UnaryOp::Neg => -x,
                UnaryOp::Exp => x.exp(),
                UnaryOp::Log => x.ln(),
                UnaryOp::Tanh => x.tanh(),
                UnaryOp::Sqrt => x.sqrt(),
                UnaryOp::Abs => x.abs(),
            };
            vec![word(y)]
        }
        Query::Binary(op, x, y) => {
            let (x, y) = (f(x), f(y));
            let z = match op {
                BinaryOp::Add => x + y,
                BinaryOp::Sub => x - y,
                BinaryOp::Mul => x * y,
                BinaryOp::Div => x / y,
                BinaryOp::Pow => x.powf(y),
                BinaryOp::Max => x.max(y),
                BinaryOp::Min => x.min(y),
            };
            vec![word(z)]
        }
        Query::Compare(r, x, y) => {
            let (x, y) = (f(x), f(y));
            let b = match r {
                Relation::Eq => x == y,
                Relation::Lt => x < y,
                Relation::Le => x <= y,
                Relation::Gt => x > y,
                Relation::Ge => x >= y,
            };
            vec![b as u64]
        }
        Query::ToSize(x) => vec![f(x) as usize as u64],
        Query::Sum(xs) => vec![word(ndarray::Array1::from_vec(floats(&xs)).sum())],
        Query::MatMul { m, k, n, a, b } => {
            let a = ndarray::Array2::from_shape_vec((m, k), floats(&a)).unwrap();
            let b = ndarray::Array2::from_shape_vec((k, n), floats(&b)).unwrap();
            a.dot(&b).iter().map(|x| word(*x)).collect()
        }
        Query::MatVec { m, k, a, v } => {
            let a = ndarray::Array2::from_shape_vec((m, k), floats(&a)).unwrap();
            let v = ndarray::Array1::from_vec(floats(&v));
            a.dot(&v).iter().map(|x| word(*x)).collect()
        }
    }
}

/// A number as its bit pattern, one for all that are no number.
fn word(x: f64) -> u64 {
    if x.is_nan() {
        0x7ff8_0000_0000_0000
    } else {
        x.to_bits()
    }
}

fn floats(xs: &[u64]) -> Vec<f64> {
    xs.iter().map(|x| f64::from_bits(*x)).collect()
}

fn bits(xs: &[f64]) -> Vec<u64> {
    xs.iter().map(|x| x.to_bits()).collect()
}

fn found(env: &Env, globals: &Globals, name: &str) -> Option<i64> {
    match env.lookup(globals, name) {
        Some(Value::Int(n)) => Some(n),
        _ => None,
    }
}

#[test]
fn constants_are_the_numbers_they_name() {
    assert_eq!(floats(&[ZERO, ONE, HALF, TWO]), vec![0.0, 1.0, 0.5, 2.0]);
}

#[test]
fn an_empty_scope_knows_nothing() {
    assert!(Env::empty().lookup(&Globals::empty(), "x").is_none());
}

#[test]
fn a_binding_hides_only_its_own_name() {
    let none = Globals::empty();
    let outer = Env::empty()
        .extend("x".to_string(), Value::Int(1))
        .extend("y".to_string(), Value::Int(2));
    let inner = outer.extend("x".to_string(), Value::Int(3));
    assert_eq!(found(&inner, &none, "x"), Some(3));
    assert_eq!(found(&inner, &none, "y"), Some(2));
    assert_eq!(found(&outer, &none, "x"), Some(1));
    assert_eq!(found(&inner, &none, "z"), None);
}

#[test]
fn a_definition_replaces_the_earlier_one() {
    let mut globals = Globals::empty();
    Env::define_global(&mut globals, "x".to_string(), Value::Int(1));
    Env::define_global(&mut globals, "y".to_string(), Value::Int(2));
    Env::define_global(&mut globals, "x".to_string(), Value::Int(3));
    assert_eq!(found(&Env::empty(), &globals, "x"), Some(3));
    assert_eq!(found(&Env::empty(), &globals, "y"), Some(2));
}

#[test]
fn a_scope_sees_what_is_defined_after_it() {
    let mut globals = Globals::empty();
    let outer = Env::empty();
    let inner = outer.extend("x".to_string(), Value::Int(1));
    assert_eq!(found(&inner, &globals, "g"), None);
    Env::define_global(&mut globals, "g".to_string(), Value::Int(5));
    assert_eq!(found(&outer, &globals, "g"), Some(5));
    assert_eq!(found(&inner, &globals, "g"), Some(5));
    Env::define_global(&mut globals, "g".to_string(), Value::Int(6));
    assert_eq!(found(&inner, &globals, "g"), Some(6));
    // A local binding still hides it, and other names are as before.
    Env::define_global(&mut globals, "x".to_string(), Value::Int(7));
    assert_eq!(found(&inner, &globals, "x"), Some(1));
    assert_eq!(found(&outer, &globals, "x"), Some(7));
}

#[test]
fn local_names_come_before_global_ones() {
    let mut globals = Globals::empty();
    Env::define_global(&mut globals, "x".to_string(), Value::Int(1));
    let inner = Env::empty().extend("x".to_string(), Value::Int(2));
    assert_eq!(found(&inner, &globals, "x"), Some(2));
}

#[test]
fn names_of_kinds() {
    let names: Vec<&str> = [
        Value::Int(1),
        Value::Float(ONE),
        Value::Bool(true),
        Value::Tensor(Rc::new(Tensor::scalar(ONE))),
        Value::Builtin(BuiltinFn::Sum),
        Value::PartialBuiltin(BuiltinFn::Reshape, vec![Value::Int(1)]),
        Value::Traced(0),
    ]
    .iter()
    .map(value_type_name)
    .collect();
    assert_eq!(
        names,
        vec!["Int", "Float", "Bool", "Tensor", "Builtin", "Builtin", "Tracked"]
    );
}

#[test]
fn coercions() {
    assert_eq!(coerce_to_float(&arithmetic, &Value::Int(-3)).unwrap(), (-3f64).to_bits());
    assert_eq!(coerce_to_float(&arithmetic, &Value::Float(HALF)).unwrap(), HALF);
    assert!(coerce_to_float(&arithmetic, &Value::Bool(true)).is_err());
    let t = Rc::new(Tensor::vector(vec![ONE, TWO]));
    assert_eq!(coerce_to_tensor(&Value::Tensor(t)).unwrap().data(), &vec![ONE, TWO]);
    assert!(coerce_to_tensor(&Value::Int(1)).is_err());
}

#[test]
fn tensors_hold_as_many_numbers_as_their_shape_says() {
    assert!(Tensor::new(vec![2, 3], vec![ZERO; 6]).is_some());
    assert!(Tensor::new(vec![2, 3], vec![ZERO; 5]).is_none());
    assert!(Tensor::new(vec![], vec![ONE]).is_some());
    assert!(Tensor::new(vec![0, 7], vec![]).is_some());
    assert!(Tensor::new(vec![1 << 32, 1 << 32], vec![]).is_none());
}

#[test]
fn sizes_of_shapes() {
    assert_eq!(size_of_shape(&vec![]), Some(1));
    assert_eq!(size_of_shape(&vec![2, 3, 4]), Some(24));
    assert_eq!(size_of_shape(&vec![5, 0]), Some(0));
    assert_eq!(size_of_shape(&vec![1 << 32, 1 << 32]), None);
    assert!(same_shape(&vec![2, 3], &vec![2, 3]));
    assert!(!same_shape(&vec![2, 3], &vec![3, 2]));
    assert!(!same_shape(&vec![2], &vec![2, 1]));
}

#[test]
fn transposition() {
    let t = Tensor::new(vec![2, 3], bits(&[1.0, 2.0, 3.0, 4.0, 5.0, 6.0])).unwrap();
    let u = t.transpose();
    assert_eq!(u.shape(), &vec![3, 2]);
    assert_eq!(floats(u.data()), vec![1.0, 4.0, 2.0, 5.0, 3.0, 6.0]);
    assert_eq!(u.transpose().shape(), t.shape());
    assert_eq!(u.transpose().data(), t.data());
}

#[test]
fn laying_out_anew() {
    let t = Tensor::new(vec![2, 2], bits(&[1.0, 2.0, 3.0, 4.0])).unwrap();
    assert_eq!(t.flatten().shape(), &vec![4]);
    assert_eq!(t.reshaped(vec![4, 1]).shape(), &vec![4, 1]);
    assert_eq!(t.reshaped(vec![4, 1]).reshaped(vec![2, 2]).data(), t.data());
    let joined = t.flatten().join(&Tensor::vector(bits(&[5.0])));
    assert_eq!(floats(joined.data()), vec![1.0, 2.0, 3.0, 4.0, 5.0]);
    assert_eq!(t.filled_like(HALF).data(), &vec![HALF; 4]);
}

#[test]
fn arithmetic_on_elements() {
    let t = Tensor::vector(bits(&[1.0, -4.0]));
    assert_eq!(floats(t.map(&arithmetic, UnaryOp::Abs).data()), vec![1.0, 4.0]);
    assert_eq!(floats(t.zip(&arithmetic, BinaryOp::Mul, &t).data()), vec![1.0, 16.0]);
    assert_eq!(floats(t.scalar_first(&arithmetic, BinaryOp::Sub, ONE).data()), vec![0.0, 5.0]);
    assert_eq!(floats(t.scalar_last(&arithmetic, BinaryOp::Sub, ONE).data()), vec![0.0, -5.0]);
}

#[test]
fn transpose_as_a_built_in_function() {
    let mut tapes = Tapes { stack: Vec::new() };
    let mut transpose = |t: Tensor| {
        apply_builtin(
            &arithmetic,
            BuiltinFn::Transpose,
            &Value::Tensor(Rc::new(t)),
            &mut tapes,
        )
    };
    let t = Tensor::new(vec![2, 3], bits(&[1.0, 2.0, 3.0, 4.0, 5.0, 6.0])).unwrap();
    let u = match transpose(t.clone()) {
        Ok(Value::Tensor(u)) => u,
        other => panic!("expected a tensor, got {:?}", other),
    };
    assert_eq!(u.shape(), &vec![3, 2]);
    for i in 0..2 {
        for j in 0..3 {
            assert_eq!(u.data()[j * 2 + i], t.data()[i * 3 + j]);
        }
    }
    match transpose((*u).clone()) {
        Ok(Value::Tensor(v)) => assert_eq!((v.shape(), v.data()), (t.shape(), t.data())),
        other => panic!("expected a tensor, got {:?}", other),
    }
    assert!(matches!(
        transpose(Tensor::vector(bits(&[1.0]))),
        Err(EvalError::TensorWrongRank { op: "transpose", expected: 2, got: 1 })
    ));
}
