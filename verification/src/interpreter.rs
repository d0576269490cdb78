//! Evaluation of programs, by walking the syntax tree.
//!
//! The meaning of an expression is stated as a function of the arithmetic,
//! the scope, how deep calls may still nest, and the tapes of the
//! differentiations under way.

use crate::ast::{
    items_of, lemma_tensor_lit_view, names_of, row_of, rows_of, BinOpKind, Expr, ExprView, Literal,
    LiteralView, Program, TopLevel, TopLevelView,
};
use crate::autodiff::{
    backward, binop, binop_node, elementwise, elementwise_op, exp, gradients, leaf, log, matmul,
    matmul_forward, mean, neg, op_symbol, recorded, sqrt, sum, symbol_of, tanh, tape_begin,
    tape_end, tapes_ok, tensors_of, NodeView, Op, Tapes, TapesView,
};
use crate::num::{
    bin, binary, float_of_int, from_int, holds, is_arithmetic, meaning, parse_float, parsed,
    related, size_of_float, sum_of, to_size, total, un, unary, Arith, BinaryOp, Query, Relation,
    UnaryOp, ONE, TWO, ZERO,
};
use crate::tensor::{
    copy_sizes, filled, flattened, is_shape, joined_vectors, left_scalar, map_elements, product,
    right_scalar, same_shape, scalar_tensor, size_of_shape, transposed, zip_elements, Tensor,
    TensorView,
};
use crate::text::{debug_of_str, str_debug};
use crate::value::{
    as_float, as_tensor, clone_values, coerce_to_float, coerce_to_tensor, lemma_partial_view,
    locals_of, mismatch, scope, type_mismatch, value_type_name, values_of, BuiltinFn, Closure, Env,
    EnvView, EvalError, EvalErrorView, Globals, GlobalsView, Locals, LocalsView, Value, ValueView,
};
use std::rc::Rc;
use vstd::arithmetic::power::pow;
use vstd::prelude::*;

verus! {

/// What comes of a computation, and the tapes after it.
pub type Outcome<T> = (Result<T, EvalErrorView>, TapesView);

// ---------------------------------------------------------------------------
// Definitions
// ---------------------------------------------------------------------------

/// A function of several parameters is a function of the first that gives a
/// function of the rest.
pub open spec fn curried(params: Seq<Seq<char>>, body: ExprView) -> ExprView
    decreases params.len(),
{
    if params.len() == 0 {
        body
    } else {
        ExprView::Lambda {
            param: params[0],
            body: Box::new(curried(params.subrange(1, params.len() as int), body)),
        }
    }
}

/// The value of a definition with parameters.
pub open spec fn function_value(params: Seq<Seq<char>>, body: ExprView, env: LocalsView) -> ValueView {
    ValueView::Closure {
        param: params[0],
        body: curried(params.subrange(1, params.len() as int), body),
        env,
    }
}

/// How many arguments a built-in function waits for.
pub open spec fn arity(b: BuiltinFn) -> nat {
    match b {
        BuiltinFn::Reshape => 2,
        BuiltinFn::Grad => 2,
        BuiltinFn::Concat => 2,
        BuiltinFn::Iterate => 3,
        BuiltinFn::Clip => 3,
        _ => 1,
    }
}

// ---------------------------------------------------------------------------
// Operators
// ---------------------------------------------------------------------------

/// An integer result, where 64 bits hold it.
pub open spec fn int_result(n: int) -> Result<ValueView, EvalErrorView> {
    if i64::MIN <= n <= i64::MAX {
        Ok(ValueView::Int(n as i64))
    } else {
        Err(EvalErrorView::IntegerOverflow)
    }
}

/// The quotient, cut towards zero.
pub open spec fn int_quotient(a: int, b: int) -> int {
    if (a < 0) == (b < 0) {
        abs(a) / abs(b)
    } else {
        -(abs(a) / abs(b))
    }
}

pub open spec fn abs(n: int) -> int {
    if n < 0 {
        -n
    } else {
        n
    }
}

/// An operator between two integers. `None`: it goes over to floating point.
pub open spec fn int_binop(op: BinOpKind, a: i64, b: i64) -> Option<
    Result<ValueView, EvalErrorView>,
> {
    match op {
        BinOpKind::Add => Some(int_result(a + b)),
        BinOpKind::Sub => Some(int_result(a - b)),
        BinOpKind::Mul => Some(int_result(a * b)),
        BinOpKind::Div => Some(
            if b == 0 {
                Err(EvalErrorView::DivisionByZero)
            } else {
                int_result(int_quotient(a as int, b as int))
            },
        ),
        BinOpKind::Pow => if b >= 0 {
            Some(int_result(pow(a as int, b as nat)))
        } else {
            None
        },
        _ => None,
    }
}

/// Two numbers as floating-point ones.
pub open spec fn float_pair(m: Arith, l: ValueView, r: ValueView) -> Result<
    (u64, u64),
    EvalErrorView,
> {
    match as_float(m, l) {
        Err(e) => Err(e),
        Ok(a) => match as_float(m, r) {
            Err(e) => Err(e),
            Ok(b) => Ok((a, b)),
        },
    }
}

/// `+`, `-`, `*`, `/` or `^` on two values: integers stay integers, tensors
/// of one shape go element by element, a number goes with every element.
pub open spec fn arithmetic(m: Arith, op: BinOpKind, k: BinaryOp, l: ValueView, r: ValueView) -> Result<
    ValueView,
    EvalErrorView,
> {
    match (l, r) {
        (ValueView::Tensor(a), ValueView::Tensor(b)) => if a.shape == b.shape {
            Ok(ValueView::Tensor(zip_elements(m, k, a, b)))
        } else {
            Err(
                EvalErrorView::TensorShapeMismatch { op: op_symbol(op), a: a.shape, b: b.shape },
            )
        },
        (ValueView::Tensor(a), ValueView::Float(s)) => Ok(
            ValueView::Tensor(right_scalar(m, k, a, s)),
        ),
        (ValueView::Tensor(a), ValueView::Int(n)) => Ok(
            ValueView::Tensor(right_scalar(m, k, a, from_int(m, n))),
        ),
        (ValueView::Float(s), ValueView::Tensor(b)) => Ok(
            ValueView::Tensor(left_scalar(m, k, s, b)),
        ),
        (ValueView::Int(n), ValueView::Tensor(b)) => Ok(
            ValueView::Tensor(left_scalar(m, k, from_int(m, n), b)),
        ),
        _ => {
            let ints = match (l, r) {
                (ValueView::Int(a), ValueView::Int(b)) => int_binop(op, a, b),
                _ => None,
            };
            match ints {
                Some(result) => result,
                None => match float_pair(m, l, r) {
                    Err(e) => Err(e),
                    Ok((a, b)) => if op == BinOpKind::Div && holds(m, Relation::Eq, b, ZERO) {
                        Err(EvalErrorView::DivisionByZero)
                    } else {
                        Ok(ValueView::Float(bin(m, k, a, b)))
                    },
                },
            }
        },
    }
}

/// Whether two values are equal, where that can be asked.
pub open spec fn values_equal_model(m: Arith, l: ValueView, r: ValueView) -> Result<
    bool,
    EvalErrorView,
> {
    match (l, r) {
        (ValueView::Int(a), ValueView::Int(b)) => Ok(a == b),
        (ValueView::Float(a), ValueView::Float(b)) => Ok(holds(m, Relation::Eq, a, b)),
        (ValueView::Int(a), ValueView::Float(b)) => Ok(holds(m, Relation::Eq, from_int(m, a), b)),
        (ValueView::Float(a), ValueView::Int(b)) => Ok(holds(m, Relation::Eq, a, from_int(m, b))),
        (ValueView::Bool(a), ValueView::Bool(b)) => Ok(a == b),
        _ => Err(
            EvalErrorView::TypeMismatch { expected: "比較可能な型"@, got: "比較不可能な型"@ },
        ),
    }
}

/// By what two numbers are ordered.
#[verifier::ext_equal]
pub enum DifferenceView {
    /// The difference of two integers: it is exact.
    Whole(int),
    /// Two floating-point numbers. One of them may be no number, and two that
    /// are infinite have no difference, so they are compared as they are.
    Floats(u64, u64),
}

/// How far the first number is from the second. An integer beside a
/// floating-point number counts as one.
pub open spec fn difference(m: Arith, l: ValueView, r: ValueView) -> Result<
    DifferenceView,
    EvalErrorView,
> {
    match (l, r) {
        (ValueView::Int(a), ValueView::Int(b)) => Ok(DifferenceView::Whole(a - b)),
        (ValueView::Int(a), ValueView::Float(y)) => Ok(DifferenceView::Floats(from_int(m, a), y)),
        (ValueView::Float(x), ValueView::Int(b)) => Ok(DifferenceView::Floats(x, from_int(m, b))),
        (ValueView::Float(x), ValueView::Float(y)) => Ok(DifferenceView::Floats(x, y)),
        _ => if l is Int || l is Float {
            Err(mismatch("数値"@, r))
        } else {
            Err(mismatch("数値"@, l))
        },
    }
}

/// Whether an integer is in a relation to zero.
pub open spec fn sign_is(rel: Relation, d: int) -> bool {
    match rel {
        Relation::Eq => d == 0,
        Relation::Lt => d < 0,
        Relation::Le => d <= 0,
        Relation::Gt => d > 0,
        Relation::Ge => d >= 0,
    }
}

/// Whether two numbers are in an order. Of integers the order is exact.
pub open spec fn ordered(m: Arith, rel: Relation, l: ValueView, r: ValueView) -> Result<
    ValueView,
    EvalErrorView,
> {
    match difference(m, l, r) {
        Err(e) => Err(e),
        Ok(DifferenceView::Whole(d)) => Ok(ValueView::Bool(sign_is(rel, d))),
        Ok(DifferenceView::Floats(x, y)) => Ok(ValueView::Bool(holds(m, rel, x, y))),
    }
}

/// An operator on two values, neither of them under differentiation.
pub open spec fn plain_binop(m: Arith, op: BinOpKind, l: ValueView, r: ValueView) -> Result<
    ValueView,
    EvalErrorView,
> {
    match elementwise(op) {
        Some(k) => arithmetic(m, op, k, l, r),
        None => match op {
            BinOpKind::Eq => match values_equal_model(m, l, r) {
                Err(e) => Err(e),
                Ok(b) => Ok(ValueView::Bool(b)),
            },
            BinOpKind::Ne => match values_equal_model(m, l, r) {
                Err(e) => Err(e),
                Ok(b) => Ok(ValueView::Bool(!b)),
            },
            BinOpKind::Lt => ordered(m, Relation::Lt, l, r),
            BinOpKind::Le => ordered(m, Relation::Le, l, r),
            BinOpKind::Gt => ordered(m, Relation::Gt, l, r),
            BinOpKind::Ge => ordered(m, Relation::Ge, l, r),
            _ => match (l, r) {
                (ValueView::Tensor(a), ValueView::Tensor(b)) => match matmul(m, a, b) {
                    Err(e) => Err(e),
                    Ok(t) => Ok(ValueView::Tensor(t)),
                },
                _ => Err(
                    EvalErrorView::TypeMismatch {
                        expected: "互換性のある型"@,
                        got: "非互換な型の組み合わせ"@,
                    },
                ),
            },
        },
    }
}

/// Whether a node is on the innermost tape.
pub open spec fn on_tape(tapes: TapesView, id: usize) -> bool {
    tapes.len() > 0 && id < tapes.last().len()
}

/// The error for a node that is not on the innermost tape.
pub open spec fn off_tape() -> EvalErrorView {
    EvalErrorView::InvalidArgument("微分の対象でない追跡値です"@)
}

/// An operand as a node of the innermost tape; a constant becomes a leaf.
pub open spec fn lifted(m: Arith, v: ValueView, tapes: TapesView) -> Outcome<usize> {
    let constant = match v {
        ValueView::Int(n) => Some(scalar_tensor(from_int(m, n))),
        ValueView::Float(x) => Some(scalar_tensor(x)),
        ValueView::Tensor(t) => Some(t),
        _ => None,
    };
    match v {
        ValueView::Traced(id) => (
            if on_tape(tapes, id) {
                Ok(id)
            } else {
                Err(off_tape())
            },
            tapes,
        ),
        _ => match constant {
            Some(t) => if tapes.len() > 0 {
                (
                    Ok(tapes.last().len() as usize),
                    recorded(tapes, NodeView { value: t, op: Op::Leaf }),
                )
            } else {
                (Err(off_tape()), tapes)
            },
            None => (Err(mismatch("数値またはテンソル"@, v)), tapes),
        },
    }
}

/// An operator of which an operand is under differentiation.
pub open spec fn traced_binop(m: Arith, op: BinOpKind, l: ValueView, r: ValueView, tapes: TapesView) -> Outcome<
    ValueView,
> {
    let (a, tapes) = lifted(m, l, tapes);
    match a {
        Err(e) => (Err(e), tapes),
        Ok(a) => {
            let (b, tapes) = lifted(m, r, tapes);
            match b {
                Err(e) => (Err(e), tapes),
                Ok(b) => match binop_node(m, op, tapes.last(), a, b) {
                    Err(e) => (Err(e), tapes),
                    Ok(node) => (
                        Ok(ValueView::Traced(tapes.last().len() as usize)),
                        recorded(tapes, node),
                    ),
                },
            }
        },
    }
}

/// An operator on two values.
pub open spec fn binop_model(m: Arith, op: BinOpKind, l: ValueView, r: ValueView, tapes: TapesView) -> Outcome<
    ValueView,
> {
    if l is Traced || r is Traced {
        traced_binop(m, op, l, r, tapes)
    } else {
        (plain_binop(m, op, l, r), tapes)
    }
}

/// Records a node computed from node `id`.
pub open spec fn record_from(id: usize, node: NodeView, tapes: TapesView) -> Outcome<ValueView> {
    if on_tape(tapes, id) {
        (Ok(ValueView::Traced(tapes.last().len() as usize)), recorded(tapes, node))
    } else {
        (Err(off_tape()), tapes)
    }
}

/// The value of a node of the innermost tape.
pub open spec fn traced_value(tapes: TapesView, id: usize) -> TensorView {
    tapes.last()[id as int].value
}

/// A number or tensor with its sign turned.
pub open spec fn negated(m: Arith, v: ValueView, tapes: TapesView) -> Outcome<ValueView> {
    match v {
        ValueView::Int(n) => (int_result(-n), tapes),
        ValueView::Float(x) => (Ok(ValueView::Float(un(m, UnaryOp::Neg, x))), tapes),
        ValueView::Tensor(t) => (
            Ok(ValueView::Tensor(map_elements(m, UnaryOp::Neg, t))),
            tapes,
        ),
        ValueView::Traced(id) => record_from(
            id,
            NodeView {
                value: map_elements(m, UnaryOp::Neg, traced_value(tapes, id)),
                op: Op::Neg(id),
            },
            tapes,
        ),
        other => (Err(mismatch("数値"@, other)), tapes),
    }
}

// ---------------------------------------------------------------------------
// Built-in functions of one argument
// ---------------------------------------------------------------------------

/// A function of every element; `op` is what it is on a tape.
pub open spec fn pointwise(m: Arith, k: UnaryOp, op: spec_fn(usize) -> Op, v: ValueView, tapes: TapesView) -> Outcome<
    ValueView,
> {
    match v {
        ValueView::Float(x) => (Ok(ValueView::Float(un(m, k, x))), tapes),
        ValueView::Int(n) => (Ok(ValueView::Float(un(m, k, from_int(m, n)))), tapes),
        ValueView::Tensor(t) => (Ok(ValueView::Tensor(map_elements(m, k, t))), tapes),
        ValueView::Traced(id) => record_from(
            id,
            NodeView { value: map_elements(m, k, traced_value(tapes, id)), op: op(id) },
            tapes,
        ),
        other => (Err(mismatch("数値またはテンソル"@, other)), tapes),
    }
}

/// The greatest or least of the elements from the first on.
pub open spec fn extreme(m: Arith, k: BinaryOp, data: Seq<u64>) -> u64
    decreases data.len(),
{
    if data.len() <= 1 {
        data[0]
    } else {
        bin(m, k, extreme(m, k, data.drop_last()), data.last())
    }
}

/// The greatest or least element; there has to be one.
pub open spec fn extreme_value(m: Arith, k: BinaryOp, v: ValueView, none: Seq<char>) -> Result<
    ValueView,
    EvalErrorView,
> {
    match as_tensor(v) {
        Err(e) => Err(e),
        Ok(t) => if t.data.len() == 0 {
            Err(EvalErrorView::InvalidArgument(none))
        } else {
            Ok(ValueView::Float(extreme(m, k, t.data)))
        },
    }
}

/// The shape that an argument denotes.
pub open spec fn shape_argument(m: Arith, v: ValueView) -> Result<Seq<usize>, EvalErrorView> {
    match v {
        ValueView::Tensor(t) => Ok(Seq::new(t.data.len(), |i: int| to_size(m, t.data[i]))),
        ValueView::Int(n) => Ok(seq![n as usize]),
        other => Err(
            EvalErrorView::InvalidArgument(
                "shape は Int またはテンソルである必要があります、got: "@ + str_debug(
                    other.kind_name(),
                ),
            ),
        ),
    }
}

/// A tensor of the shape that an argument denotes, every element `x`.
pub open spec fn filled_value(m: Arith, v: ValueView, x: u64) -> Result<ValueView, EvalErrorView> {
    match shape_argument(m, v) {
        Err(e) => Err(e),
        Ok(shape) => if is_shape(shape) {
            Ok(ValueView::Tensor(filled(shape, x)))
        } else {
            Err(EvalErrorView::InvalidArgument("shape が大きすぎます"@))
        },
    }
}

/// The tensor that a value is, of the rank that an operation wants.
pub open spec fn ranked(v: ValueView, op: Seq<char>, rank: usize) -> Result<
    TensorView,
    EvalErrorView,
> {
    match as_tensor(v) {
        Err(e) => Err(e),
        Ok(t) => if t.rank() == rank {
            Ok(t)
        } else {
            Err(EvalErrorView::TensorWrongRank { op, expected: rank, got: t.rank() as usize })
        },
    }
}

/// Each exponential over the sum of all.
pub open spec fn softmax_tensor(m: Arith, t: TensorView) -> TensorView {
    let e = map_elements(m, UnaryOp::Exp, t);
    right_scalar(m, BinaryOp::Div, e, total(m, e.data))
}

/// The square root of the sum of the squares.
pub open spec fn norm_number(m: Arith, t: TensorView) -> u64 {
    un(m, UnaryOp::Sqrt, total(m, right_scalar(m, BinaryOp::Pow, t, TWO).data))
}

/// A built-in function of one argument.
pub open spec fn builtin_one(m: Arith, b: BuiltinFn, v: ValueView, tapes: TapesView) -> Outcome<
    ValueView,
> {
    match b {
        BuiltinFn::Sum => match v {
            ValueView::Traced(id) => record_from(
                id,
                NodeView {
                    value: scalar_tensor(total(m, traced_value(tapes, id).data)),
                    op: Op::Sum(id),
                },
                tapes,
            ),
            _ => (
                match as_tensor(v) {
                    Err(e) => Err(e),
                    Ok(t) => Ok(ValueView::Float(total(m, t.data))),
                },
                tapes,
            ),
        },
        BuiltinFn::Mean => match v {
            ValueView::Traced(id) => {
                let x = traced_value(tapes, id);
                let mean = bin(m, BinaryOp::Div, total(m, x.data), crate::autodiff::count(m, x));
                record_from(
                    id,
                    NodeView { value: scalar_tensor(mean), op: Op::Mean(id) },
                    tapes,
                )
            },
            _ => (
                match as_tensor(v) {
                    Err(e) => Err(e),
                    Ok(t) => if t.data.len() == 0 {
                        Err(EvalErrorView::InvalidArgument("mean: 空のテンソル"@))
                    } else {
                        Ok(
                            ValueView::Float(
                                bin(
                                    m,
                                    BinaryOp::Div,
                                    total(m, t.data),
                                    from_int(m, t.data.len() as i64),
                                ),
                            ),
                        )
                    },
                },
                tapes,
            ),
        },
        BuiltinFn::Exp => pointwise(m, UnaryOp::Exp, |id: usize| Op::Exp(id), v, tapes),
        BuiltinFn::Log => pointwise(m, UnaryOp::Log, |id: usize| Op::Log(id), v, tapes),
        BuiltinFn::Tanh => pointwise(m, UnaryOp::Tanh, |id: usize| Op::Tanh(id), v, tapes),
        BuiltinFn::Sqrt => pointwise(m, UnaryOp::Sqrt, |id: usize| Op::Sqrt(id), v, tapes),
        BuiltinFn::Zeros => (filled_value(m, v, ZERO), tapes),
        BuiltinFn::Ones => (filled_value(m, v, ONE), tapes),
        BuiltinFn::Transpose => (
            match ranked(v, "transpose"@, 2) {
                Err(e) => Err(e),
                Ok(t) => Ok(ValueView::Tensor(transposed(t))),
            },
            tapes,
        ),
        BuiltinFn::Abs => (
            match v {
                ValueView::Int(n) => int_result(abs(n as int)),
                ValueView::Float(x) => Ok(ValueView::Float(un(m, UnaryOp::Abs, x))),
                ValueView::Tensor(t) => Ok(ValueView::Tensor(map_elements(m, UnaryOp::Abs, t))),
                other => Err(mismatch("数値またはテンソル"@, other)),
            },
            tapes,
        ),
        BuiltinFn::MaxVal => (extreme_value(m, BinaryOp::Max, v, "max: 空のテンソル"@), tapes),
        BuiltinFn::MinVal => (extreme_value(m, BinaryOp::Min, v, "min: 空のテンソル"@), tapes),
        BuiltinFn::Flatten => (
            match ranked(v, "flatten"@, 2) {
                Err(e) => Err(e),
                Ok(t) => Ok(ValueView::Tensor(flattened(t))),
            },
            tapes,
        ),
        BuiltinFn::Norm => (
            match as_tensor(v) {
                Err(e) => Err(e),
                Ok(t) => Ok(ValueView::Float(norm_number(m, t))),
            },
            tapes,
        ),
        BuiltinFn::Softmax => match v {
            ValueView::Traced(id) => if on_tape(tapes, id) {
                // Three nodes: the exponentials, their sum, and the quotient.
                let e = map_elements(m, UnaryOp::Exp, traced_value(tapes, id));
                let ei = tapes.last().len() as usize;
                let t1 = recorded(tapes, NodeView { value: e, op: Op::Exp(id) });
                let si = t1.last().len() as usize;
                let t2 = recorded(
                    t1,
                    NodeView { value: scalar_tensor(total(m, e.data)), op: Op::Sum(ei) },
                );
                traced_binop(
                    m,
                    BinOpKind::Div,
                    ValueView::Traced(ei),
                    ValueView::Traced(si),
                    t2,
                )
            } else {
                (Err(off_tape()), tapes)
            },
            _ => (
                match as_tensor(v) {
                    Err(e) => Err(e),
                    Ok(t) => Ok(ValueView::Tensor(softmax_tensor(m, t))),
                },
                tapes,
            ),
        },
        _ => (Err(EvalErrorView::ArityMismatch), tapes),
    }
}

// ---------------------------------------------------------------------------
// Built-in functions of several arguments
// ---------------------------------------------------------------------------

/// `reshape tensor shape`.
pub open spec fn reshape_value(m: Arith, v: ValueView, s: ValueView) -> Result<
    ValueView,
    EvalErrorView,
> {
    match as_tensor(v) {
        Err(e) => Err(e),
        Ok(t) => match shape_argument(m, s) {
            Err(e) => Err(e),
            Ok(shape) => if is_shape(shape) && product(shape) == t.data.len() {
                Ok(ValueView::Tensor(TensorView { shape, data: t.data }))
            } else {
                Err(
                    EvalErrorView::TensorShapeMismatch { op: "reshape"@, a: t.shape, b: shape },
                )
            },
        },
    }
}

/// `concat a b`.
pub open spec fn concat_value(v: ValueView, w: ValueView) -> Result<ValueView, EvalErrorView> {
    match ranked(v, "concat"@, 1) {
        Err(e) => Err(e),
        Ok(a) => match ranked(w, "concat"@, 1) {
            Err(e) => Err(e),
            Ok(b) => if a.data.len() + b.data.len() <= usize::MAX {
                Ok(ValueView::Tensor(joined_vectors(a, b)))
            } else {
                Err(EvalErrorView::InvalidArgument("shape が大きすぎます"@))
            },
        },
    }
}

/// `x`, but no less than `lo` and no more than `hi`.
pub open spec fn clipped(m: Arith, lo: u64, hi: u64, x: u64) -> u64 {
    bin(m, BinaryOp::Min, bin(m, BinaryOp::Max, x, lo), hi)
}

/// `clip lo hi x`.
pub open spec fn clip_value(m: Arith, lo: ValueView, hi: ValueView, v: ValueView) -> Result<
    ValueView,
    EvalErrorView,
> {
    match float_pair(m, lo, hi) {
        Err(e) => Err(e),
        Ok((lo, hi)) => match v {
            ValueView::Float(x) => Ok(ValueView::Float(clipped(m, lo, hi, x))),
            ValueView::Int(n) => Ok(ValueView::Float(clipped(m, lo, hi, from_int(m, n)))),
            ValueView::Tensor(t) => Ok(
                ValueView::Tensor(
                    TensorView {
                        shape: t.shape,
                        data: Seq::new(t.data.len(), |i: int| clipped(m, lo, hi, t.data[i])),
                    },
                ),
            ),
            other => Err(mismatch("数値またはテンソル"@, other)),
        },
    }
}

/// What a function is differentiated at.
pub open spec fn grad_input(m: Arith, x: ValueView) -> Result<TensorView, EvalErrorView> {
    match x {
        ValueView::Int(n) => Ok(scalar_tensor(from_int(m, n))),
        ValueView::Float(v) => Ok(scalar_tensor(v)),
        ValueView::Tensor(t) => Ok(t),
        other => Err(mismatch("数値またはテンソル"@, other)),
    }
}

/// A derivative as a value: a tensor by a tensor, a number by a number.
pub open spec fn grad_output(x: ValueView, g: TensorView) -> ValueView {
    if x is Tensor {
        ValueView::Tensor(g)
    } else {
        ValueView::Float(
            if g.data.len() > 0 {
                g.data[0]
            } else {
                ZERO
            },
        )
    }
}

/// The derivative at `input` by the first node of the innermost tape, when
/// the function has given `y`. A function that gives a constant has none.
pub open spec fn grad_result(m: Arith, x: ValueView, input: TensorView, y: ValueView, tapes: TapesView) -> Result<
    ValueView,
    EvalErrorView,
> {
    match y {
        ValueView::Traced(id) => if on_tape(tapes, id) {
            Ok(grad_output(x, gradients(m, tapes.last(), id as int)[0]))
        } else {
            Err(off_tape())
        },
        ValueView::Int(_) => Ok(grad_output(x, filled(input.shape, ZERO))),
        ValueView::Float(_) => Ok(grad_output(x, filled(input.shape, ZERO))),
        ValueView::Tensor(_) => Ok(grad_output(x, filled(input.shape, ZERO))),
        other => Err(mismatch("数値またはテンソル"@, other)),
    }
}

// ---------------------------------------------------------------------------
// Evaluation
// ---------------------------------------------------------------------------

/// The value of an expression. `depth` is how deep calls may still nest.
pub open spec fn eval_model(m: Arith, e: ExprView, env: EnvView, depth: nat, tapes: TapesView) -> Outcome<
    ValueView,
>
    decreases depth, 3int, e, 0nat,
{
    match e {
        ExprView::Lit(LiteralView::Int(n)) => (Ok(ValueView::Int(n)), tapes),
        ExprView::Lit(LiteralView::Float(s)) => (Ok(ValueView::Float(parsed(m, s))), tapes),
        ExprView::Lit(LiteralView::Bool(b)) => (Ok(ValueView::Bool(b)), tapes),
        ExprView::Var(name) => (
            match env.find(name) {
                Some(v) => Ok(v),
                None => Err(EvalErrorView::UnboundVariable(name)),
            },
            tapes,
        ),
        ExprView::UnaryMinus(x) => {
            let (v, tapes) = eval_model(m, *x, env, depth, tapes);
            match v {
                Err(e) => (Err(e), tapes),
                Ok(v) => negated(m, v, tapes),
            }
        },
        ExprView::BinOp { op, left, right } => {
            let (l, tapes) = eval_model(m, *left, env, depth, tapes);
            match l {
                Err(e) => (Err(e), tapes),
                Ok(l) => {
                    let (r, tapes) = eval_model(m, *right, env, depth, tapes);
                    match r {
                        Err(e) => (Err(e), tapes),
                        Ok(r) => binop_model(m, op, l, r, tapes),
                    }
                },
            }
        },
        ExprView::App(f, a) => {
            let (f, tapes) = eval_model(m, *f, env, depth, tapes);
            match f {
                Err(e) => (Err(e), tapes),
                Ok(f) => {
                    let (a, tapes) = eval_model(m, *a, env, depth, tapes);
                    match a {
                        Err(e) => (Err(e), tapes),
                        Ok(a) => apply_model(m, f, a, env.globals, depth, tapes),
                    }
                },
            }
        },
        ExprView::Pipe(a, f) => {
            let (a, tapes) = eval_model(m, *a, env, depth, tapes);
            match a {
                Err(e) => (Err(e), tapes),
                Ok(a) => {
                    let (f, tapes) = eval_model(m, *f, env, depth, tapes);
                    match f {
                        Err(e) => (Err(e), tapes),
                        Ok(f) => apply_model(m, f, a, env.globals, depth, tapes),
                    }
                },
            }
        },
        ExprView::Lambda { param, body } => (
            Ok(ValueView::Closure { param, body: *body, env: env.locals }),
            tapes,
        ),
        ExprView::Let { name, params, value, body } => {
            let (v, tapes) = if params.len() == 0 {
                eval_model(m, *value, env, depth, tapes)
            } else {
                (Ok(function_value(params, *value, env.locals)), tapes)
            };
            match v {
                Err(e) => (Err(e), tapes),
                Ok(v) => eval_model(m, *body, env.bind(name, v), depth, tapes),
            }
        },
        ExprView::If { cond, then, else_ } => {
            let (c, tapes) = eval_model(m, *cond, env, depth, tapes);
            match c {
                Err(e) => (Err(e), tapes),
                Ok(ValueView::Bool(true)) => eval_model(m, *then, env, depth, tapes),
                Ok(ValueView::Bool(false)) => eval_model(m, *else_, env, depth, tapes),
                Ok(other) => (Err(mismatch("Bool"@, other)), tapes),
            }
        },
        ExprView::TensorLit(rows) => if rows.len() == 0 || (rows.len() == 1 && rows[0].len()
            == 0) {
            (Ok(ValueView::Tensor(TensorView { shape: seq![0], data: Seq::empty() })), tapes)
        } else {
            let (data, tapes) = eval_rows(m, rows, rows.len(), env, depth, tapes);
            (
                match data {
                    Err(e) => Err(e),
                    Ok(data) => literal_tensor(rows, data),
                },
                tapes,
            )
        },
    }
}

/// Whether all rows of a tensor literal are of one length.
pub open spec fn is_uniform(rows: Seq<Seq<ExprView>>) -> bool {
    forall|i: int| 0 <= i < rows.len() ==> (#[trigger] rows[i]).len() == rows[0].len()
}

/// The tensor of a literal whose elements are `data`: one row is a vector.
pub open spec fn literal_tensor(rows: Seq<Seq<ExprView>>, data: Seq<u64>) -> Result<
    ValueView,
    EvalErrorView,
> {
    if !is_uniform(rows) {
        Err(EvalErrorView::TensorNonUniform)
    } else if rows.len() == 1 {
        Ok(ValueView::Tensor(TensorView { shape: seq![rows[0].len() as usize], data }))
    } else {
        Ok(
            ValueView::Tensor(
                TensorView { shape: seq![rows.len() as usize, rows[0].len() as usize], data },
            ),
        )
    }
}

/// The elements of the first `n` rows of a tensor literal, one behind the other.
pub open spec fn eval_rows(
    m: Arith,
    rows: Seq<Seq<ExprView>>,
    n: nat,
    env: EnvView,
    depth: nat,
    tapes: TapesView,
) -> Outcome<Seq<u64>>
    decreases depth, 3int, rows, n,
{
    if n == 0 || n > rows.len() {
        (Ok(Seq::empty()), tapes)
    } else {
        let (front, tapes) = eval_rows(m, rows, (n - 1) as nat, env, depth, tapes);
        match front {
            Err(e) => (Err(e), tapes),
            Ok(front) => {
                let row = rows[n - 1];
                let (cells, tapes) = eval_row(m, row, row.len(), env, depth, tapes);
                match cells {
                    Err(e) => (Err(e), tapes),
                    Ok(cells) => (Ok(front + cells), tapes),
                }
            },
        }
    }
}

/// The first `n` elements of a row.
pub open spec fn eval_row(
    m: Arith,
    row: Seq<ExprView>,
    n: nat,
    env: EnvView,
    depth: nat,
    tapes: TapesView,
) -> Outcome<Seq<u64>>
    decreases depth, 3int, row, n,
{
    if n == 0 || n > row.len() {
        (Ok(Seq::empty()), tapes)
    } else {
        let (front, tapes) = eval_row(m, row, (n - 1) as nat, env, depth, tapes);
        match front {
            Err(e) => (Err(e), tapes),
            Ok(front) => {
                let (v, tapes) = eval_model(m, row[n - 1], env, depth, tapes);
                match v {
                    Err(e) => (Err(e), tapes),
                    Ok(v) => match as_float(m, v) {
                        Err(e) => (Err(e), tapes),
                        Ok(x) => (Ok(front.push(x)), tapes),
                    },
                }
            },
        }
    }
}

/// The value of a function on an argument. A function is called with the
/// local scope that it was made in and the top-level scope of the caller.
pub open spec fn apply_model(
    m: Arith,
    f: ValueView,
    a: ValueView,
    globals: GlobalsView,
    depth: nat,
    tapes: TapesView,
) -> Outcome<ValueView>
    decreases depth, 2int, f, 0nat,
{
    match f {
        ValueView::Closure { param, body, env } => if depth == 0 {
            (Err(EvalErrorView::CallDepth), tapes)
        } else {
            eval_model(
                m,
                body,
                (EnvView { locals: env, globals }).bind(param, a),
                (depth - 1) as nat,
                tapes,
            )
        },
        ValueView::Builtin(b) => if arity(b) == 1 {
            builtin_one(m, b, a, tapes)
        } else {
            (Ok(ValueView::PartialBuiltin(b, seq![a])), tapes)
        },
        ValueView::PartialBuiltin(b, args) => if args.len() + 1 == arity(b) {
            builtin_many(m, b, args.push(a), globals, depth, tapes)
        } else {
            (Ok(ValueView::PartialBuiltin(b, args.push(a))), tapes)
        },
        other => (Err(mismatch("関数"@, other)), tapes),
    }
}

/// A built-in function of several arguments that has them all.
pub open spec fn builtin_many(
    m: Arith,
    b: BuiltinFn,
    args: Seq<ValueView>,
    globals: GlobalsView,
    depth: nat,
    tapes: TapesView,
) -> Outcome<ValueView>
    decreases depth, 1int, args, 0nat,
{
    match b {
        BuiltinFn::Reshape => (reshape_value(m, args[0], args[1]), tapes),
        BuiltinFn::Concat => (concat_value(args[0], args[1]), tapes),
        BuiltinFn::Clip => (clip_value(m, args[0], args[1], args[2]), tapes),
        BuiltinFn::Grad => grad_model(m, args[0], args[1], globals, depth, tapes),
        BuiltinFn::Iterate => match args[1] {
            ValueView::Int(n) => if depth == 0 {
                (Err(EvalErrorView::CallDepth), tapes)
            } else {
                iterate_model(
                    m,
                    args[2],
                    args[0],
                    if n > 0 {
                        n as nat
                    } else {
                        0
                    },
                    globals,
                    (depth - 1) as nat,
                    tapes,
                )
            },
            other => (Err(mismatch("Int"@, other)), tapes),
        },
        _ => (Err(EvalErrorView::ArityMismatch), tapes),
    }
}

/// The derivative of `f` at `x`: the call of `f` is recorded on a tape of its
/// own, which is gone afterwards.
pub open spec fn grad_model(
    m: Arith,
    f: ValueView,
    x: ValueView,
    globals: GlobalsView,
    depth: nat,
    tapes: TapesView,
) -> Outcome<ValueView>
    decreases depth, 0int, f, 0nat,
{
    match grad_input(m, x) {
        Err(e) => (Err(e), tapes),
        Ok(input) => if depth == 0 {
            (Err(EvalErrorView::CallDepth), tapes)
        } else {
            let start = recorded(
                tapes.push(Seq::empty()),
                NodeView { value: input, op: Op::Leaf },
            );
            let (y, end) = apply_model(
                m,
                f,
                ValueView::Traced(0),
                globals,
                (depth - 1) as nat,
                start,
            );
            (
                match y {
                    Err(e) => Err(e),
                    Ok(y) => grad_result(m, x, input, y, end),
                },
                end.drop_last(),
            )
        },
    }
}

/// `v` after `n` applications of `step`.
pub open spec fn iterate_model(
    m: Arith,
    step: ValueView,
    v: ValueView,
    n: nat,
    globals: GlobalsView,
    depth: nat,
    tapes: TapesView,
) -> Outcome<ValueView>
    decreases depth, 4int, step, n,
{
    if n == 0 {
        (Ok(v), tapes)
    } else {
        let (before, tapes) = iterate_model(m, step, v, (n - 1) as nat, globals, depth, tapes);
        match before {
            Err(e) => (Err(e), tapes),
            Ok(before) => apply_model(m, step, before, globals, depth, tapes),
        }
    }
}

// ---------------------------------------------------------------------------
// Programs
// ---------------------------------------------------------------------------

/// The built-in functions under their names.
pub open spec fn with_builtins(globals: GlobalsView) -> GlobalsView {
    globals.insert("sum"@, ValueView::Builtin(BuiltinFn::Sum)).insert(
        "mean"@,
        ValueView::Builtin(BuiltinFn::Mean),
    ).insert("exp"@, ValueView::Builtin(BuiltinFn::Exp)).insert(
        "log"@,
        ValueView::Builtin(BuiltinFn::Log),
    ).insert("tanh"@, ValueView::Builtin(BuiltinFn::Tanh)).insert(
        "sqrt"@,
        ValueView::Builtin(BuiltinFn::Sqrt),
    ).insert("zeros"@, ValueView::Builtin(BuiltinFn::Zeros)).insert(
        "ones"@,
        ValueView::Builtin(BuiltinFn::Ones),
    ).insert("transpose"@, ValueView::Builtin(BuiltinFn::Transpose)).insert(
        "reshape"@,
        ValueView::Builtin(BuiltinFn::Reshape),
    ).insert("grad"@, ValueView::Builtin(BuiltinFn::Grad)).insert(
        "iterate"@,
        ValueView::Builtin(BuiltinFn::Iterate),
    ).insert("abs"@, ValueView::Builtin(BuiltinFn::Abs)).insert(
        "max"@,
        ValueView::Builtin(BuiltinFn::MaxVal),
    ).insert("min"@, ValueView::Builtin(BuiltinFn::MinVal)).insert(
        "concat"@,
        ValueView::Builtin(BuiltinFn::Concat),
    ).insert("flatten"@, ValueView::Builtin(BuiltinFn::Flatten)).insert(
        "norm"@,
        ValueView::Builtin(BuiltinFn::Norm),
    ).insert("clip"@, ValueView::Builtin(BuiltinFn::Clip)).insert(
        "softmax"@,
        ValueView::Builtin(BuiltinFn::Softmax),
    )
}

/// The functions among the first `n` items, defined.
pub open spec fn functions_defined(items: Seq<TopLevelView>, n: nat, globals: GlobalsView) -> GlobalsView
    decreases n,
{
    if n == 0 || n > items.len() {
        globals
    } else {
        let before = functions_defined(items, (n - 1) as nat, globals);
        match items[n - 1] {
            TopLevelView::Binding { name, params, body } => if params.len() > 0 {
                before.insert(name, function_value(params, body, LocalsView::Empty))
            } else {
                before
            },
            _ => before,
        }
    }
}

/// The values among the first `n` items, evaluated in their order and defined.
pub open spec fn values_defined(
    m: Arith,
    items: Seq<TopLevelView>,
    n: nat,
    globals: GlobalsView,
    depth: nat,
) -> Result<GlobalsView, EvalErrorView>
    decreases n,
{
    if n == 0 || n > items.len() {
        Ok(globals)
    } else {
        match values_defined(m, items, (n - 1) as nat, globals, depth) {
            Err(e) => Err(e),
            Ok(before) => match items[n - 1] {
                TopLevelView::Binding { name, params, body } => if params.len() == 0 {
                    let env = EnvView { locals: LocalsView::Empty, globals: before };
                    match eval_model(m, body, env, depth, Seq::empty()).0 {
                        Err(e) => Err(e),
                        Ok(v) => Ok(before.insert(name, v)),
                    }
                } else {
                    Ok(before)
                },
                _ => Ok(before),
            },
        }
    }
}

/// The top-level scope of a program. All functions are defined before the
/// first value, so that definitions may refer to later functions.
pub open spec fn program_globals(m: Arith, items: Seq<TopLevelView>, depth: nat) -> Result<
    GlobalsView,
    EvalErrorView,
> {
    values_defined(
        m,
        items,
        items.len(),
        functions_defined(items, items.len(), with_builtins(Map::empty())),
        depth,
    )
}

/// The value of a program: that of `main`.
pub open spec fn program_value(m: Arith, items: Seq<TopLevelView>, depth: nat) -> Result<
    ValueView,
    EvalErrorView,
> {
    match program_globals(m, items, depth) {
        Err(e) => Err(e),
        Ok(globals) => if globals.contains_key("main"@) {
            Ok(globals["main"@])
        } else {
            Err(EvalErrorView::NoMain)
        },
    }
}

// ---------------------------------------------------------------------------
// Errors stop what they occur in
// ---------------------------------------------------------------------------

proof fn lemma_row_error(
    m: Arith,
    row: Seq<ExprView>,
    j: nat,
    n: nat,
    env: EnvView,
    depth: nat,
    tapes: TapesView,
)
    requires
        j <= n <= row.len(),
        eval_row(m, row, j, env, depth, tapes).0 is Err,
    ensures
        eval_row(m, row, n, env, depth, tapes) == eval_row(m, row, j, env, depth, tapes),
    decreases n - j,
{
    if j < n {
        lemma_row_error(m, row, j, (n - 1) as nat, env, depth, tapes);
    }
}

proof fn lemma_rows_error(
    m: Arith,
    rows: Seq<Seq<ExprView>>,
    j: nat,
    n: nat,
    env: EnvView,
    depth: nat,
    tapes: TapesView,
)
    requires
        j <= n <= rows.len(),
        eval_rows(m, rows, j, env, depth, tapes).0 is Err,
    ensures
        eval_rows(m, rows, n, env, depth, tapes) == eval_rows(m, rows, j, env, depth, tapes),
    decreases n - j,
{
    if j < n {
        lemma_rows_error(m, rows, j, (n - 1) as nat, env, depth, tapes);
    }
}

proof fn lemma_iterate_error(
    m: Arith,
    step: ValueView,
    v: ValueView,
    j: nat,
    n: nat,
    globals: GlobalsView,
    depth: nat,
    tapes: TapesView,
)
    requires
        j <= n,
        iterate_model(m, step, v, j, globals, depth, tapes).0 is Err,
    ensures
        iterate_model(m, step, v, n, globals, depth, tapes) == iterate_model(
            m,
            step,
            v,
            j,
            globals,
            depth,
            tapes,
        ),
    decreases n - j,
{
    if j < n {
        lemma_iterate_error(m, step, v, j, (n - 1) as nat, globals, depth, tapes);
    }
}

proof fn lemma_values_error(
    m: Arith,
    items: Seq<TopLevelView>,
    j: nat,
    n: nat,
    globals: GlobalsView,
    depth: nat,
)
    requires
        j <= n <= items.len(),
        values_defined(m, items, j, globals, depth) is Err,
    ensures
        values_defined(m, items, n, globals, depth) == values_defined(m, items, j, globals, depth),
    decreases n - j,
{
    if j < n {
        lemma_values_error(m, items, j, (n - 1) as nat, globals, depth);
    }
}

// ---------------------------------------------------------------------------
// The evaluator
// ---------------------------------------------------------------------------

/// Whether what was computed, and the tapes after it, is what the model says.
pub open spec fn outcome_is(
    r: Result<Value, EvalError>,
    tapes: TapesView,
    model: Outcome<ValueView>,
) -> bool {
    &&& tapes == model.1
    &&& result_is(r, model.0)
}

/// Whether a result is what the model says.
pub open spec fn result_is(
    r: Result<Value, EvalError>,
    model: Result<ValueView, EvalErrorView>,
) -> bool {
    match model {
        Ok(v) => r matches Ok(x) && x@ == v,
        Err(e) => r matches Err(x) && x@ == e,
    }
}

/// Nested functions of one parameter, for the parameters from `from` on.
pub fn desugar_lambda(params: &Vec<String>, from: usize, body: &Expr) -> (out: Expr)
    requires
        from <= params.len(),
    ensures
        out@ == curried(
            names_of(params@).subrange(from as int, params@.len() as int),
            body@,
        ),
{
    let ghost names = names_of(params@);
    let n: usize = params.len();
    let mut out: Expr = body.clone();
    let mut i: usize = n;
    while i > from
        invariant
            n == params.len(),
            names == names_of(params@),
            from <= i <= n,
            out@ == curried(names.subrange(i as int, n as int), body@),
        decreases i,
    {
        i = i - 1;
        let ghost inner = out@;
        out = Expr::Lambda { param: params[i].clone(), body: Box::new(out) };
        proof {
            let here = names.subrange(i as int, n as int);
            assert(here.subrange(1, here.len() as int) =~= names.subrange(i + 1, n as int));
            assert(here[0] == names[i as int]);
            assert(out@ == ExprView::Lambda { param: names[i as int], body: Box::new(inner) });
        }
    }
    out
}

/// The value of a definition with parameters.
fn make_function(params: &Vec<String>, body: &Expr, env: &Locals) -> (v: Value)
    requires
        params.len() > 0,
    ensures
        v@ == function_value(names_of(params@), body@, locals_of(*env)),
{
    Value::Closure(
        Closure {
            param: params[0].clone(),
            body: Rc::new(desugar_lambda(params, 1, body)),
            env: crate::value::share_locals(env),
        },
    )
}

/// How many arguments a built-in function waits for.
pub fn builtin_arity(b: BuiltinFn) -> (n: usize)
    ensures
        n == arity(b),
{
    match b {
        BuiltinFn::Reshape => 2,
        BuiltinFn::Grad => 2,
        BuiltinFn::Concat => 2,
        BuiltinFn::Iterate => 3,
        BuiltinFn::Clip => 3,
        _ => 1,
    }
}

// Integers

fn magnitude(n: i64) -> (u: u64)
    ensures
        u == abs(n as int),
{
    if n >= 0 {
        n as u64
    } else {
        (-(n + 1)) as u64 + 1
    }
}

fn divide(a: i64, b: i64) -> (r: Result<Value, EvalError>)
    requires
        b != 0,
    ensures
        result_is(r, int_result(int_quotient(a as int, b as int))),
{
    let q: u64 = magnitude(a) / magnitude(b);
    proof {
        assert(abs(a as int) / abs(b as int) <= abs(a as int)) by (nonlinear_arith)
            requires
                abs(a as int) >= 0,
                abs(b as int) >= 1,
        ;
    }
    if (a < 0) == (b < 0) {
        if q <= i64::MAX as u64 {
            Ok(Value::Int(q as i64))
        } else {
            Err(EvalError::IntegerOverflow)
        }
    } else if q <= i64::MAX as u64 {
        Ok(Value::Int(-(q as i64)))
    } else {
        Ok(Value::Int(i64::MIN))
    }
}

proof fn lemma_pow_trivial(a: int, e: nat)
    requires
        -1 <= a <= 1,
        e > 0,
    ensures
        pow(a, e) == if a == 0 {
            0int
        } else if a == 1 || e % 2 == 0 {
            1int
        } else {
            -1int
        },
    decreases e,
{
    reveal(pow);
    let p = pow(a, (e - 1) as nat);
    if e > 1 {
        lemma_pow_trivial(a, (e - 1) as nat);
    }
    assert(pow(a, e) == a * p);
    assert(a == 0 ==> a * p == 0) by (nonlinear_arith);
    assert(a == 1 ==> a * p == p) by (nonlinear_arith);
    assert(a == -1 ==> a * p == -p) by (nonlinear_arith);
}

spec fn fits(n: int) -> bool {
    i64::MIN <= n <= i64::MAX
}

proof fn lemma_pow_escapes(a: int, i: nat, e: nat)
    requires
        a >= 2 || a <= -2,
        i <= e,
        !fits(pow(a, i)),
    ensures
        !fits(pow(a, e)),
    decreases e - i,
{
    if i < e {
        reveal(pow);
        let x = pow(a, i);
        assert(pow(a, i + 1) == a * x);
        assert(!fits(a * x)) by (nonlinear_arith)
            requires
                a >= 2 || a <= -2,
                x >= 0x8000_0000_0000_0000 || x < -0x8000_0000_0000_0000,
        ;
        lemma_pow_escapes(a, i + 1, e);
    }
}

fn int_power(a: i64, e: u64) -> (r: Result<Value, EvalError>)
    ensures
        result_is(r, int_result(pow(a as int, e as nat))),
{
    proof {
        reveal(pow);
    }
    if e == 0 {
        return Ok(Value::Int(1));
    }
    if -1 <= a && a <= 1 {
        proof {
            lemma_pow_trivial(a as int, e as nat);
        }
        return if a == 0 {
            Ok(Value::Int(0))
        } else if a == 1 || e % 2 == 0 {
            Ok(Value::Int(1))
        } else {
            Ok(Value::Int(-1))
        };
    }
    let mut p: i64 = 1;
    let mut i: u64 = 0;
    while i < e
        invariant
            a >= 2 || a <= -2,
            i <= e,
            p == pow(a as int, i as nat),
        decreases e - i,
    {
        proof {
            reveal(pow);
            assert(pow(a as int, (i + 1) as nat) == a * p);
        }
        match a.checked_mul(p) {
            Some(q) => {
                p = q;
            },
            None => {
                proof {
                    lemma_pow_escapes(a as int, (i + 1) as nat, e as nat);
                }
                return Err(EvalError::IntegerOverflow);
            },
        }
        i = i + 1;
    }
    Ok(Value::Int(p))
}

fn int_operation(op: BinOpKind, a: i64, b: i64) -> (r: Option<Result<Value, EvalError>>)
    ensures
        match int_binop(op, a, b) {
            Some(model) => r matches Some(x) && result_is(x, model),
            None => r is None,
        },
{
    match op {
        BinOpKind::Add => Some(
            match a.checked_add(b) {
                Some(n) => Ok(Value::Int(n)),
                None => Err(EvalError::IntegerOverflow),
            },
        ),
        BinOpKind::Sub => Some(
            match a.checked_sub(b) {
                Some(n) => Ok(Value::Int(n)),
                None => Err(EvalError::IntegerOverflow),
            },
        ),
        BinOpKind::Mul => Some(
            match a.checked_mul(b) {
                Some(n) => Ok(Value::Int(n)),
                None => Err(EvalError::IntegerOverflow),
            },
        ),
        BinOpKind::Div => if b == 0 {
            Some(Err(EvalError::DivisionByZero))
        } else {
            Some(divide(a, b))
        },
        BinOpKind::Pow => if b >= 0 {
            Some(int_power(a, b as u64))
        } else {
            None
        },
        _ => None,
    }
}

// Operators

fn eval_arithmetic<F: Fn(Query) -> Vec<u64>>(
    f: &F,
    op: BinOpKind,
    k: BinaryOp,
    l: &Value,
    r: &Value,
) -> (out: Result<Value, EvalError>)
    requires
        is_arithmetic(f),
    ensures
        result_is(out, arithmetic(meaning(f), op, k, l@, r@)),
{
    match (l, r) {
        (Value::Tensor(a), Value::Tensor(b)) => {
            match check_shape_match(symbol_of(op), a, b) {
                Ok(()) => Ok(Value::Tensor(Rc::new(a.zip(f, k, b)))),
                Err(e) => Err(e),
            }
        },
        (Value::Tensor(a), Value::Float(s)) => Ok(Value::Tensor(Rc::new(a.scalar_last(f, k, *s)))),
        (Value::Tensor(a), Value::Int(n)) => Ok(
            Value::Tensor(Rc::new(a.scalar_last(f, k, float_of_int(f, *n)))),
        ),
        (Value::Float(s), Value::Tensor(b)) => Ok(
            Value::Tensor(Rc::new(b.scalar_first(f, k, *s))),
        ),
        (Value::Int(n), Value::Tensor(b)) => Ok(
            Value::Tensor(Rc::new(b.scalar_first(f, k, float_of_int(f, *n)))),
        ),
        _ => {
            let ints: Option<Result<Value, EvalError>> = match (l, r) {
                (Value::Int(a), Value::Int(b)) => int_operation(op, *a, *b),
                _ => None,
            };
            if let Some(result) = ints {
                return result;
            }
            let a: u64 = match coerce_to_float(f, l) {
                Ok(x) => x,
                Err(e) => {
                    return Err(e);
                },
            };
            let b: u64 = match coerce_to_float(f, r) {
                Ok(x) => x,
                Err(e) => {
                    return Err(e);
                },
            };
            if op == BinOpKind::Div && related(f, Relation::Eq, b, ZERO) {
                Err(EvalError::DivisionByZero)
            } else {
                Ok(Value::Float(binary(f, k, a, b)))
            }
        },
    }
}

/// Whether two tensors have one shape; the error names the operator.
fn check_shape_match(op: &'static str, a: &Tensor, b: &Tensor) -> (r: Result<(), EvalError>)
    ensures
        if a@.shape == b@.shape {
            r is Ok
        } else {
            r matches Err(e) && e@ == (EvalErrorView::TensorShapeMismatch {
                op: op@,
                a: a@.shape,
                b: b@.shape,
            })
        },
{
    if same_shape(a.shape(), b.shape()) {
        Ok(())
    } else {
        Err(
            EvalError::TensorShapeMismatch {
                op,
                a: copy_sizes(a.shape()),
                b: copy_sizes(b.shape()),
            },
        )
    }
}

fn values_equal<F: Fn(Query) -> Vec<u64>>(f: &F, l: &Value, r: &Value) -> (out: Result<
    bool,
    EvalError,
>)
    requires
        is_arithmetic(f),
    ensures
        match values_equal_model(meaning(f), l@, r@) {
            Ok(b) => out matches Ok(x) && x == b,
            Err(e) => out matches Err(x) && x@ == e,
        },
{
    match (l, r) {
        (Value::Int(a), Value::Int(b)) => Ok(*a == *b),
        (Value::Float(a), Value::Float(b)) => Ok(related(f, Relation::Eq, *a, *b)),
        (Value::Int(a), Value::Float(b)) => Ok(
            related(f, Relation::Eq, float_of_int(f, *a), *b),
        ),
        (Value::Float(a), Value::Int(b)) => Ok(
            related(f, Relation::Eq, *a, float_of_int(f, *b)),
        ),
        (Value::Bool(a), Value::Bool(b)) => Ok(*a == *b),
        _ => Err(EvalError::TypeMismatch { expected: "比較可能な型", got: "比較不可能な型" }),
    }
}

/// By what two numbers are ordered.
#[derive(Debug)]
pub enum Difference {
    Whole(i128),
    Floats(u64, u64),
}

impl View for Difference {
    type V = DifferenceView;

    open spec fn view(&self) -> DifferenceView {
        match *self {
            Difference::Whole(d) => DifferenceView::Whole(d as int),
            Difference::Floats(x, y) => DifferenceView::Floats(x, y),
        }
    }
}

/// How far the first number is from the second.
pub fn compare_numeric<F: Fn(Query) -> Vec<u64>>(f: &F, l: &Value, r: &Value) -> (out: Result<
    Difference,
    EvalError,
>)
    requires
        is_arithmetic(f),
    ensures
        match difference(meaning(f), l@, r@) {
            Ok(d) => out matches Ok(x) && x@ == d,
            Err(e) => out matches Err(x) && x@ == e,
        },
{
    match (l, r) {
        (Value::Int(a), Value::Int(b)) => Ok(Difference::Whole(*a as i128 - *b as i128)),
        (Value::Int(a), Value::Float(y)) => Ok(Difference::Floats(float_of_int(f, *a), *y)),
        (Value::Float(x), Value::Int(b)) => Ok(Difference::Floats(*x, float_of_int(f, *b))),
        (Value::Float(x), Value::Float(y)) => Ok(Difference::Floats(*x, *y)),
        (Value::Int(_), other) => Err(type_mismatch("数値", other)),
        (Value::Float(_), other) => Err(type_mismatch("数値", other)),
        (other, _) => Err(type_mismatch("数値", other)),
    }
}

fn is_ordered<F: Fn(Query) -> Vec<u64>>(f: &F, rel: Relation, l: &Value, r: &Value) -> (out: Result<
    Value,
    EvalError,
>)
    requires
        is_arithmetic(f),
    ensures
        result_is(out, ordered(meaning(f), rel, l@, r@)),
{
    match compare_numeric(f, l, r) {
        Ok(Difference::Whole(d)) => Ok(
            Value::Bool(
                match rel {
                    Relation::Eq => d == 0,
                    Relation::Lt => d < 0,
                    Relation::Le => d <= 0,
                    Relation::Gt => d > 0,
                    Relation::Ge => d >= 0,
                },
            ),
        ),
        Ok(Difference::Floats(x, y)) => Ok(Value::Bool(related(f, rel, x, y))),
        Err(e) => Err(e),
    }
}

/// An operator on two values, neither of them under differentiation.
fn eval_plain_binop<F: Fn(Query) -> Vec<u64>>(
    f: &F,
    op: BinOpKind,
    l: &Value,
    r: &Value,
) -> (out: Result<Value, EvalError>)
    requires
        is_arithmetic(f),
    ensures
        result_is(out, plain_binop(meaning(f), op, l@, r@)),
{
    if let Some(k) = elementwise_op(op) {
        return eval_arithmetic(f, op, k, l, r);
    }
    match op {
        BinOpKind::Eq => match values_equal(f, l, r) {
            Ok(b) => Ok(Value::Bool(b)),
            Err(e) => Err(e),
        },
        BinOpKind::Ne => match values_equal(f, l, r) {
            Ok(b) => Ok(Value::Bool(!b)),
            Err(e) => Err(e),
        },
        BinOpKind::Lt => is_ordered(f, Relation::Lt, l, r),
        BinOpKind::Le => is_ordered(f, Relation::Le, l, r),
        BinOpKind::Gt => is_ordered(f, Relation::Gt, l, r),
        BinOpKind::Ge => is_ordered(f, Relation::Ge, l, r),
        _ => match (l, r) {
            (Value::Tensor(a), Value::Tensor(b)) => match matmul_forward(f, a, b) {
                Ok(t) => Ok(Value::Tensor(Rc::new(t))),
                Err(e) => Err(e),
            },
            _ => Err(
                EvalError::TypeMismatch {
                    expected: "互換性のある型",
                    got: "非互換な型の組み合わせ",
                },
            ),
        },
    }
}

/// Whether a node is on the innermost tape.
fn is_on_tape(tapes: &Tapes, id: usize) -> (answer: bool)
    ensures
        answer == on_tape(tapes@, id),
{
    let n: usize = tapes.stack.len();
    if n == 0 {
        return false;
    }
    assert(tapes@.last() == tapes.stack@[n - 1]@);
    id < tapes.stack[n - 1].nodes.len()
}

fn off_tape_error() -> (e: EvalError)
    ensures
        e@ == off_tape(),
{
    EvalError::InvalidArgument("微分の対象でない追跡値です".to_owned())
}

/// An operand as a node of the innermost tape; a constant becomes a leaf.
fn lift<F: Fn(Query) -> Vec<u64>>(f: &F, v: &Value, tapes: &mut Tapes) -> (r: Result<
    usize,
    EvalError,
>)
    requires
        is_arithmetic(f),
        tapes_ok(old(tapes)@),
    ensures
        tapes_ok(final(tapes)@),
        final(tapes)@.len() == old(tapes)@.len(),
        final(tapes)@ == lifted(meaning(f), v@, old(tapes)@).1,
        match lifted(meaning(f), v@, old(tapes)@).0 {
            Ok(id) => r matches Ok(x) && x == id && on_tape(final(tapes)@, id) && (forall|
                other: usize,
            |
                on_tape(old(tapes)@, other) ==> on_tape(final(tapes)@, other)),
            Err(e) => r matches Err(x) && x@ == e,
        },
{
    let constant: Rc<Tensor> = match v {
        Value::Traced(id) => {
            return if is_on_tape(tapes, *id) {
                Ok(*id)
            } else {
                Err(off_tape_error())
            };
        },
        Value::Int(n) => Rc::new(Tensor::scalar(float_of_int(f, *n))),
        Value::Float(x) => Rc::new(Tensor::scalar(*x)),
        Value::Tensor(t) => Rc::clone(t),
        _ => {
            return Err(type_mismatch("数値またはテンソル", v));
        },
    };
    if tapes.stack.len() == 0 {
        return Err(off_tape_error());
    }
    Ok(leaf(tapes, constant))
}

/// An operator of which an operand is under differentiation.
fn eval_traced_binop<F: Fn(Query) -> Vec<u64>>(
    f: &F,
    op: BinOpKind,
    l: &Value,
    r: &Value,
    tapes: &mut Tapes,
) -> (out: Result<Value, EvalError>)
    requires
        is_arithmetic(f),
        tapes_ok(old(tapes)@),
    ensures
        tapes_ok(final(tapes)@),
        final(tapes)@.len() == old(tapes)@.len(),
        outcome_is(out, final(tapes)@, traced_binop(meaning(f), op, l@, r@, old(tapes)@)),
{
    let a: usize = match lift(f, l, tapes) {
        Ok(a) => a,
        Err(e) => {
            return Err(e);
        },
    };
    let b: usize = match lift(f, r, tapes) {
        Ok(b) => b,
        Err(e) => {
            return Err(e);
        },
    };
    match binop(f, tapes, op, a, b) {
        Ok(id) => Ok(Value::Traced(id)),
        Err(e) => Err(e),
    }
}

/// An operator on two values.
fn eval_binop<F: Fn(Query) -> Vec<u64>>(
    f: &F,
    op: BinOpKind,
    l: &Value,
    r: &Value,
    tapes: &mut Tapes,
) -> (out: Result<Value, EvalError>)
    requires
        is_arithmetic(f),
        tapes_ok(old(tapes)@),
    ensures
        tapes_ok(final(tapes)@),
        final(tapes)@.len() == old(tapes)@.len(),
        outcome_is(out, final(tapes)@, binop_model(meaning(f), op, l@, r@, old(tapes)@)),
{
    if matches!(l, Value::Traced(_)) || matches!(r, Value::Traced(_)) {
        eval_traced_binop(f, op, l, r, tapes)
    } else {
        eval_plain_binop(f, op, l, r)
    }
}

fn negate<F: Fn(Query) -> Vec<u64>>(f: &F, v: &Value, tapes: &mut Tapes) -> (out: Result<
    Value,
    EvalError,
>)
    requires
        is_arithmetic(f),
        tapes_ok(old(tapes)@),
    ensures
        tapes_ok(final(tapes)@),
        final(tapes)@.len() == old(tapes)@.len(),
        outcome_is(out, final(tapes)@, negated(meaning(f), v@, old(tapes)@)),
{
    match v {
        Value::Int(n) => if *n == i64::MIN {
            Err(EvalError::IntegerOverflow)
        } else {
            Ok(Value::Int(-*n))
        },
        Value::Float(x) => Ok(Value::Float(unary(f, UnaryOp::Neg, *x))),
        Value::Tensor(t) => Ok(Value::Tensor(Rc::new(t.map(f, UnaryOp::Neg)))),
        Value::Traced(id) => if is_on_tape(tapes, *id) {
            Ok(Value::Traced(neg(f, tapes, *id)))
        } else {
            Err(off_tape_error())
        },
        other => Err(type_mismatch("数値", other)),
    }
}

// Built-in functions

/// A function of every element.
fn apply_pointwise<F: Fn(Query) -> Vec<u64>>(
    f: &F,
    b: BuiltinFn,
    v: &Value,
    tapes: &mut Tapes,
) -> (out: Result<Value, EvalError>)
    requires
        is_arithmetic(f),
        tapes_ok(old(tapes)@),
        b == BuiltinFn::Exp || b == BuiltinFn::Log || b == BuiltinFn::Tanh || b == BuiltinFn::Sqrt,
    ensures
        tapes_ok(final(tapes)@),
        final(tapes)@.len() == old(tapes)@.len(),
        outcome_is(out, final(tapes)@, builtin_one(meaning(f), b, v@, old(tapes)@)),
{
    let k: UnaryOp = match b {
        BuiltinFn::Exp => UnaryOp::Exp,
        BuiltinFn::Log => UnaryOp::Log,
        BuiltinFn::Tanh => UnaryOp::Tanh,
        _ => UnaryOp::Sqrt,
    };
    match v {
        Value::Float(x) => Ok(Value::Float(unary(f, k, *x))),
        Value::Int(n) => Ok(Value::Float(unary(f, k, float_of_int(f, *n)))),
        Value::Tensor(t) => Ok(Value::Tensor(Rc::new(t.map(f, k)))),
        Value::Traced(id) => {
            if !is_on_tape(tapes, *id) {
                return Err(off_tape_error());
            }
            let node: usize = match b {
                BuiltinFn::Exp => exp(f, tapes, *id),
                BuiltinFn::Log => log(f, tapes, *id),
                BuiltinFn::Tanh => tanh(f, tapes, *id),
                _ => sqrt(f, tapes, *id),
            };
            Ok(Value::Traced(node))
        },
        other => Err(type_mismatch("数値またはテンソル", other)),
    }
}

/// The shape that an argument denotes.
fn extract_shape<F: Fn(Query) -> Vec<u64>>(f: &F, v: &Value) -> (r: Result<Vec<usize>, EvalError>)
    requires
        is_arithmetic(f),
    ensures
        match shape_argument(meaning(f), v@) {
            Ok(shape) => r matches Ok(x) && x@ == shape,
            Err(e) => r matches Err(x) && x@ == e,
        },
{
    let mut out: Vec<usize> = Vec::new();
    match v {
        Value::Tensor(t) => {
            let xs: &Vec<u64> = t.data();
            let ghost goal = Seq::new(xs@.len(), |i: int| to_size(meaning(f), xs@[i]));
            let mut i: usize = 0;
            while i < xs.len()
                invariant
                    is_arithmetic(f),
                    goal == Seq::new(xs@.len(), |i: int| to_size(meaning(f), xs@[i])),
                    i <= xs.len(),
                    out@ == goal.take(i as int),
                decreases xs.len() - i,
            {
                out.push(size_of_float(f, xs[i]));
                i = i + 1;
                assert(out@ =~= goal.take(i as int));
            }
            assert(out@ =~= goal);
            Ok(out)
        },
        Value::Int(n) => {
            out.push(*n as usize);
            assert(out@ =~= seq![*n as usize]);
            Ok(out)
        },
        other => {
            let mut text: String =
                "shape は Int またはテンソルである必要があります、got: ".to_owned();
            text.append(debug_of_str(value_type_name(other)).as_str());
            Err(EvalError::InvalidArgument(text))
        },
    }
}

/// A tensor of the shape that an argument denotes, every element `x`.
fn make_filled<F: Fn(Query) -> Vec<u64>>(f: &F, v: &Value, x: u64) -> (r: Result<Value, EvalError>)
    requires
        is_arithmetic(f),
    ensures
        result_is(r, filled_value(meaning(f), v@, x)),
{
    match extract_shape(f, v) {
        Ok(shape) => match size_of_shape(&shape) {
            Some(size) => Ok(Value::Tensor(Rc::new(Tensor::filled(shape, size, x)))),
            None => Err(EvalError::InvalidArgument("shape が大きすぎます".to_owned())),
        },
        Err(e) => Err(e),
    }
}

/// The tensor that a value is, of the rank that an operation wants.
fn tensor_of_rank(v: &Value, op: &'static str, rank: usize) -> (r: Result<Rc<Tensor>, EvalError>)
    ensures
        match ranked(v@, op@, rank) {
            Ok(t) => r matches Ok(x) && (*x)@ == t,
            Err(e) => r matches Err(x) && x@ == e,
        },
{
    match coerce_to_tensor(v) {
        Ok(t) => {
            let got: usize = t.rank();
            if got == rank {
                Ok(t)
            } else {
                Err(EvalError::TensorWrongRank { op, expected: rank, got })
            }
        },
        Err(e) => Err(e),
    }
}

/// The greatest or least element; there has to be one.
fn find_extreme<F: Fn(Query) -> Vec<u64>>(f: &F, k: BinaryOp, v: &Value, none: &str) -> (r: Result<
    Value,
    EvalError,
>)
    requires
        is_arithmetic(f),
    ensures
        result_is(r, extreme_value(meaning(f), k, v@, none@)),
{
    let t: Rc<Tensor> = match coerce_to_tensor(v) {
        Ok(t) => t,
        Err(e) => {
            return Err(e);
        },
    };
    let xs: &Vec<u64> = t.data();
    if xs.len() == 0 {
        return Err(EvalError::InvalidArgument(none.to_owned()));
    }
    let mut best: u64 = xs[0];
    let mut i: usize = 1;
    while i < xs.len()
        invariant
            is_arithmetic(f),
            1 <= i <= xs.len(),
            best == extreme(meaning(f), k, xs@.take(i as int)),
        decreases xs.len() - i,
    {
        assert(xs@.take(i + 1).drop_last() =~= xs@.take(i as int));
        best = binary(f, k, best, xs[i]);
        i = i + 1;
    }
    assert(xs@.take(xs@.len() as int) =~= xs@);
    Ok(Value::Float(best))
}

fn apply_softmax<F: Fn(Query) -> Vec<u64>>(f: &F, v: &Value, tapes: &mut Tapes) -> (out: Result<
    Value,
    EvalError,
>)
    requires
        is_arithmetic(f),
        tapes_ok(old(tapes)@),
    ensures
        tapes_ok(final(tapes)@),
        final(tapes)@.len() == old(tapes)@.len(),
        outcome_is(
            out,
            final(tapes)@,
            builtin_one(meaning(f), BuiltinFn::Softmax, v@, old(tapes)@),
        ),
{
    match v {
        Value::Traced(id) => {
            if !is_on_tape(tapes, *id) {
                return Err(off_tape_error());
            }
            let e: usize = exp(f, tapes, *id);
            let s: usize = sum(f, tapes, e);
            eval_traced_binop(f, BinOpKind::Div, &Value::Traced(e), &Value::Traced(s), tapes)
        },
        _ => match coerce_to_tensor(v) {
            Ok(t) => {
                let e: Tensor = t.map(f, UnaryOp::Exp);
                let s: u64 = sum_of(f, e.data());
                Ok(Value::Tensor(Rc::new(e.scalar_last(f, BinaryOp::Div, s))))
            },
            Err(e) => Err(e),
        },
    }
}

/// A built-in function of one argument.
pub fn apply_builtin<F: Fn(Query) -> Vec<u64>>(
    f: &F,
    b: BuiltinFn,
    v: &Value,
    tapes: &mut Tapes,
) -> (out: Result<Value, EvalError>)
    requires
        is_arithmetic(f),
        tapes_ok(old(tapes)@),
    ensures
        tapes_ok(final(tapes)@),
        final(tapes)@.len() == old(tapes)@.len(),
        outcome_is(out, final(tapes)@, builtin_one(meaning(f), b, v@, old(tapes)@)),
{
    match b {
        BuiltinFn::Sum => match v {
            Value::Traced(id) => if is_on_tape(tapes, *id) {
                Ok(Value::Traced(sum(f, tapes, *id)))
            } else {
                Err(off_tape_error())
            },
            _ => match coerce_to_tensor(v) {
                Ok(t) => Ok(Value::Float(sum_of(f, t.data()))),
                Err(e) => Err(e),
            },
        },
        BuiltinFn::Mean => match v {
            Value::Traced(id) => if is_on_tape(tapes, *id) {
                Ok(Value::Traced(mean(f, tapes, *id)))
            } else {
                Err(off_tape_error())
            },
            _ => match coerce_to_tensor(v) {
                Ok(t) => {
                    let n: usize = t.len();
                    if n == 0 {
                        Err(EvalError::InvalidArgument("mean: 空のテンソル".to_owned()))
                    } else {
                        let all: u64 = sum_of(f, t.data());
                        let count: u64 = float_of_int(f, n as i64);
                        Ok(Value::Float(binary(f, BinaryOp::Div, all, count)))
                    }
                },
                Err(e) => Err(e),
            },
        },
        BuiltinFn::Exp | BuiltinFn::Log | BuiltinFn::Tanh | BuiltinFn::Sqrt => apply_pointwise(
            f,
            b,
            v,
            tapes,
        ),
        BuiltinFn::Zeros => make_filled(f, v, ZERO),
        BuiltinFn::Ones => make_filled(f, v, ONE),
        BuiltinFn::Transpose => match tensor_of_rank(v, "transpose", 2) {
            Ok(t) => Ok(Value::Tensor(Rc::new(t.transpose()))),
            Err(e) => Err(e),
        },
        BuiltinFn::Abs => match v {
            Value::Int(n) => if *n == i64::MIN {
                Err(EvalError::IntegerOverflow)
            } else if *n < 0 {
                Ok(Value::Int(-*n))
            } else {
                Ok(Value::Int(*n))
            },
            Value::Float(x) => Ok(Value::Float(unary(f, UnaryOp::Abs, *x))),
            Value::Tensor(t) => Ok(Value::Tensor(Rc::new(t.map(f, UnaryOp::Abs)))),
            other => Err(type_mismatch("数値またはテンソル", other)),
        },
        BuiltinFn::MaxVal => find_extreme(f, BinaryOp::Max, v, "max: 空のテンソル"),
        BuiltinFn::MinVal => find_extreme(f, BinaryOp::Min, v, "min: 空のテンソル"),
        BuiltinFn::Flatten => match tensor_of_rank(v, "flatten", 2) {
            Ok(t) => Ok(Value::Tensor(Rc::new(t.flatten()))),
            Err(e) => Err(e),
        },
        BuiltinFn::Norm => match coerce_to_tensor(v) {
            Ok(t) => {
                let squares: Tensor = t.scalar_last(f, BinaryOp::Pow, TWO);
                let all: u64 = sum_of(f, squares.data());
                Ok(Value::Float(unary(f, UnaryOp::Sqrt, all)))
            },
            Err(e) => Err(e),
        },
        BuiltinFn::Softmax => apply_softmax(f, v, tapes),
        _ => Err(EvalError::ArityMismatch),
    }
}

fn apply_reshape<F: Fn(Query) -> Vec<u64>>(f: &F, v: &Value, s: &Value) -> (r: Result<
    Value,
    EvalError,
>)
    requires
        is_arithmetic(f),
    ensures
        result_is(r, reshape_value(meaning(f), v@, s@)),
{
    let t: Rc<Tensor> = match coerce_to_tensor(v) {
        Ok(t) => t,
        Err(e) => {
            return Err(e);
        },
    };
    let shape: Vec<usize> = match extract_shape(f, s) {
        Ok(shape) => shape,
        Err(e) => {
            return Err(e);
        },
    };
    let fits: bool = match size_of_shape(&shape) {
        Some(size) => size == t.len(),
        None => false,
    };
    if fits {
        Ok(Value::Tensor(Rc::new(t.reshaped(shape))))
    } else {
        Err(
            EvalError::TensorShapeMismatch { op: "reshape", a: copy_sizes(t.shape()), b: shape },
        )
    }
}

fn apply_concat(v: &Value, w: &Value) -> (r: Result<Value, EvalError>)
    ensures
        result_is(r, concat_value(v@, w@)),
{
    match tensor_of_rank(v, "concat", 1) {
        Ok(a) => match tensor_of_rank(w, "concat", 1) {
            Ok(b) => match a.len().checked_add(b.len()) {
                Some(_) => Ok(Value::Tensor(Rc::new(a.join(&b)))),
                None => Err(EvalError::InvalidArgument("shape が大きすぎます".to_owned())),
            },
            Err(e) => Err(e),
        },
        Err(e) => Err(e),
    }
}

fn clip_number<F: Fn(Query) -> Vec<u64>>(f: &F, lo: u64, hi: u64, x: u64) -> (y: u64)
    requires
        is_arithmetic(f),
    ensures
        y == clipped(meaning(f), lo, hi, x),
{
    binary(f, BinaryOp::Min, binary(f, BinaryOp::Max, x, lo), hi)
}

fn apply_clip<F: Fn(Query) -> Vec<u64>>(f: &F, lo: &Value, hi: &Value, v: &Value) -> (r: Result<
    Value,
    EvalError,
>)
    requires
        is_arithmetic(f),
    ensures
        result_is(r, clip_value(meaning(f), lo@, hi@, v@)),
{
    let lo: u64 = match coerce_to_float(f, lo) {
        Ok(x) => x,
        Err(e) => {
            return Err(e);
        },
    };
    let hi: u64 = match coerce_to_float(f, hi) {
        Ok(x) => x,
        Err(e) => {
            return Err(e);
        },
    };
    match v {
        Value::Float(x) => Ok(Value::Float(clip_number(f, lo, hi, *x))),
        Value::Int(n) => Ok(Value::Float(clip_number(f, lo, hi, float_of_int(f, *n)))),
        Value::Tensor(t) => {
            let xs: &Vec<u64> = t.data();
            let ghost goal = Seq::new(xs@.len(), |i: int| clipped(meaning(f), lo, hi, xs@[i]));
            let mut data: Vec<u64> = Vec::new();
            let mut i: usize = 0;
            while i < xs.len()
                invariant
                    is_arithmetic(f),
                    goal == Seq::new(xs@.len(), |i: int| clipped(meaning(f), lo, hi, xs@[i])),
                    i <= xs.len(),
                    data@ == goal.take(i as int),
                decreases xs.len() - i,
            {
                data.push(clip_number(f, lo, hi, xs[i]));
                i = i + 1;
                assert(data@ =~= goal.take(i as int));
            }
            assert(data@ =~= goal);
            Ok(Value::Tensor(Rc::new(Tensor::made(copy_sizes(t.shape()), data))))
        },
        other => Err(type_mismatch("数値またはテンソル", other)),
    }
}

/// A derivative as a value: a tensor by a tensor, a number by a number.
fn make_grad_output(x: &Value, g: Tensor) -> (v: Value)
    ensures
        v@ == grad_output(x@, g@),
{
    match x {
        Value::Tensor(_) => Value::Tensor(Rc::new(g)),
        _ => {
            let data: &Vec<u64> = g.data();
            if data.len() > 0 {
                Value::Float(data[0])
            } else {
                Value::Float(ZERO)
            }
        },
    }
}

/// The derivative by the first node of the innermost tape, when the function
/// has given `y`.
fn finish_grad<F: Fn(Query) -> Vec<u64>>(
    f: &F,
    x: &Value,
    input: &Tensor,
    y: &Value,
    tapes: &Tapes,
) -> (r: Result<Value, EvalError>)
    requires
        is_arithmetic(f),
        tapes_ok(tapes@),
    ensures
        result_is(r, grad_result(meaning(f), x@, input@, y@, tapes@)),
{
    match y {
        Value::Traced(id) => {
            if !is_on_tape(tapes, *id) {
                return Err(off_tape_error());
            }
            let grads: Vec<Tensor> = backward(f, tapes, *id);
            assert(tensors_of(grads@)[0] == grads@[0]@);
            Ok(make_grad_output(x, grads[0].clone()))
        },
        Value::Int(_) | Value::Float(_) | Value::Tensor(_) => Ok(
            make_grad_output(x, input.filled_like(ZERO)),
        ),
        other => Err(type_mismatch("数値またはテンソル", other)),
    }
}

// Expressions

/// The value of an expression. `depth` is how deep calls may still nest.
pub fn eval<F: Fn(Query) -> Vec<u64>>(
    f: &F,
    expr: &Expr,
    env: &Env,
    globals: &Globals,
    depth: usize,
    tapes: &mut Tapes,
) -> (out: Result<Value, EvalError>)
    requires
        is_arithmetic(f),
        tapes_ok(old(tapes)@),
    ensures
        tapes_ok(final(tapes)@),
        final(tapes)@.len() == old(tapes)@.len(),
        outcome_is(
            out,
            final(tapes)@,
            eval_model(meaning(f), expr@, scope(env@, globals@), depth as nat, old(tapes)@),
        ),
    decreases depth, 3int, expr, 0int,
{
    match expr {
        Expr::Lit(Literal::Int(n)) => Ok(Value::Int(*n)),
        Expr::Lit(Literal::Float(s)) => Ok(Value::Float(parse_float(f, s.as_str()))),
        Expr::Lit(Literal::Bool(b)) => Ok(Value::Bool(*b)),
        Expr::Var(name) => match env.lookup(globals, name.as_str()) {
            Some(v) => Ok(v),
            None => Err(EvalError::UnboundVariable(name.clone())),
        },
        Expr::UnaryMinus(x) => match eval(f, x, env, globals, depth, tapes) {
            Ok(v) => negate(f, &v, tapes),
            Err(e) => Err(e),
        },
        Expr::BinOp { op, left, right } => {
            let l: Value = match eval(f, left, env, globals, depth, tapes) {
                Ok(v) => v,
                Err(e) => {
                    return Err(e);
                },
            };
            let r: Value = match eval(f, right, env, globals, depth, tapes) {
                Ok(v) => v,
                Err(e) => {
                    return Err(e);
                },
            };
            eval_binop(f, *op, &l, &r, tapes)
        },
        Expr::App(func, arg) => {
            let g: Value = match eval(f, func, env, globals, depth, tapes) {
                Ok(v) => v,
                Err(e) => {
                    return Err(e);
                },
            };
            let a: Value = match eval(f, arg, env, globals, depth, tapes) {
                Ok(v) => v,
                Err(e) => {
                    return Err(e);
                },
            };
            apply(f, &g, a, globals, depth, tapes)
        },
        Expr::Pipe(arg, func) => {
            let a: Value = match eval(f, arg, env, globals, depth, tapes) {
                Ok(v) => v,
                Err(e) => {
                    return Err(e);
                },
            };
            let g: Value = match eval(f, func, env, globals, depth, tapes) {
                Ok(v) => v,
                Err(e) => {
                    return Err(e);
                },
            };
            apply(f, &g, a, globals, depth, tapes)
        },
        Expr::Lambda { param, body } => Ok(
            Value::Closure(
                Closure {
                    param: param.clone(),
                    body: Rc::new((**body).clone()),
                    env: crate::value::share_locals(&env.locals),
                },
            ),
        ),
        Expr::Let { name, params, value, body } => {
            let v: Value = if params.len() == 0 {
                match eval(f, value, env, globals, depth, tapes) {
                    Ok(v) => v,
                    Err(e) => {
                        return Err(e);
                    },
                }
            } else {
                make_function(params, value, &env.locals)
            };
            let inner: Env = env.extend(name.clone(), v);
            eval(f, body, &inner, globals, depth, tapes)
        },
        Expr::If { cond, then, else_ } => match eval(f, cond, env, globals, depth, tapes) {
            Ok(Value::Bool(true)) => eval(f, then, env, globals, depth, tapes),
            Ok(Value::Bool(false)) => eval(f, else_, env, globals, depth, tapes),
            Ok(other) => Err(type_mismatch("Bool", &other)),
            Err(e) => Err(e),
        },
        Expr::TensorLit(rows) => eval_tensor_lit(f, rows, env, globals, depth, tapes),
    }
}

/// The tensor of a literal.
pub fn eval_tensor_lit<F: Fn(Query) -> Vec<u64>>(
    f: &F,
    rows: &Vec<Vec<Expr>>,
    env: &Env,
    globals: &Globals,
    depth: usize,
    tapes: &mut Tapes,
) -> (out: Result<Value, EvalError>)
    requires
        is_arithmetic(f),
        tapes_ok(old(tapes)@),
    ensures
        tapes_ok(final(tapes)@),
        final(tapes)@.len() == old(tapes)@.len(),
        outcome_is(
            out,
            final(tapes)@,
            eval_model(
                meaning(f),
                Expr::TensorLit(*rows)@,
                scope(env@, globals@),
                depth as nat,
                old(tapes)@,
            ),
        ),
    decreases depth, 3int, rows, 0int,
{
    let ghost m = meaning(f);
    let ghost model = rows_of(rows@);
    let ghost start = tapes@;
    let n: usize = rows.len();
    proof {
        lemma_tensor_lit_view(*rows);
        if n > 0 {
            assert(model[0] == row_of(rows@[0]@));
        }
    }
    if n == 0 || (n == 1 && rows[0].len() == 0) {
        let data: Vec<u64> = Vec::new();
        let t: Tensor = Tensor::vector(data);
        proof {
            assert(t@.data =~= Seq::<u64>::empty());
        }
        return Ok(Value::Tensor(Rc::new(t)));
    }
    let mut data: Vec<u64> = Vec::new();
    let cols: usize = rows[0].len();
    let mut uniform: bool = true;
    let mut i: usize = 0;
    proof {
        assert(data@ =~= Seq::<u64>::empty());
        assert(0 * cols == 0) by (nonlinear_arith);
    }
    while i < n
        invariant
            is_arithmetic(f),
            m == meaning(f),
            model == rows_of(rows@),
            start == old(tapes)@,
            tapes_ok(tapes@),
            tapes@.len() == start.len(),
            n == rows.len(),
            n > 0,
            cols == model[0].len(),
            i <= n,
            uniform == (forall|k: int| 0 <= k < i ==> (#[trigger] model[k]).len() == cols),
            uniform ==> data@.len() == i * cols,
            eval_rows(m, model, i as nat, scope(env@, globals@), depth as nat, start) == (
                Ok::<Seq<u64>, EvalErrorView>(data@),
                tapes@,
            ),
            Expr::TensorLit(*rows)@ == ExprView::TensorLit(model),
            !(n == 1 && cols == 0),
        decreases n - i,
    {
        assert(model[i as int] == row_of(rows@[i as int]@));
        let cells: Vec<u64> = match eval_cells(f, &rows[i], env, globals, depth, tapes) {
            Ok(cells) => cells,
            Err(e) => {
                proof {
                    lemma_rows_error(
                        m,
                        model,
                        (i + 1) as nat,
                        n as nat,
                        scope(env@, globals@),
                        depth as nat,
                        start,
                    );
                }
                return Err(e);
            },
        };
        proof {
            lemma_row_len(
                m,
                model[i as int],
                model[i as int].len(),
                scope(env@, globals@),
                depth as nat,
                tapes@,
            );
        }
        append_words(&mut data, &cells);
        if rows[i].len() != cols {
            uniform = false;
        }
        proof {
            assert(i * cols + cols == (i + 1) * cols) by (nonlinear_arith);
            lemma_row_len(
                m,
                model[i as int],
                model[i as int].len(),
                scope(env@, globals@),
                depth as nat,
                eval_rows(m, model, i as nat, scope(env@, globals@), depth as nat, start).1,
            );
        }
        i = i + 1;
    }
    assert(uniform == is_uniform(model));
    if !uniform {
        return Err(EvalError::TensorNonUniform);
    }
    let mut shape: Vec<usize> = Vec::new();
    if n == 1 {
        shape.push(cols);
        proof {
            assert(shape@ =~= seq![cols]);
            crate::tensor::lemma_rank_one(shape@);
            assert(1 * cols == cols) by (nonlinear_arith);
        }
    } else {
        shape.push(n);
        shape.push(cols);
        proof {
            assert(shape@ =~= seq![n, cols]);
            crate::tensor::lemma_rank_two(shape@);
        }
    }
    Ok(Value::Tensor(Rc::new(Tensor::made(shape, data))))
}

/// There are as many elements as expressions.
pub proof fn lemma_row_len(
    m: Arith,
    row: Seq<ExprView>,
    n: nat,
    env: EnvView,
    depth: nat,
    tapes: TapesView,
)
    requires
        n <= row.len(),
    ensures
        eval_row(m, row, n, env, depth, tapes).0 matches Ok(cells) ==> cells.len() == n,
    decreases n,
{
    if n > 0 {
        lemma_row_len(m, row, (n - 1) as nat, env, depth, tapes);
    }
}

fn append_words(out: &mut Vec<u64>, more: &Vec<u64>)
    ensures
        final(out)@ == old(out)@ + more@,
{
    let ghost start = out@;
    let mut i: usize = 0;
    assert(out@ =~= start + more@.take(0));
    while i < more.len()
        invariant
            i <= more.len(),
            out@ == start + more@.take(i as int),
        decreases more.len() - i,
    {
        out.push(more[i]);
        i = i + 1;
        assert(out@ =~= start + more@.take(i as int));
    }
    assert(more@.take(more@.len() as int) =~= more@);
}

/// The elements of one row.
fn eval_cells<F: Fn(Query) -> Vec<u64>>(
    f: &F,
    row: &Vec<Expr>,
    env: &Env,
    globals: &Globals,
    depth: usize,
    tapes: &mut Tapes,
) -> (out: Result<Vec<u64>, EvalError>)
    requires
        is_arithmetic(f),
        tapes_ok(old(tapes)@),
    ensures
        tapes_ok(final(tapes)@),
        final(tapes)@.len() == old(tapes)@.len(),
        ({
            let model = eval_row(
                meaning(f),
                row_of(row@),
                row@.len(),
                scope(env@, globals@),
                depth as nat,
                old(tapes)@,
            );
            &&& final(tapes)@ == model.1
            &&& match model.0 {
                Ok(cells) => out matches Ok(x) && x@ == cells,
                Err(e) => out matches Err(x) && x@ == e,
            }
        }),
    decreases depth, 3int, row, 0int,
{
    let ghost m = meaning(f);
    let ghost model = row_of(row@);
    let ghost start = tapes@;
    let mut out: Vec<u64> = Vec::new();
    let mut j: usize = 0;
    assert(out@ =~= Seq::<u64>::empty());
    while j < row.len()
        invariant
            is_arithmetic(f),
            m == meaning(f),
            model == row_of(row@),
            start == old(tapes)@,
            tapes_ok(tapes@),
            tapes@.len() == start.len(),
            j <= row.len(),
            eval_row(m, model, j as nat, scope(env@, globals@), depth as nat, start) == (
                Ok::<Seq<u64>, EvalErrorView>(out@),
                tapes@,
            ),
        decreases row.len() - j,
    {
        assert(model[j as int] == row@[j as int]@);
        let v: Value = match eval(f, &row[j], env, globals, depth, tapes) {
            Ok(v) => v,
            Err(e) => {
                proof {
                    lemma_row_error(
                        m,
                        model,
                        (j + 1) as nat,
                        row@.len(),
                        scope(env@, globals@),
                        depth as nat,
                        start,
                    );
                }
                return Err(e);
            },
        };
        match coerce_to_float(f, &v) {
            Ok(x) => {
                out.push(x);
            },
            Err(e) => {
                proof {
                    lemma_row_error(
                        m,
                        model,
                        (j + 1) as nat,
                        row@.len(),
                        scope(env@, globals@),
                        depth as nat,
                        start,
                    );
                }
                return Err(e);
            },
        }
        j = j + 1;
    }
    Ok(out)
}

/// The value of a function on an argument.
fn apply<F: Fn(Query) -> Vec<u64>>(
    f: &F,
    func: &Value,
    arg: Value,
    globals: &Globals,
    depth: usize,
    tapes: &mut Tapes,
) -> (out: Result<Value, EvalError>)
    requires
        is_arithmetic(f),
        tapes_ok(old(tapes)@),
    ensures
        tapes_ok(final(tapes)@),
        final(tapes)@.len() == old(tapes)@.len(),
        outcome_is(
            out,
            final(tapes)@,
            apply_model(
                meaning(f),
                func@,
                arg@,
                globals@,
                depth as nat,
                old(tapes)@,
            ),
        ),
    decreases depth, 2int, func, 0int,
{
    match func {
        Value::Closure(c) => {
            if depth == 0 {
                return Err(EvalError::CallDepth);
            }
            let inner: Env = Env::with_locals(&c.env).extend(c.param.clone(), arg);
            eval(f, &c.body, &inner, globals, depth - 1, tapes)
        },
        Value::Builtin(b) => if builtin_arity(*b) == 1 {
            apply_builtin(f, *b, &arg, tapes)
        } else {
            let mut args: Vec<Value> = Vec::new();
            let ghost model = arg@;
            args.push(arg);
            proof {
                lemma_partial_view(*b, args);
                assert(values_of(args@) =~= seq![model]);
            }
            Ok(Value::PartialBuiltin(*b, args))
        },
        Value::PartialBuiltin(b, old_args) => {
            let mut args: Vec<Value> = clone_values(old_args);
            let ghost before = values_of(args@);
            let ghost model = arg@;
            proof {
                lemma_partial_view(*b, *old_args);
                assert(before.len() == args@.len());
            }
            args.push(arg);
            assert(values_of(args@) =~= before.push(model));
            if args.len() == builtin_arity(*b) {
                apply_many(f, *b, &args, globals, depth, tapes)
            } else {
                proof {
                    lemma_partial_view(*b, args);
                }
                Ok(Value::PartialBuiltin(*b, args))
            }
        },
        other => Err(type_mismatch("関数", other)),
    }
}

/// A built-in function of several arguments that has them all.
fn apply_many<F: Fn(Query) -> Vec<u64>>(
    f: &F,
    b: BuiltinFn,
    args: &Vec<Value>,
    globals: &Globals,
    depth: usize,
    tapes: &mut Tapes,
) -> (out: Result<Value, EvalError>)
    requires
        is_arithmetic(f),
        tapes_ok(old(tapes)@),
        args.len() == arity(b),
    ensures
        tapes_ok(final(tapes)@),
        final(tapes)@.len() == old(tapes)@.len(),
        outcome_is(
            out,
            final(tapes)@,
            builtin_many(
                meaning(f),
                b,
                values_of(args@),
                globals@,
                depth as nat,
                old(tapes)@,
            ),
        ),
    decreases depth, 1int, args, 0int,
{
    match b {
        BuiltinFn::Reshape => apply_reshape(f, &args[0], &args[1]),
        BuiltinFn::Concat => apply_concat(&args[0], &args[1]),
        BuiltinFn::Clip => apply_clip(f, &args[0], &args[1], &args[2]),
        BuiltinFn::Grad => apply_grad(f, &args[0], &args[1], globals, depth, tapes),
        BuiltinFn::Iterate => match &args[1] {
            Value::Int(n) => {
                if depth == 0 {
                    return Err(EvalError::CallDepth);
                }
                let times: u64 = if *n > 0 {
                    *n as u64
                } else {
                    0
                };
                apply_iterate(f, &args[2], &args[0], times, globals, depth - 1, tapes)
            },
            other => Err(type_mismatch("Int", other)),
        },
        _ => Err(EvalError::ArityMismatch),
    }
}

/// The derivative of a function at a number or tensor.
fn apply_grad<F: Fn(Query) -> Vec<u64>>(
    f: &F,
    func: &Value,
    x: &Value,
    globals: &Globals,
    depth: usize,
    tapes: &mut Tapes,
) -> (out: Result<Value, EvalError>)
    requires
        is_arithmetic(f),
        tapes_ok(old(tapes)@),
    ensures
        tapes_ok(final(tapes)@),
        final(tapes)@.len() == old(tapes)@.len(),
        outcome_is(
            out,
            final(tapes)@,
            grad_model(meaning(f), func@, x@, globals@, depth as nat, old(tapes)@),
        ),
    decreases depth, 0int, func, 0int,
{
    let input: Rc<Tensor> = match x {
        Value::Int(n) => Rc::new(Tensor::scalar(float_of_int(f, *n))),
        Value::Float(v) => Rc::new(Tensor::scalar(*v)),
        Value::Tensor(t) => Rc::clone(t),
        other => {
            return Err(type_mismatch("数値またはテンソル", other));
        },
    };
    if depth == 0 {
        return Err(EvalError::CallDepth);
    }
    tape_begin(tapes);
    let id: usize = leaf(tapes, Rc::clone(&input));
    let y: Result<Value, EvalError> = apply(f, func, Value::Traced(id), globals, depth - 1, tapes);
    let out: Result<Value, EvalError> = match y {
        Ok(y) => finish_grad(f, x, &input, &y, tapes),
        Err(e) => Err(e),
    };
    tape_end(tapes);
    out
}

/// `v` after `n` applications of `step`.
fn apply_iterate<F: Fn(Query) -> Vec<u64>>(
    f: &F,
    step: &Value,
    v: &Value,
    n: u64,
    globals: &Globals,
    depth: usize,
    tapes: &mut Tapes,
) -> (out: Result<Value, EvalError>)
    requires
        is_arithmetic(f),
        tapes_ok(old(tapes)@),
    ensures
        tapes_ok(final(tapes)@),
        final(tapes)@.len() == old(tapes)@.len(),
        outcome_is(
            out,
            final(tapes)@,
            iterate_model(
                meaning(f),
                step@,
                v@,
                n as nat,
                globals@,
                depth as nat,
                old(tapes)@,
            ),
        ),
    decreases depth, 4int, step, n,
{
    let ghost m = meaning(f);
    let ghost start = tapes@;
    let mut current: Value = v.clone();
    let mut k: u64 = 0;
    while k < n
        invariant
            is_arithmetic(f),
            m == meaning(f),
            start == old(tapes)@,
            tapes_ok(tapes@),
            tapes@.len() == start.len(),
            k <= n,
            iterate_model(m, step@, v@, k as nat, globals@, depth as nat, start) == (
                Ok::<ValueView, EvalErrorView>(current@),
                tapes@,
            ),
        decreases n - k,
    {
        match apply(f, step, current, globals, depth, tapes) {
            Ok(next) => {
                current = next;
            },
            Err(e) => {
                proof {
                    lemma_iterate_error(
                        m,
                        step@,
                        v@,
                        (k + 1) as nat,
                        n as nat,
                        globals@,
                        depth as nat,
                        start,
                    );
                }
                return Err(e);
            },
        }
        k = k + 1;
    }
    Ok(current)
}

// Programs

/// Defines the built-in functions under their names.
fn load_builtins(globals: &mut Globals)
    ensures
        final(globals)@ == with_builtins(old(globals)@),
{
    Env::define_global(globals, "sum".to_owned(), Value::Builtin(BuiltinFn::Sum));
    Env::define_global(globals, "mean".to_owned(), Value::Builtin(BuiltinFn::Mean));
    Env::define_global(globals, "exp".to_owned(), Value::Builtin(BuiltinFn::Exp));
    Env::define_global(globals, "log".to_owned(), Value::Builtin(BuiltinFn::Log));
    Env::define_global(globals, "tanh".to_owned(), Value::Builtin(BuiltinFn::Tanh));
    Env::define_global(globals, "sqrt".to_owned(), Value::Builtin(BuiltinFn::Sqrt));
    Env::define_global(globals, "zeros".to_owned(), Value::Builtin(BuiltinFn::Zeros));
    Env::define_global(globals, "ones".to_owned(), Value::Builtin(BuiltinFn::Ones));
    Env::define_global(globals, "transpose".to_owned(), Value::Builtin(BuiltinFn::Transpose));
    Env::define_global(globals, "reshape".to_owned(), Value::Builtin(BuiltinFn::Reshape));
    Env::define_global(globals, "grad".to_owned(), Value::Builtin(BuiltinFn::Grad));
    Env::define_global(globals, "iterate".to_owned(), Value::Builtin(BuiltinFn::Iterate));
    Env::define_global(globals, "abs".to_owned(), Value::Builtin(BuiltinFn::Abs));
    Env::define_global(globals, "max".to_owned(), Value::Builtin(BuiltinFn::MaxVal));
    Env::define_global(globals, "min".to_owned(), Value::Builtin(BuiltinFn::MinVal));
    Env::define_global(globals, "concat".to_owned(), Value::Builtin(BuiltinFn::Concat));
    Env::define_global(globals, "flatten".to_owned(), Value::Builtin(BuiltinFn::Flatten));
    Env::define_global(globals, "norm".to_owned(), Value::Builtin(BuiltinFn::Norm));
    Env::define_global(globals, "clip".to_owned(), Value::Builtin(BuiltinFn::Clip));
    Env::define_global(globals, "softmax".to_owned(), Value::Builtin(BuiltinFn::Softmax));
}

/// The top-level scope of a program: the functions first, then the values in
/// their order.
pub fn build_global_env<F: Fn(Query) -> Vec<u64>>(f: &F, program: &Program, depth: usize) -> (r: Result<
    Globals,
    EvalError,
>)
    requires
        is_arithmetic(f),
    ensures
        match program_globals(meaning(f), items_of(program@), depth as nat) {
            Ok(model) => r matches Ok(globals) && globals@ == model,
            Err(e) => r matches Err(x) && x@ == e,
        },
{
    let ghost m = meaning(f);
    let ghost items = items_of(program@);
    let mut globals: Globals = Globals::empty();
    load_builtins(&mut globals);
    let ghost base = globals@;
    let n: usize = program.len();
    let mut i: usize = 0;
    while i < n
        invariant
            n == program.len(),
            items == items_of(program@),
            i <= n,
            globals@ == functions_defined(items, i as nat, base),
        decreases n - i,
    {
        assert(items[i as int] == program@[i as int]@);
        match &program[i] {
            TopLevel::Binding { name, params, body } => {
                if params.len() > 0 {
                    let v: Value = make_function(params, body, &None);
                    Env::define_global(&mut globals, name.clone(), v);
                }
            },
            TopLevel::TypeAnnotation { .. } => {},
        }
        i = i + 1;
    }
    let ghost functions = globals@;
    i = 0;
    while i < n
        invariant
            is_arithmetic(f),
            m == meaning(f),
            n == program.len(),
            items == items_of(program@),
            functions == functions_defined(items, n as nat, base),
            base == with_builtins(Map::empty()),
            i <= n,
            values_defined(m, items, i as nat, functions, depth as nat) == Ok::<
                GlobalsView,
                EvalErrorView,
            >(globals@),
        decreases n - i,
    {
        assert(items[i as int] == program@[i as int]@);
        match &program[i] {
            TopLevel::Binding { name, params, body } => {
                if params.len() == 0 {
                    let mut tapes: Tapes = Tapes { stack: Vec::new() };
                    assert(tapes@ =~= Seq::empty());
                    let env: Env = Env::empty();
                    match eval(f, body, &env, &globals, depth, &mut tapes) {
                        Ok(v) => {
                            Env::define_global(&mut globals, name.clone(), v);
                        },
                        Err(e) => {
                            proof {
                                lemma_values_error(
                                    m,
                                    items,
                                    (i + 1) as nat,
                                    n as nat,
                                    functions,
                                    depth as nat,
                                );
                            }
                            return Err(e);
                        },
                    }
                }
            },
            TopLevel::TypeAnnotation { .. } => {},
        }
        i = i + 1;
    }
    Ok(globals)
}

/// The value of a program: that of `main`. `depth` is how deep calls may nest.
pub fn eval_program<F: Fn(Query) -> Vec<u64>>(f: &F, program: &Program, depth: usize) -> (r: Result<
    Value,
    EvalError,
>)
    requires
        is_arithmetic(f),
    ensures
        result_is(r, program_value(meaning(f), items_of(program@), depth as nat)),
{
    match build_global_env(f, program, depth) {
        Ok(globals) => match Env::empty().lookup(&globals, "main") {
            Some(v) => Ok(v),
            None => Err(EvalError::NoMain),
        },
        Err(e) => Err(e),
    }
}

} // verus!
