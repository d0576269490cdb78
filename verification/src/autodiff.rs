//! Reverse-mode differentiation on a tape.
//!
//! While a function is differentiated, each operation adds a node to a tape:
//! its value, and which nodes it was computed from. Walking the tape from its
//! end to its start then gives the derivative of the output by every node.
//! Tapes are kept on a stack, so that differentiations can nest. A scalar is
//! a tensor without dimensions.

use crate::ast::BinOpKind;
use crate::num::{
    bin, binary, float_of_int, from_int, holds, is_arithmetic, mat_mul, mat_vec, matrix_product,
    matrix_vector_product, meaning, related, sum_of, total, un, unary, Arith, BinaryOp, Query,
    Relation, UnaryOp, HALF, ONE, ZERO,
};
use crate::tensor::{
    copy_sizes, filled, is_shape, left_scalar, lemma_product_empty, lemma_product_two,
    lemma_rank_one, lemma_rank_two, map_elements, product, right_scalar, same_shape, scalar_tensor,
    size_of_shape, transposed, zip_elements, Tensor, TensorView,
};
use crate::text::{decimal, push_decimal};
use crate::value::{EvalError, EvalErrorView};
use std::rc::Rc;
use vstd::prelude::*;

verus! {

/// How a node was computed, and from which nodes.
#[derive(Debug, Clone, Copy, PartialEq, Eq, Structural)]
pub enum Op {
    /// An input or a constant.
    Leaf,
    Add(usize, usize),
    Sub(usize, usize),
    Mul(usize, usize),
    Div(usize, usize),
    Pow(usize, usize),
    MatMul(usize, usize),
    Neg(usize),
    Exp(usize),
    Log(usize),
    Tanh(usize),
    Sqrt(usize),
    Sum(usize),
    Mean(usize),
}

#[derive(Debug)]
pub struct Node {
    pub value: Rc<Tensor>,
    pub op: Op,
}

#[derive(Debug)]
pub struct Tape {
    pub nodes: Vec<Node>,
}

/// The tapes of the differentiations under way, the innermost last.
#[derive(Debug)]
pub struct Tapes {
    pub stack: Vec<Tape>,
}

#[verifier::ext_equal]
pub struct NodeView {
    pub value: TensorView,
    pub op: Op,
}

pub type TapeView = Seq<NodeView>;

pub type TapesView = Seq<TapeView>;

impl View for Node {
    type V = NodeView;

    open spec fn view(&self) -> NodeView {
        NodeView { value: (*self.value)@, op: self.op }
    }
}

impl View for Tape {
    type V = TapeView;

    open spec fn view(&self) -> TapeView {
        Seq::new(self.nodes@.len(), |i: int| self.nodes@[i]@)
    }
}

impl View for Tapes {
    type V = TapesView;

    open spec fn view(&self) -> TapesView {
        Seq::new(self.stack@.len(), |i: int| self.stack@[i]@)
    }
}

/// The model of a list of tensors.
pub open spec fn tensors_of(v: Seq<Tensor>) -> Seq<TensorView> {
    Seq::new(v.len(), |i: int| v[i]@)
}

// ---------------------------------------------------------------------------
// Values of operations
// ---------------------------------------------------------------------------

/// The shape of what an elementwise operation gives, where it gives anything:
/// a scalar goes with every shape.
pub open spec fn pair_shape(a: Seq<usize>, b: Seq<usize>) -> Option<Seq<usize>> {
    if a.len() == 0 {
        Some(b)
    } else if b.len() == 0 {
        Some(a)
    } else if a == b {
        Some(a)
    } else {
        None
    }
}

/// `op` on the elements of two tensors, a scalar standing for every element.
pub open spec fn combined(m: Arith, op: BinaryOp, a: TensorView, b: TensorView) -> TensorView {
    if a.rank() == 0 {
        left_scalar(m, op, a.data[0], b)
    } else if b.rank() == 0 {
        right_scalar(m, op, a, b.data[0])
    } else {
        zip_elements(m, op, a, b)
    }
}

/// How an operator is written in messages.
pub open spec fn op_symbol(op: BinOpKind) -> Seq<char> {
    match op {
        BinOpKind::Add => "+"@,
        BinOpKind::Sub => "-"@,
        BinOpKind::Mul => "*"@,
        BinOpKind::Div => "/"@,
        BinOpKind::Pow => "^"@,
        BinOpKind::MatMul => "@"@,
        BinOpKind::Eq => "=="@,
        BinOpKind::Ne => "!="@,
        BinOpKind::Lt => "<"@,
        BinOpKind::Le => "<="@,
        BinOpKind::Gt => ">"@,
        BinOpKind::Ge => ">="@,
    }
}

/// The arithmetic behind an elementwise operator.
pub open spec fn elementwise(op: BinOpKind) -> Option<BinaryOp> {
    match op {
        BinOpKind::Add => Some(BinaryOp::Add),
        BinOpKind::Sub => Some(BinaryOp::Sub),
        BinOpKind::Mul => Some(BinaryOp::Mul),
        BinOpKind::Div => Some(BinaryOp::Div),
        BinOpKind::Pow => Some(BinaryOp::Pow),
        _ => None,
    }
}

/// The message for operands of `@` whose ranks do not go together.
pub open spec fn matmul_ranks_text(a: nat, b: nat) -> Seq<char> {
    "@ は 2D×2D または 2D×1D のみ対応（"@ + decimal(a) + "D × "@ + decimal(b)
        + "D は未対応）"@
}

/// The product of two matrices, or of a matrix and a vector.
pub open spec fn matmul(m: Arith, a: TensorView, b: TensorView) -> Result<
    TensorView,
    EvalErrorView,
> {
    if a.rank() == 2 && (b.rank() == 2 || b.rank() == 1) {
        if a.shape[1] != b.shape[0] {
            Err(
                EvalErrorView::TensorShapeMismatch {
                    op: op_symbol(BinOpKind::MatMul),
                    a: a.shape,
                    b: b.shape,
                },
            )
        } else if b.rank() == 1 {
            Ok(
                TensorView {
                    shape: seq![a.shape[0]],
                    data: mat_vec(m, a.shape[0], a.shape[1], a.data, b.data),
                },
            )
        } else if is_shape(seq![a.shape[0], b.shape[1]]) {
            Ok(
                TensorView {
                    shape: seq![a.shape[0], b.shape[1]],
                    data: mat_mul(m, a.shape[0], a.shape[1], b.shape[1], a.data, b.data),
                },
            )
        } else {
            Err(EvalErrorView::InvalidArgument("@: 結果の shape が大きすぎます"@))
        }
    } else {
        Err(EvalErrorView::InvalidArgument(matmul_ranks_text(a.rank(), b.rank())))
    }
}

/// The node for an operator between two nodes.
pub open spec fn binop_node(m: Arith, op: BinOpKind, t: TapeView, a: usize, b: usize) -> Result<
    NodeView,
    EvalErrorView,
> {
    let av = t[a as int].value;
    let bv = t[b as int].value;
    match elementwise(op) {
        Some(k) => if pair_shape(av.shape, bv.shape) is Some {
            Ok(
                NodeView {
                    value: combined(m, k, av, bv),
                    op: match op {
                        BinOpKind::Add => Op::Add(a, b),
                        BinOpKind::Sub => Op::Sub(a, b),
                        BinOpKind::Mul => Op::Mul(a, b),
                        BinOpKind::Div => Op::Div(a, b),
                        _ => Op::Pow(a, b),
                    },
                },
            )
        } else {
            Err(
                EvalErrorView::TensorShapeMismatch {
                    op: op_symbol(op),
                    a: av.shape,
                    b: bv.shape,
                },
            )
        },
        None => if op == BinOpKind::MatMul {
            match matmul(m, av, bv) {
                Ok(value) => Ok(NodeView { value, op: Op::MatMul(a, b) }),
                Err(e) => Err(e),
            }
        } else {
            Err(EvalErrorView::InvalidArgument("比較演算子は微分できません"@))
        },
    }
}

/// How many elements there are, at least one, as a number.
pub open spec fn count(m: Arith, t: TensorView) -> u64 {
    from_int(
        m,
        if t.data.len() == 0 {
            1
        } else {
            t.data.len() as i64
        },
    )
}

// ---------------------------------------------------------------------------
// Tapes that make sense
// ---------------------------------------------------------------------------

/// A node refers only to earlier nodes, and its shape is the one that its
/// operation gives.
pub open spec fn node_ok(t: TapeView, i: int) -> bool {
    let shape = t[i].value.shape;
    &&& t[i].value.ok()
    &&& match t[i].op {
        Op::Leaf => true,
        Op::Add(a, b) | Op::Sub(a, b) | Op::Mul(a, b) | Op::Div(a, b) | Op::Pow(a, b) => {
            &&& a < i
            &&& b < i
            &&& pair_shape(t[a as int].value.shape, t[b as int].value.shape) == Some(shape)
        },
        Op::MatMul(a, b) => {
            let x = t[a as int].value.shape;
            let y = t[b as int].value.shape;
            &&& a < i
            &&& b < i
            &&& x.len() == 2
            &&& y.len() == 2 || y.len() == 1
            &&& x[1] == y[0]
            &&& y.len() == 2 ==> shape == seq![x[0], y[1]]
            &&& y.len() == 1 ==> shape == seq![x[0]]
        },
        Op::Neg(a) | Op::Exp(a) | Op::Log(a) | Op::Tanh(a) | Op::Sqrt(a) => {
            &&& a < i
            &&& shape == t[a as int].value.shape
        },
        Op::Sum(a) | Op::Mean(a) => {
            &&& a < i
            &&& shape == Seq::<usize>::empty()
        },
    }
}

pub open spec fn tape_ok(t: TapeView) -> bool {
    forall|i: int| 0 <= i < t.len() ==> #[trigger] node_ok(t, i)
}

pub open spec fn tapes_ok(ts: TapesView) -> bool {
    forall|i: int| 0 <= i < ts.len() ==> tape_ok(#[trigger] ts[i])
}

/// The tapes with one more node on the innermost.
pub open spec fn recorded(ts: TapesView, node: NodeView) -> TapesView {
    ts.drop_last().push(ts.last().push(node))
}

pub proof fn lemma_recorded_ok(ts: TapesView, node: NodeView)
    requires
        tapes_ok(ts),
        ts.len() > 0,
        node_ok(ts.last().push(node), ts.last().len() as int),
    ensures
        tapes_ok(recorded(ts, node)),
{
    let t = ts.last();
    let u = t.push(node);
    assert(tape_ok(ts[ts.len() - 1]));
    assert forall|i: int| 0 <= i < u.len() implies #[trigger] node_ok(u, i) by {
        if i < t.len() {
            assert(node_ok(t, i));
        }
    }
    assert forall|i: int| 0 <= i < recorded(ts, node).len() implies tape_ok(
        #[trigger] recorded(ts, node)[i],
    ) by {
        if i < ts.len() - 1 {
            assert(tape_ok(ts[i]));
        }
    }
}

// ---------------------------------------------------------------------------
// Derivatives
// ---------------------------------------------------------------------------

/// A derivative brought back to the shape of what it is by: where a scalar
/// stood for every element, the sum over them.
pub open spec fn reduced(m: Arith, g: TensorView, target: TensorView) -> TensorView {
    if g.shape == target.shape {
        g
    } else if target.rank() == 0 {
        scalar_tensor(total(m, g.data))
    } else if g.rank() == 0 {
        filled(target.shape, g.data[0])
    } else {
        g
    }
}

/// What a power `c` of `a` gains per unit of its exponent. There is a
/// logarithm only of what is positive.
pub open spec fn exponent_slope(m: Arith, c: u64, a: u64) -> u64 {
    if holds(m, Relation::Gt, a, ZERO) {
        bin(m, BinaryOp::Mul, c, un(m, UnaryOp::Log, a))
    } else {
        ZERO
    }
}

/// `exponent_slope` for every element; `c` has the shape of `a`, or `a` is a scalar.
pub open spec fn exponent_slopes(m: Arith, c: TensorView, a: TensorView) -> TensorView {
    TensorView {
        shape: c.shape,
        data: Seq::new(
            c.data.len(),
            |i: int|
                exponent_slope(
                    m,
                    c.data[i],
                    if a.rank() == 0 {
                        a.data[0]
                    } else {
                        a.data[i]
                    },
                ),
        ),
    }
}

/// The products of every element of `g` and every element of `v`.
pub open spec fn outer(m: Arith, g: Seq<u64>, v: Seq<u64>) -> Seq<u64> {
    Seq::new(
        g.len() * v.len(),
        |i: int| bin(m, BinaryOp::Mul, g[i / v.len() as int], v[i % v.len() as int]),
    )
}

/// What node `i`, whose derivative is `g`, adds to the derivatives of the
/// nodes that it was computed from: the chain rule.
pub open spec fn contributions(m: Arith, t: TapeView, i: int, g: TensorView) -> Seq<
    (usize, TensorView),
> {
    let c = t[i].value;
    match t[i].op {
        Op::Leaf => Seq::empty(),
        Op::Add(a, b) => seq![
            (a, reduced(m, g, t[a as int].value)),
            (b, reduced(m, g, t[b as int].value)),
        ],
        Op::Sub(a, b) => seq![
            (a, reduced(m, g, t[a as int].value)),
            (b, reduced(m, map_elements(m, UnaryOp::Neg, g), t[b as int].value)),
        ],
        Op::Mul(a, b) => {
            let x = t[a as int].value;
            let y = t[b as int].value;
            seq![
                (a, reduced(m, combined(m, BinaryOp::Mul, g, y), x)),
                (b, reduced(m, combined(m, BinaryOp::Mul, g, x), y)),
            ]
        },
        Op::Div(a, b) => {
            let x = t[a as int].value;
            let y = t[b as int].value;
            // x / y by y is -x / y^2.
            let slope = combined(
                m,
                BinaryOp::Div,
                map_elements(m, UnaryOp::Neg, x),
                combined(m, BinaryOp::Mul, y, y),
            );
            seq![
                (a, reduced(m, combined(m, BinaryOp::Div, g, y), x)),
                (b, reduced(m, combined(m, BinaryOp::Mul, g, slope), y)),
            ]
        },
        Op::Pow(a, b) => {
            let x = t[a as int].value;
            let y = t[b as int].value;
            // x^y by x is y x^(y-1), and by y it is x^y ln x.
            let base = combined(
                m,
                BinaryOp::Mul,
                y,
                combined(m, BinaryOp::Pow, x, right_scalar(m, BinaryOp::Sub, y, ONE)),
            );
            seq![
                (a, reduced(m, combined(m, BinaryOp::Mul, g, base), x)),
                (b, reduced(m, combined(m, BinaryOp::Mul, g, exponent_slopes(m, c, x)), y)),
            ]
        },
        Op::MatMul(a, b) => {
            let x = t[a as int].value;
            let y = t[b as int].value;
            let xt = transposed(x);
            if y.rank() == 2 {
                let yt = transposed(y);
                seq![
                    (
                        a,
                        TensorView {
                            shape: x.shape,
                            data: mat_mul(
                                m,
                                g.shape[0],
                                g.shape[1],
                                yt.shape[1],
                                g.data,
                                yt.data,
                            ),
                        },
                    ),
                    (
                        b,
                        TensorView {
                            shape: y.shape,
                            data: mat_mul(
                                m,
                                xt.shape[0],
                                xt.shape[1],
                                g.shape[1],
                                xt.data,
                                g.data,
                            ),
                        },
                    ),
                ]
            } else {
                seq![
                    (a, TensorView { shape: x.shape, data: outer(m, g.data, y.data) }),
                    (
                        b,
                        TensorView {
                            shape: y.shape,
                            data: mat_vec(m, xt.shape[0], xt.shape[1], xt.data, g.data),
                        },
                    ),
                ]
            }
        },
        Op::Neg(a) => seq![(a, map_elements(m, UnaryOp::Neg, g))],
        Op::Exp(a) => seq![(a, combined(m, BinaryOp::Mul, g, c))],
        Op::Log(a) => seq![(a, combined(m, BinaryOp::Div, g, t[a as int].value))],
        // tanh x by x is 1 - tanh^2 x.
        Op::Tanh(a) => seq![
            (
                a,
                combined(
                    m,
                    BinaryOp::Mul,
                    g,
                    left_scalar(m, BinaryOp::Sub, ONE, combined(m, BinaryOp::Mul, c, c)),
                ),
            ),
        ],
        // sqrt x by x is 1 / (2 sqrt x).
        Op::Sqrt(a) => seq![
            (a, combined(m, BinaryOp::Mul, g, left_scalar(m, BinaryOp::Div, HALF, c))),
        ],
        Op::Sum(a) => seq![(a, filled(t[a as int].value.shape, g.data[0]))],
        Op::Mean(a) => {
            let x = t[a as int].value;
            seq![(a, filled(x.shape, bin(m, BinaryOp::Div, g.data[0], count(m, x))))]
        },
    }
}

/// The derivatives with contributions added to them.
pub open spec fn added(m: Arith, grads: Seq<TensorView>, cs: Seq<(usize, TensorView)>) -> Seq<
    TensorView,
>
    decreases cs.len(),
{
    if cs.len() == 0 {
        grads
    } else {
        let before = added(m, grads, cs.drop_last());
        let (to, c) = cs.last();
        before.update(to as int, zip_elements(m, BinaryOp::Add, before[to as int], c))
    }
}

/// The derivatives when the nodes below `i` are still to be walked.
pub open spec fn walked(m: Arith, t: TapeView, i: int, grads: Seq<TensorView>) -> Seq<TensorView>
    decreases i,
{
    if i <= 0 {
        grads
    } else {
        walked(m, t, i - 1, added(m, grads, contributions(m, t, i - 1, grads[i - 1])))
    }
}

/// The derivatives before the walk: one by the output itself, else nothing.
pub open spec fn seeds(t: TapeView, output: int) -> Seq<TensorView> {
    Seq::new(
        t.len(),
        |i: int|
            filled(
                t[i].value.shape,
                if i == output {
                    ONE
                } else {
                    ZERO
                },
            ),
    )
}

/// The derivatives of the output by every node.
pub open spec fn gradients(m: Arith, t: TapeView, output: int) -> Seq<TensorView> {
    walked(m, t, t.len() as int, seeds(t, output))
}

// ---------------------------------------------------------------------------
// Shapes of derivatives
// ---------------------------------------------------------------------------

pub proof fn lemma_combined(m: Arith, op: BinaryOp, a: TensorView, b: TensorView)
    requires
        a.ok(),
        b.ok(),
        pair_shape(a.shape, b.shape) is Some,
    ensures
        combined(m, op, a, b).ok(),
        combined(m, op, a, b).shape == pair_shape(a.shape, b.shape)->0,
{
}

proof fn lemma_reduced(m: Arith, g: TensorView, target: TensorView)
    requires
        g.ok(),
        target.ok(),
        pair_shape(g.shape, target.shape) is Some,
    ensures
        reduced(m, g, target).ok(),
        reduced(m, g, target).shape == target.shape,
{
    lemma_product_empty();
    if target.rank() == 0 {
        assert(target.shape =~= Seq::<usize>::empty());
    }
}

proof fn lemma_transposed(x: TensorView)
    requires
        x.ok(),
        x.rank() == 2,
    ensures
        transposed(x).ok(),
        transposed(x).shape == seq![x.shape[1], x.shape[0]],
{
    lemma_rank_two(x.shape);
    lemma_product_two(x.shape[1], x.shape[0]);
    vstd::arithmetic::mul::lemma_mul_is_commutative(x.shape[0] as int, x.shape[1] as int);
}

/// Whether a contribution fits the node that it goes to.
pub open spec fn fits(t: TapeView, i: int, c: (usize, TensorView)) -> bool {
    &&& c.0 < i
    &&& c.1.ok()
    &&& c.1.shape == t[c.0 as int].value.shape
}

/// What a node adds to a derivative has the shape of that derivative.
pub proof fn lemma_contributions_fit(m: Arith, t: TapeView, i: int, g: TensorView)
    requires
        tape_ok(t),
        0 <= i < t.len(),
        g.ok(),
        g.shape == t[i].value.shape,
    ensures
        forall|k: int|
            0 <= k < contributions(m, t, i, g).len() ==> fits(
                t,
                i,
                #[trigger] contributions(m, t, i, g)[k],
            ),
{
    assert(node_ok(t, i));
    let c = t[i].value;
    lemma_product_empty();
    match t[i].op {
        Op::Leaf => {},
        Op::Add(a, b) => {
            assert(node_ok(t, a as int) && node_ok(t, b as int));
            lemma_reduced(m, g, t[a as int].value);
            lemma_reduced(m, g, t[b as int].value);
        },
        Op::Sub(a, b) => {
            assert(node_ok(t, a as int) && node_ok(t, b as int));
            lemma_reduced(m, g, t[a as int].value);
            lemma_reduced(m, map_elements(m, UnaryOp::Neg, g), t[b as int].value);
        },
        Op::Mul(a, b) => {
            assert(node_ok(t, a as int) && node_ok(t, b as int));
            let x = t[a as int].value;
            let y = t[b as int].value;
            lemma_combined(m, BinaryOp::Mul, g, y);
            lemma_combined(m, BinaryOp::Mul, g, x);
            lemma_reduced(m, combined(m, BinaryOp::Mul, g, y), x);
            lemma_reduced(m, combined(m, BinaryOp::Mul, g, x), y);
        },
        Op::Div(a, b) => {
            assert(node_ok(t, a as int) && node_ok(t, b as int));
            let x = t[a as int].value;
            let y = t[b as int].value;
            let nx = map_elements(m, UnaryOp::Neg, x);
            let yy = combined(m, BinaryOp::Mul, y, y);
            lemma_combined(m, BinaryOp::Mul, y, y);
            lemma_combined(m, BinaryOp::Div, nx, yy);
            let slope = combined(m, BinaryOp::Div, nx, yy);
            lemma_combined(m, BinaryOp::Div, g, y);
            lemma_combined(m, BinaryOp::Mul, g, slope);
            lemma_reduced(m, combined(m, BinaryOp::Div, g, y), x);
            lemma_reduced(m, combined(m, BinaryOp::Mul, g, slope), y);
        },
        Op::Pow(a, b) => {
            assert(node_ok(t, a as int) && node_ok(t, b as int));
            let x = t[a as int].value;
            let y = t[b as int].value;
            let y1 = right_scalar(m, BinaryOp::Sub, y, ONE);
            lemma_combined(m, BinaryOp::Pow, x, y1);
            let p = combined(m, BinaryOp::Pow, x, y1);
            lemma_combined(m, BinaryOp::Mul, y, p);
            let base = combined(m, BinaryOp::Mul, y, p);
            lemma_combined(m, BinaryOp::Mul, g, base);
            lemma_combined(m, BinaryOp::Mul, g, exponent_slopes(m, c, x));
            lemma_reduced(m, combined(m, BinaryOp::Mul, g, base), x);
            lemma_reduced(m, combined(m, BinaryOp::Mul, g, exponent_slopes(m, c, x)), y);
        },
        Op::MatMul(a, b) => {
            assert(node_ok(t, a as int) && node_ok(t, b as int));
            let x = t[a as int].value;
            let y = t[b as int].value;
            lemma_transposed(x);
            lemma_rank_two(x.shape);
            if y.rank() == 2 {
                lemma_transposed(y);
                lemma_rank_two(y.shape);
                lemma_rank_two(g.shape);
            } else {
                lemma_rank_one(y.shape);
                lemma_rank_one(g.shape);
            }
        },
        Op::Neg(a) => {
            assert(node_ok(t, a as int));
        },
        Op::Exp(a) => {
            assert(node_ok(t, a as int));
            lemma_combined(m, BinaryOp::Mul, g, c);
        },
        Op::Log(a) => {
            assert(node_ok(t, a as int));
            lemma_combined(m, BinaryOp::Div, g, t[a as int].value);
        },
        Op::Tanh(a) => {
            assert(node_ok(t, a as int));
            lemma_combined(m, BinaryOp::Mul, c, c);
            lemma_combined(
                m,
                BinaryOp::Mul,
                g,
                left_scalar(m, BinaryOp::Sub, ONE, combined(m, BinaryOp::Mul, c, c)),
            );
        },
        Op::Sqrt(a) => {
            assert(node_ok(t, a as int));
            lemma_combined(m, BinaryOp::Mul, g, left_scalar(m, BinaryOp::Div, HALF, c));
        },
        Op::Sum(a) => {
            assert(node_ok(t, a as int));
        },
        Op::Mean(a) => {
            assert(node_ok(t, a as int));
        },
    }
}

/// Whether there is one derivative per node, each in the shape of its node.
pub open spec fn grads_ok(t: TapeView, grads: Seq<TensorView>) -> bool {
    &&& grads.len() == t.len()
    &&& forall|i: int|
        0 <= i < t.len() ==> (#[trigger] grads[i]).ok() && grads[i].shape == t[i].value.shape
}

pub proof fn lemma_added_ok(
    m: Arith,
    t: TapeView,
    i: int,
    grads: Seq<TensorView>,
    cs: Seq<(usize, TensorView)>,
)
    requires
        0 <= i < t.len(),
        grads_ok(t, grads),
        forall|k: int| 0 <= k < cs.len() ==> fits(t, i, #[trigger] cs[k]),
    ensures
        grads_ok(t, added(m, grads, cs)),
    decreases cs.len(),
{
    if cs.len() > 0 {
        let front = cs.drop_last();
        assert forall|k: int| 0 <= k < front.len() implies fits(t, i, #[trigger] front[k]) by {
            assert(front[k] == cs[k]);
        }
        lemma_added_ok(m, t, i, grads, front);
        assert(fits(t, i, cs[cs.len() - 1]));
    }
}

/// The derivatives of an output have the shapes of the nodes that they are by.
pub proof fn law_gradient_shapes(m: Arith, t: TapeView, output: int)
    requires
        tape_ok(t),
        0 <= output < t.len(),
    ensures
        grads_ok(t, gradients(m, t, output)),
{
    assert forall|i: int| 0 <= i < t.len() implies (#[trigger] seeds(t, output)[i]).ok()
        && seeds(t, output)[i].shape == t[i].value.shape by {
        assert(node_ok(t, i));
    }
    lemma_walked_ok(m, t, t.len() as int, seeds(t, output));
}

proof fn lemma_walked_ok(m: Arith, t: TapeView, i: int, grads: Seq<TensorView>)
    requires
        tape_ok(t),
        0 <= i <= t.len(),
        grads_ok(t, grads),
    ensures
        grads_ok(t, walked(m, t, i, grads)),
    decreases i,
{
    if i > 0 {
        let cs = contributions(m, t, i - 1, grads[i - 1]);
        lemma_contributions_fit(m, t, i - 1, grads[i - 1]);
        lemma_added_ok(m, t, i - 1, grads, cs);
        lemma_walked_ok(m, t, i - 1, added(m, grads, cs));
    }
}

// ---------------------------------------------------------------------------
// Recording
// ---------------------------------------------------------------------------

/// A tensor without dimensions.
pub fn scalar(x: u64) -> (t: Tensor)
    ensures
        t@ == scalar_tensor(x),
{
    Tensor::scalar(x)
}

/// Starts a differentiation.
pub fn tape_begin(tapes: &mut Tapes)
    requires
        tapes_ok(old(tapes)@),
    ensures
        final(tapes)@ == old(tapes)@.push(Seq::empty()),
        tapes_ok(final(tapes)@),
{
    let ghost before = tapes@;
    tapes.stack.push(Tape { nodes: Vec::new() });
    proof {
        assert(tapes.stack@.last()@ =~= Seq::empty());
        assert(tapes@ =~= before.push(Seq::empty()));
        assert forall|i: int| 0 <= i < tapes@.len() implies tape_ok(#[trigger] tapes@[i]) by {
            if i < before.len() {
                assert(tape_ok(before[i]));
            }
        }
    }
}

/// Ends a differentiation and drops its tape, if one is under way.
pub fn tape_end(tapes: &mut Tapes)
    requires
        tapes_ok(old(tapes)@),
    ensures
        final(tapes)@ == if old(tapes)@.len() > 0 {
            old(tapes)@.drop_last()
        } else {
            old(tapes)@
        },
        tapes_ok(final(tapes)@),
{
    let ghost before = tapes@;
    tapes.stack.pop();
    proof {
        if before.len() > 0 {
            assert(tapes@ =~= before.drop_last());
            assert forall|i: int| 0 <= i < tapes@.len() implies tape_ok(#[trigger] tapes@[i]) by {
                assert(tape_ok(before[i]));
            }
        } else {
            assert(tapes@ =~= before);
        }
    }
}

/// Adds a node to the innermost tape.
fn push_node(tapes: &mut Tapes, node: Node) -> (id: usize)
    requires
        old(tapes)@.len() > 0,
        tapes_ok(old(tapes)@),
        node_ok(old(tapes)@.last().push(node@), old(tapes)@.last().len() as int),
    ensures
        id == old(tapes)@.last().len(),
        final(tapes)@ == recorded(old(tapes)@, node@),
        tapes_ok(final(tapes)@),
{
    let ghost before = tapes@;
    let ghost model = node@;
    proof {
        lemma_recorded_ok(before, model);
    }
    let mut tape: Tape = match tapes.stack.pop() {
        Some(tape) => tape,
        None => Tape { nodes: Vec::new() },
    };
    let ghost last = tape@;
    assert(last =~= before.last());
    let id: usize = tape.nodes.len();
    tape.nodes.push(node);
    assert(tape@ =~= last.push(model));
    tapes.stack.push(tape);
    assert(tapes@ =~= recorded(before, model));
    id
}

/// The value of a node of the innermost tape.
fn value_at(tapes: &Tapes, a: usize) -> (v: Rc<Tensor>)
    requires
        tapes@.len() > 0,
        a < tapes@.last().len(),
    ensures
        (*v)@ == tapes@.last()[a as int].value,
        (*v)@.ok(),
{
    let top: usize = tapes.stack.len() - 1;
    let v: Rc<Tensor> = Rc::clone(&tapes.stack[top].nodes[a].value);
    // The elements fill the shape.
    let _size: usize = v.len();
    v
}

/// Records an input or a constant.
pub fn leaf(tapes: &mut Tapes, value: Rc<Tensor>) -> (id: usize)
    requires
        old(tapes)@.len() > 0,
        tapes_ok(old(tapes)@),
    ensures
        id == old(tapes)@.last().len(),
        final(tapes)@ == recorded(
            old(tapes)@,
            NodeView { value: (*value)@, op: Op::Leaf },
        ),
        tapes_ok(final(tapes)@),
{
    // The elements fill the shape.
    let _size: usize = value.len();
    push_node(tapes, Node { value, op: Op::Leaf })
}

/// `op` on the elements of two tensors, a scalar standing for every element.
fn combine<F: Fn(Query) -> Vec<u64>>(f: &F, op: BinaryOp, a: &Tensor, b: &Tensor) -> (t: Tensor)
    requires
        is_arithmetic(f),
        pair_shape(a@.shape, b@.shape) is Some,
    ensures
        t@ == combined(meaning(f), op, a@, b@),
        t@.ok(),
{
    if a.rank() == 0 {
        proof {
            lemma_product_empty();
            assert(a@.shape =~= Seq::<usize>::empty());
        }
        b.scalar_first(f, op, a.data()[0])
    } else if b.rank() == 0 {
        proof {
            lemma_product_empty();
            assert(b@.shape =~= Seq::<usize>::empty());
        }
        a.scalar_last(f, op, b.data()[0])
    } else {
        a.zip(f, op, b)
    }
}

/// The shape of what an elementwise operation gives exists.
fn shapes_pair(a: &Tensor, b: &Tensor) -> (answer: bool)
    ensures
        answer == (pair_shape(a@.shape, b@.shape) is Some),
{
    a.rank() == 0 || b.rank() == 0 || same_shape(a.shape(), b.shape())
}

/// The product of two matrices, or of a matrix and a vector.
pub fn matmul_forward<F: Fn(Query) -> Vec<u64>>(f: &F, a: &Tensor, b: &Tensor) -> (r: Result<
    Tensor,
    EvalError,
>)
    requires
        is_arithmetic(f),
    ensures
        match matmul(meaning(f), a@, b@) {
            Ok(t) => r matches Ok(x) && x@ == t && x@.ok(),
            Err(e) => r matches Err(x) && x@ == e,
        },
{
    let ra: usize = a.rank();
    let rb: usize = b.rank();
    if ra != 2 || (rb != 2 && rb != 1) {
        let mut text: String = "@ は 2D×2D または 2D×1D のみ対応（".to_owned();
        push_decimal(&mut text, ra as u64);
        text.append("D × ");
        push_decimal(&mut text, rb as u64);
        text.append("D は未対応）");
        return Err(EvalError::InvalidArgument(text));
    }
    let rows: usize = a.shape()[0];
    let inner: usize = a.shape()[1];
    if inner != b.shape()[0] {
        return Err(
            EvalError::TensorShapeMismatch {
                op: "@",
                a: copy_sizes(a.shape()),
                b: copy_sizes(b.shape()),
            },
        );
    }
    let mut shape: Vec<usize> = Vec::new();
    shape.push(rows);
    if rb == 1 {
        let data: Vec<u64> = matrix_vector_product(f, rows, inner, a.data(), b.data());
        proof {
            assert(shape@ =~= seq![rows]);
            lemma_rank_one(shape@);
        }
        Ok(Tensor::made(shape, data))
    } else {
        let cols: usize = b.shape()[1];
        shape.push(cols);
        proof {
            assert(shape@ =~= seq![rows, cols]);
            lemma_rank_two(shape@);
        }
        match size_of_shape(&shape) {
            Some(size) => {
                let data: Vec<u64> = matrix_product(
                    f,
                    rows,
                    inner,
                    cols,
                    a.data(),
                    b.data(),
                    size,
                );
                Ok(Tensor::made(shape, data))
            },
            None => Err(
                EvalError::InvalidArgument("@: 結果の shape が大きすぎます".to_owned()),
            ),
        }
    }
}

/// How an operator is written in messages.
pub fn symbol_of(op: BinOpKind) -> (s: &'static str)
    ensures
        s@ == op_symbol(op),
{
    match op {
        BinOpKind::Add => "+",
        BinOpKind::Sub => "-",
        BinOpKind::Mul => "*",
        BinOpKind::Div => "/",
        BinOpKind::Pow => "^",
        BinOpKind::MatMul => "@",
        BinOpKind::Eq => "==",
        BinOpKind::Ne => "!=",
        BinOpKind::Lt => "<",
        BinOpKind::Le => "<=",
        BinOpKind::Gt => ">",
        BinOpKind::Ge => ">=",
    }
}

/// The arithmetic behind an elementwise operator.
pub fn elementwise_op(op: BinOpKind) -> (k: Option<BinaryOp>)
    ensures
        k == elementwise(op),
{
    match op {
        BinOpKind::Add => Some(BinaryOp::Add),
        BinOpKind::Sub => Some(BinaryOp::Sub),
        BinOpKind::Mul => Some(BinaryOp::Mul),
        BinOpKind::Div => Some(BinaryOp::Div),
        BinOpKind::Pow => Some(BinaryOp::Pow),
        _ => None,
    }
}

/// Records an operator between two nodes.
pub fn binop<F: Fn(Query) -> Vec<u64>>(
    f: &F,
    tapes: &mut Tapes,
    op: BinOpKind,
    a: usize,
    b: usize,
) -> (r: Result<usize, EvalError>)
    requires
        is_arithmetic(f),
        old(tapes)@.len() > 0,
        tapes_ok(old(tapes)@),
        a < old(tapes)@.last().len(),
        b < old(tapes)@.last().len(),
    ensures
        tapes_ok(final(tapes)@),
        match binop_node(meaning(f), op, old(tapes)@.last(), a, b) {
            Ok(node) => r == Ok::<usize, EvalError>(old(tapes)@.last().len() as usize)
                && final(tapes)@ == recorded(old(tapes)@, node),
            Err(e) => r matches Err(x) && x@ == e && final(tapes)@ == old(tapes)@,
        },
{
    let av: Rc<Tensor> = value_at(tapes, a);
    let bv: Rc<Tensor> = value_at(tapes, b);
    match elementwise_op(op) {
        Some(k) => {
            if !shapes_pair(&av, &bv) {
                return Err(
                    EvalError::TensorShapeMismatch {
                        op: symbol_of(op),
                        a: copy_sizes(av.shape()),
                        b: copy_sizes(bv.shape()),
                    },
                );
            }
            let value: Tensor = combine(f, k, &av, &bv);
            proof {
                lemma_combined(meaning(f), k, av@, bv@);
            }
            let node_op: Op = match op {
                BinOpKind::Add => Op::Add(a, b),
                BinOpKind::Sub => Op::Sub(a, b),
                BinOpKind::Mul => Op::Mul(a, b),
                BinOpKind::Div => Op::Div(a, b),
                _ => Op::Pow(a, b),
            };
            Ok(push_node(tapes, Node { value: Rc::new(value), op: node_op }))
        },
        None => {
            if op != BinOpKind::MatMul {
                return Err(
                    EvalError::InvalidArgument("比較演算子は微分できません".to_owned()),
                );
            }
            match matmul_forward(f, &av, &bv) {
                Ok(value) => Ok(
                    push_node(tapes, Node { value: Rc::new(value), op: Op::MatMul(a, b) }),
                ),
                Err(e) => Err(e),
            }
        },
    }
}

/// Records an operation on every element of a node.
fn record_map<F: Fn(Query) -> Vec<u64>>(
    f: &F,
    tapes: &mut Tapes,
    a: usize,
    k: UnaryOp,
    op: Op,
) -> (id: usize)
    requires
        is_arithmetic(f),
        old(tapes)@.len() > 0,
        tapes_ok(old(tapes)@),
        a < old(tapes)@.last().len(),
        op == Op::Neg(a) || op == Op::Exp(a) || op == Op::Log(a) || op == Op::Tanh(a) || op
            == Op::Sqrt(a),
    ensures
        id == old(tapes)@.last().len(),
        final(tapes)@ == recorded(
            old(tapes)@,
            NodeView { value: map_elements(meaning(f), k, old(tapes)@.last()[a as int].value), op },
        ),
        tapes_ok(final(tapes)@),
{
    let value: Tensor = value_at(tapes, a).map(f, k);
    push_node(tapes, Node { value: Rc::new(value), op })
}

/// Records the negation of every element of a node.
pub fn neg<F: Fn(Query) -> Vec<u64>>(f: &F, tapes: &mut Tapes, a: usize) -> (id: usize)
    requires
        is_arithmetic(f),
        old(tapes)@.len() > 0,
        tapes_ok(old(tapes)@),
        a < old(tapes)@.last().len(),
    ensures
        id == old(tapes)@.last().len(),
        final(tapes)@ == recorded(
            old(tapes)@,
            NodeView {
                value: map_elements(
                    meaning(f),
                    UnaryOp::Neg,
                    old(tapes)@.last()[a as int].value,
                ),
                op: Op::Neg(a),
            },
        ),
        tapes_ok(final(tapes)@),
{
    record_map(f, tapes, a, UnaryOp::Neg, Op::Neg(a))
}

/// Records the exponential of every element of a node.
pub fn exp<F: Fn(Query) -> Vec<u64>>(f: &F, tapes: &mut Tapes, a: usize) -> (id: usize)
    requires
        is_arithmetic(f),
        old(tapes)@.len() > 0,
        tapes_ok(old(tapes)@),
        a < old(tapes)@.last().len(),
    ensures
        id == old(tapes)@.last().len(),
        final(tapes)@ == recorded(
            old(tapes)@,
            NodeView {
                value: map_elements(
                    meaning(f),
                    UnaryOp::Exp,
                    old(tapes)@.last()[a as int].value,
                ),
                op: Op::Exp(a),
            },
        ),
        tapes_ok(final(tapes)@),
{
    record_map(f, tapes, a, UnaryOp::Exp, Op::Exp(a))
}

/// Records the natural logarithm of every element of a node.
pub fn log<F: Fn(Query) -> Vec<u64>>(f: &F, tapes: &mut Tapes, a: usize) -> (id: usize)
    requires
        is_arithmetic(f),
        old(tapes)@.len() > 0,
        tapes_ok(old(tapes)@),
        a < old(tapes)@.last().len(),
    ensures
        id == old(tapes)@.last().len(),
        final(tapes)@ == recorded(
            old(tapes)@,
            NodeView {
                value: map_elements(
                    meaning(f),
                    UnaryOp::Log,
                    old(tapes)@.last()[a as int].value,
                ),
                op: Op::Log(a),
            },
        ),
        tapes_ok(final(tapes)@),
{
    record_map(f, tapes, a, UnaryOp::Log, Op::Log(a))
}

/// Records the hyperbolic tangent of every element of a node.
pub fn tanh<F: Fn(Query) -> Vec<u64>>(f: &F, tapes: &mut Tapes, a: usize) -> (id: usize)
    requires
        is_arithmetic(f),
        old(tapes)@.len() > 0,
        tapes_ok(old(tapes)@),
        a < old(tapes)@.last().len(),
    ensures
        id == old(tapes)@.last().len(),
        final(tapes)@ == recorded(
            old(tapes)@,
            NodeView {
                value: map_elements(
                    meaning(f),
                    UnaryOp::Tanh,
                    old(tapes)@.last()[a as int].value,
                ),
                op: Op::Tanh(a),
            },
        ),
        tapes_ok(final(tapes)@),
{
    record_map(f, tapes, a, UnaryOp::Tanh, Op::Tanh(a))
}

/// Records the square root of every element of a node.
pub fn sqrt<F: Fn(Query) -> Vec<u64>>(f: &F, tapes: &mut Tapes, a: usize) -> (id: usize)
    requires
        is_arithmetic(f),
        old(tapes)@.len() > 0,
        tapes_ok(old(tapes)@),
        a < old(tapes)@.last().len(),
    ensures
        id == old(tapes)@.last().len(),
        final(tapes)@ == recorded(
            old(tapes)@,
            NodeView {
                value: map_elements(
                    meaning(f),
                    UnaryOp::Sqrt,
                    old(tapes)@.last()[a as int].value,
                ),
                op: Op::Sqrt(a),
            },
        ),
        tapes_ok(final(tapes)@),
{
    record_map(f, tapes, a, UnaryOp::Sqrt, Op::Sqrt(a))
}

/// Records the sum of the elements of a node.
pub fn sum<F: Fn(Query) -> Vec<u64>>(f: &F, tapes: &mut Tapes, a: usize) -> (id: usize)
    requires
        is_arithmetic(f),
        old(tapes)@.len() > 0,
        tapes_ok(old(tapes)@),
        a < old(tapes)@.last().len(),
    ensures
        id == old(tapes)@.last().len(),
        final(tapes)@ == recorded(
            old(tapes)@,
            NodeView {
                value: scalar_tensor(total(meaning(f), old(tapes)@.last()[a as int].value.data)),
                op: Op::Sum(a),
            },
        ),
        tapes_ok(final(tapes)@),
{
    let x: u64 = sum_of(f, value_at(tapes, a).data());
    push_node(tapes, Node { value: Rc::new(Tensor::scalar(x)), op: Op::Sum(a) })
}

/// How many elements there are, at least one, as a number.
pub fn count_of<F: Fn(Query) -> Vec<u64>>(f: &F, t: &Tensor) -> (n: u64)
    requires
        is_arithmetic(f),
    ensures
        n == count(meaning(f), t@),
{
    let len: usize = t.len();
    float_of_int(
        f,
        if len == 0 {
            1
        } else {
            len as i64
        },
    )
}

/// Records the mean of the elements of a node; that of no elements is their
/// sum.
pub fn mean<F: Fn(Query) -> Vec<u64>>(f: &F, tapes: &mut Tapes, a: usize) -> (id: usize)
    requires
        is_arithmetic(f),
        old(tapes)@.len() > 0,
        tapes_ok(old(tapes)@),
        a < old(tapes)@.last().len(),
    ensures
        id == old(tapes)@.last().len(),
        ({
            let x = old(tapes)@.last()[a as int].value;
            let mean = bin(
                meaning(f),
                BinaryOp::Div,
                total(meaning(f), x.data),
                count(meaning(f), x),
            );
            final(tapes)@ == recorded(
                old(tapes)@,
                NodeView { value: scalar_tensor(mean), op: Op::Mean(a) },
            )
        }),
        tapes_ok(final(tapes)@),
{
    let x: Rc<Tensor> = value_at(tapes, a);
    let all: u64 = sum_of(f, x.data());
    let n: u64 = count_of(f, &x);
    let mean: u64 = binary(f, BinaryOp::Div, all, n);
    push_node(tapes, Node { value: Rc::new(Tensor::scalar(mean)), op: Op::Mean(a) })
}

// ---------------------------------------------------------------------------
// Walking back
// ---------------------------------------------------------------------------

/// What is added to the derivative by a node.
struct Contribution {
    to: usize,
    value: Tensor,
}

spec fn contributions_of(v: Seq<Contribution>) -> Seq<(usize, TensorView)> {
    Seq::new(v.len(), |i: int| (v[i].to, v[i].value@))
}

fn one(to: usize, value: Tensor) -> (out: Vec<Contribution>)
    ensures
        contributions_of(out@) == seq![(to, value@)],
{
    let mut out: Vec<Contribution> = Vec::new();
    out.push(Contribution { to, value });
    assert(contributions_of(out@) =~= seq![(to, value@)]);
    out
}

fn two(a: usize, x: Tensor, b: usize, y: Tensor) -> (out: Vec<Contribution>)
    ensures
        contributions_of(out@) == seq![(a, x@), (b, y@)],
{
    let mut out: Vec<Contribution> = Vec::new();
    out.push(Contribution { to: a, value: x });
    out.push(Contribution { to: b, value: y });
    assert(contributions_of(out@) =~= seq![(a, x@), (b, y@)]);
    out
}

/// Brings a derivative back to the shape of what it is by.
fn reduce_to<F: Fn(Query) -> Vec<u64>>(f: &F, g: &Tensor, target: &Tensor) -> (t: Tensor)
    requires
        is_arithmetic(f),
    ensures
        t@ == reduced(meaning(f), g@, target@),
{
    if same_shape(g.shape(), target.shape()) {
        g.clone()
    } else if target.rank() == 0 {
        Tensor::scalar(sum_of(f, g.data()))
    } else if g.rank() == 0 {
        proof {
            lemma_product_empty();
            assert(g@.shape =~= Seq::<usize>::empty());
        }
        target.filled_like(g.data()[0])
    } else {
        g.clone()
    }
}

fn slopes_by_exponent<F: Fn(Query) -> Vec<u64>>(f: &F, c: &Tensor, a: &Tensor) -> (t: Tensor)
    requires
        is_arithmetic(f),
        a@.rank() == 0 || a@.shape == c@.shape,
    ensures
        t@ == exponent_slopes(meaning(f), c@, a@),
        t@.ok(),
{
    let scalar: bool = a.rank() == 0;
    let cs: &Vec<u64> = c.data();
    let xs: &Vec<u64> = a.data();
    proof {
        lemma_product_empty();
        if scalar {
            assert(a@.shape =~= Seq::<usize>::empty());
        }
    }
    let mut data: Vec<u64> = Vec::new();
    let mut i: usize = 0;
    while i < cs.len()
        invariant
            is_arithmetic(f),
            cs@ == c@.data,
            xs@ == a@.data,
            scalar == (a@.rank() == 0),
            if scalar {
                xs.len() == 1
            } else {
                xs.len() == cs.len()
            },
            i <= cs.len(),
            data@ == exponent_slopes(meaning(f), c@, a@).data.take(i as int),
        decreases cs.len() - i,
    {
        let x: u64 = if scalar {
            xs[0]
        } else {
            xs[i]
        };
        let slope: u64 = if related(f, Relation::Gt, x, ZERO) {
            binary(f, BinaryOp::Mul, cs[i], unary(f, UnaryOp::Log, x))
        } else {
            ZERO
        };
        data.push(slope);
        i = i + 1;
        assert(data@ =~= exponent_slopes(meaning(f), c@, a@).data.take(i as int));
    }
    assert(data@ =~= exponent_slopes(meaning(f), c@, a@).data);
    Tensor::made(copy_sizes(c.shape()), data)
}

fn outer_product<F: Fn(Query) -> Vec<u64>>(f: &F, g: &Vec<u64>, v: &Vec<u64>) -> (out: Vec<u64>)
    requires
        is_arithmetic(f),
    ensures
        out@ == outer(meaning(f), g@, v@),
{
    let ghost goal = outer(meaning(f), g@, v@);
    let n: usize = v.len();
    let mut out: Vec<u64> = Vec::new();
    let mut i: usize = 0;
    assert(0 * n == 0) by (nonlinear_arith);
    while i < g.len()
        invariant
            is_arithmetic(f),
            n == v.len(),
            goal == outer(meaning(f), g@, v@),
            i <= g.len(),
            out@.len() == i * n,
            out@ == goal.take(i * n),
        decreases g.len() - i,
    {
        assert(i * n + n == (i + 1) * n) by (nonlinear_arith);
        assert((i + 1) * n <= g.len() * n) by (nonlinear_arith)
            requires
                i < g.len(),
        ;
        let mut j: usize = 0;
        while j < n
            invariant
                is_arithmetic(f),
                n == v.len(),
                goal == outer(meaning(f), g@, v@),
                i < g.len(),
                j <= n,
                i * n + n <= g.len() * n,
                out@.len() == i * n + j,
                out@ == goal.take(i * n + j),
            decreases n - j,
        {
            let ghost k = i * n + j;
            proof {
                vstd::arithmetic::div_mod::lemma_fundamental_div_mod_converse(
                    k,
                    n as int,
                    i as int,
                    j as int,
                );
            }
            out.push(binary(f, BinaryOp::Mul, g[i], v[j]));
            j = j + 1;
            assert(out@ =~= goal.take(k + 1));
        }
        i = i + 1;
    }
    assert(out@ =~= goal);
    out
}

/// What node `i`, whose derivative is `g`, adds to the derivatives of the
/// nodes that it was computed from.
#[verifier::rlimit(50)]
fn chain_rule<F: Fn(Query) -> Vec<u64>>(f: &F, tape: &Tape, i: usize, g: &Tensor) -> (out: Vec<
    Contribution,
>)
    requires
        is_arithmetic(f),
        tape_ok(tape@),
        i < tape@.len(),
        g@.shape == tape@[i as int].value.shape,
    ensures
        contributions_of(out@) == contributions(meaning(f), tape@, i as int, g@),
{
    let ghost m = meaning(f);
    let ghost t = tape@;
    // The elements fill the shape.
    let _size: usize = g.len();
    proof {
        assert(node_ok(t, i as int));
        lemma_product_empty();
    }
    let nodes: &Vec<Node> = &tape.nodes;
    let c: &Tensor = &nodes[i].value;
    match nodes[i].op {
        Op::Leaf => {
            let out: Vec<Contribution> = Vec::new();
            assert(contributions_of(out@) =~= Seq::empty());
            out
        },
        Op::Add(a, b) => two(
            a,
            reduce_to(f, g, &nodes[a].value),
            b,
            reduce_to(f, g, &nodes[b].value),
        ),
        Op::Sub(a, b) => two(
            a,
            reduce_to(f, g, &nodes[a].value),
            b,
            reduce_to(f, &g.map(f, UnaryOp::Neg), &nodes[b].value),
        ),
        Op::Mul(a, b) => {
            let x: &Tensor = &nodes[a].value;
            let y: &Tensor = &nodes[b].value;
            two(
                a,
                reduce_to(f, &combine(f, BinaryOp::Mul, g, y), x),
                b,
                reduce_to(f, &combine(f, BinaryOp::Mul, g, x), y),
            )
        },
        Op::Div(a, b) => {
            let x: &Tensor = &nodes[a].value;
            let y: &Tensor = &nodes[b].value;
            proof {
                assert(node_ok(t, a as int) && node_ok(t, b as int));
                lemma_combined(m, BinaryOp::Mul, y@, y@);
                lemma_combined(
                    m,
                    BinaryOp::Div,
                    map_elements(m, UnaryOp::Neg, x@),
                    combined(m, BinaryOp::Mul, y@, y@),
                );
            }
            let yy: Tensor = combine(f, BinaryOp::Mul, y, y);
            let slope: Tensor = combine(f, BinaryOp::Div, &x.map(f, UnaryOp::Neg), &yy);
            two(
                a,
                reduce_to(f, &combine(f, BinaryOp::Div, g, y), x),
                b,
                reduce_to(f, &combine(f, BinaryOp::Mul, g, &slope), y),
            )
        },
        Op::Pow(a, b) => {
            let x: &Tensor = &nodes[a].value;
            let y: &Tensor = &nodes[b].value;
            proof {
                assert(node_ok(t, a as int) && node_ok(t, b as int));
                let y1 = right_scalar(m, BinaryOp::Sub, y@, ONE);
                lemma_combined(m, BinaryOp::Pow, x@, y1);
                lemma_combined(m, BinaryOp::Mul, y@, combined(m, BinaryOp::Pow, x@, y1));
            }
            let power: Tensor = combine(
                f,
                BinaryOp::Pow,
                x,
                &y.scalar_last(f, BinaryOp::Sub, ONE),
            );
            let base: Tensor = combine(f, BinaryOp::Mul, y, &power);
            let slopes: Tensor = slopes_by_exponent(f, c, x);
            two(
                a,
                reduce_to(f, &combine(f, BinaryOp::Mul, g, &base), x),
                b,
                reduce_to(f, &combine(f, BinaryOp::Mul, g, &slopes), y),
            )
        },
        Op::MatMul(a, b) => {
            proof {
                assert(node_ok(t, a as int) && node_ok(t, b as int));
            }
            matmul_backward(f, g, a, &nodes[a].value, b, &nodes[b].value)
        },
        Op::Neg(a) => one(a, g.map(f, UnaryOp::Neg)),
        Op::Exp(a) => one(a, combine(f, BinaryOp::Mul, g, c)),
        Op::Log(a) => one(a, combine(f, BinaryOp::Div, g, &nodes[a].value)),
        Op::Tanh(a) => {
            proof {
                lemma_combined(m, BinaryOp::Mul, c@, c@);
            }
            let square: Tensor = combine(f, BinaryOp::Mul, c, c);
            let slope: Tensor = square.scalar_first(f, BinaryOp::Sub, ONE);
            one(a, combine(f, BinaryOp::Mul, g, &slope))
        },
        Op::Sqrt(a) => {
            let slope: Tensor = c.scalar_first(f, BinaryOp::Div, HALF);
            one(a, combine(f, BinaryOp::Mul, g, &slope))
        },
        Op::Sum(a) => one(a, nodes[a].value.filled_like(g.data()[0])),
        Op::Mean(a) => {
            let x: &Tensor = &nodes[a].value;
            let n: u64 = count_of(f, x);
            one(a, x.filled_like(binary(f, BinaryOp::Div, g.data()[0], n)))
        },
    }
}

/// The contributions of a matrix product.
fn matmul_backward<F: Fn(Query) -> Vec<u64>>(
    f: &F,
    g: &Tensor,
    a: usize,
    x: &Tensor,
    b: usize,
    y: &Tensor,
) -> (out: Vec<Contribution>)
    requires
        is_arithmetic(f),
        x@.rank() == 2,
        y@.rank() == 2 || y@.rank() == 1,
        x@.shape[1] == y@.shape[0],
        y@.rank() == 2 ==> g@.shape == seq![x@.shape[0], y@.shape[1]],
        y@.rank() == 1 ==> g@.shape == seq![x@.shape[0]],
    ensures
        ({
            let m = meaning(f);
            let xt = transposed(x@);
            let yt = transposed(y@);
            contributions_of(out@) == if y@.rank() == 2 {
                seq![
                    (
                        a,
                        TensorView {
                            shape: x@.shape,
                            data: mat_mul(
                                m,
                                g@.shape[0],
                                g@.shape[1],
                                yt.shape[1],
                                g@.data,
                                yt.data,
                            ),
                        },
                    ),
                    (
                        b,
                        TensorView {
                            shape: y@.shape,
                            data: mat_mul(
                                m,
                                xt.shape[0],
                                xt.shape[1],
                                g@.shape[1],
                                xt.data,
                                g@.data,
                            ),
                        },
                    ),
                ]
            } else {
                seq![
                    (a, TensorView { shape: x@.shape, data: outer(m, g@.data, y@.data) }),
                    (
                        b,
                        TensorView {
                            shape: y@.shape,
                            data: mat_vec(m, xt.shape[0], xt.shape[1], xt.data, g@.data),
                        },
                    ),
                ]
            }
        }),
{
    let xt: Tensor = x.transpose();
    // The elements fill the shapes.
    let size_x: usize = x.len();
    let size_y: usize = y.len();
    let _size_g: usize = g.len();
    proof {
        lemma_rank_two(x@.shape);
        lemma_rank_two(xt@.shape);
    }
    if y.rank() == 2 {
        let yt: Tensor = y.transpose();
        proof {
            lemma_rank_two(y@.shape);
            lemma_rank_two(yt@.shape);
            lemma_rank_two(g@.shape);
        }
        let dx: Vec<u64> = matrix_product(
            f,
            g.shape()[0],
            g.shape()[1],
            yt.shape()[1],
            g.data(),
            yt.data(),
            size_x,
        );
        let dy: Vec<u64> = matrix_product(
            f,
            xt.shape()[0],
            xt.shape()[1],
            g.shape()[1],
            xt.data(),
            g.data(),
            size_y,
        );
        two(
            a,
            Tensor::made(copy_sizes(x.shape()), dx),
            b,
            Tensor::made(copy_sizes(y.shape()), dy),
        )
    } else {
        proof {
            lemma_rank_one(y@.shape);
            lemma_rank_one(g@.shape);
        }
        let dx: Vec<u64> = outer_product(f, g.data(), y.data());
        let dy: Vec<u64> = matrix_vector_product(
            f,
            xt.shape()[0],
            xt.shape()[1],
            xt.data(),
            g.data(),
        );
        two(
            a,
            Tensor::made(copy_sizes(x.shape()), dx),
            b,
            Tensor::made(copy_sizes(y.shape()), dy),
        )
    }
}

/// Adds contributions to the derivatives.
fn accumulate<F: Fn(Query) -> Vec<u64>>(
    f: &F,
    grads: &mut Vec<Tensor>,
    cs: &Vec<Contribution>,
    Ghost(t): Ghost<TapeView>,
    Ghost(i): Ghost<int>,
)
    requires
        is_arithmetic(f),
        0 <= i < t.len(),
        grads_ok(t, tensors_of(old(grads)@)),
        forall|k: int|
            0 <= k < contributions_of(cs@).len() ==> fits(
                t,
                i,
                #[trigger] contributions_of(cs@)[k],
            ),
    ensures
        tensors_of(final(grads)@) == added(
            meaning(f),
            tensors_of(old(grads)@),
            contributions_of(cs@),
        ),
        grads_ok(t, tensors_of(final(grads)@)),
{
    let ghost m = meaning(f);
    let ghost start = tensors_of(grads@);
    let ghost all = contributions_of(cs@);
    let mut k: usize = 0;
    assert(all.take(0) =~= Seq::empty());
    while k < cs.len()
        invariant
            is_arithmetic(f),
            m == meaning(f),
            all == contributions_of(cs@),
            0 <= i < t.len(),
            grads_ok(t, start),
            forall|j: int| 0 <= j < all.len() ==> fits(t, i, #[trigger] all[j]),
            k <= cs.len(),
            tensors_of(grads@) == added(m, start, all.take(k as int)),
            grads_ok(t, tensors_of(grads@)),
        decreases cs.len() - k,
    {
        let to: usize = cs[k].to;
        let ghost before = tensors_of(grads@);
        proof {
            assert(fits(t, i, all[k as int]));
            assert(before[to as int].ok() && before[to as int].shape
                == t[to as int].value.shape);
            assert(all.take(k + 1).drop_last() =~= all.take(k as int));
            assert forall|j: int| 0 <= j < all.take(k + 1).len() implies fits(
                t,
                i,
                #[trigger] all.take(k + 1)[j],
            ) by {
                assert(all.take(k + 1)[j] == all[j]);
            }
            lemma_added_ok(m, t, i, start, all.take(k + 1));
        }
        let next: Tensor = grads[to].zip(f, BinaryOp::Add, &cs[k].value);
        let ghost model = next@;
        grads.set(to, next);
        assert(tensors_of(grads@) =~= before.update(to as int, model));
        k = k + 1;
    }
    assert(all.take(all.len() as int) =~= all);
}

/// The derivatives of the output by every node of the innermost tape.
pub fn backward<F: Fn(Query) -> Vec<u64>>(f: &F, tapes: &Tapes, output: usize) -> (out: Vec<Tensor>)
    requires
        is_arithmetic(f),
        tapes@.len() > 0,
        tapes_ok(tapes@),
        output < tapes@.last().len(),
    ensures
        tensors_of(out@) == gradients(meaning(f), tapes@.last(), output as int),
        grads_ok(tapes@.last(), tensors_of(out@)),
{
    let ghost m = meaning(f);
    let tape: &Tape = &tapes.stack[tapes.stack.len() - 1];
    let ghost t = tape@;
    assert(t == tapes@.last());
    proof {
        assert(tape_ok(tapes@[tapes@.len() - 1]));
        law_gradient_shapes(m, t, output as int);
    }
    let n: usize = tape.nodes.len();
    let mut grads: Vec<Tensor> = Vec::new();
    let mut k: usize = 0;
    while k < n
        invariant
            n == tape.nodes.len(),
            t == tape@,
            k <= n,
            tensors_of(grads@) == seeds(t, output as int).take(k as int),
        decreases n - k,
    {
        let ghost before = tensors_of(grads@);
        let seed: Tensor = tape.nodes[k].value.filled_like(
            if k == output {
                ONE
            } else {
                ZERO
            },
        );
        let ghost model = seed@;
        grads.push(seed);
        assert(tensors_of(grads@) =~= before.push(model));
        k = k + 1;
        assert(tensors_of(grads@) =~= seeds(t, output as int).take(k as int));
    }
    assert(seeds(t, output as int).take(n as int) =~= seeds(t, output as int));
    proof {
        assert forall|i: int| 0 <= i < t.len() implies (#[trigger] seeds(
            t,
            output as int,
        )[i]).ok() && seeds(t, output as int)[i].shape == t[i].value.shape by {
            assert(node_ok(t, i));
        }
    }
    let mut i: usize = n;
    while i > 0
        invariant
            is_arithmetic(f),
            m == meaning(f),
            n == tape.nodes.len(),
            t == tape@,
            tape_ok(t),
            i <= n,
            grads_ok(t, tensors_of(grads@)),
            gradients(m, t, output as int) == walked(m, t, i as int, tensors_of(grads@)),
        decreases i,
    {
        i = i - 1;
        let ghost before = tensors_of(grads@);
        let g: Tensor = grads[i].clone();
        assert(before[i as int] == g@);
        let cs: Vec<Contribution> = chain_rule(f, tape, i, &g);
        proof {
            lemma_contributions_fit(m, t, i as int, g@);
        }
        accumulate(f, &mut grads, &cs, Ghost(t), Ghost(i as int));
    }
    grads
}

} // verus!
