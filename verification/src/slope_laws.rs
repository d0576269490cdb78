//! What derivatives are, given what the arithmetic does with zero and one.

use crate::ast::{BinOpKind, ExprView, LiteralView};
use crate::autodiff::{
    added, combined, contributions, count, exponent_slopes, fits, gradients, grads_ok,
    lemma_added_ok, lemma_contributions_fit, node_ok, recorded, reduced, seeds, tape_ok, walked,
    NodeView, Op, TapeView, TapesView,
};
use crate::interpreter::{apply_model, eval_model, grad_model};
use crate::num::{
    bin, from_int, holds, mat_mul, mat_vec, total, un, Arith, BinaryOp, Relation, UnaryOp, HALF,
    ONE, ZERO,
};
use crate::tensor::{
    filled, lemma_product_empty, lemma_rank_one, lemma_rank_two, map_elements, product,
    right_scalar, scalar_tensor, transposed, zip_elements, TensorView,
};
use crate::value::{BuiltinFn, EnvView, EvalErrorView, GlobalsView, LocalsView, ValueView};
use vstd::arithmetic::div_mod::lemma_fundamental_div_mod;
use vstd::arithmetic::mul::lemma_mul_is_commutative;
use vstd::prelude::*;

verus! {

// ---------------------------------------------------------------------------
// Facts of the arithmetic
// ---------------------------------------------------------------------------

/// Whether `nil` names numbers that are nothing: zero is one, and so is the sum
/// of two. In floating point these are the zero of either sign.
pub open spec fn is_nothing(m: Arith, nil: spec_fn(u64) -> bool) -> bool {
    &&& nil(ZERO)
    &&& forall|x: u64, y: u64|
        #![trigger bin(m, BinaryOp::Add, x, y)]
        nil(x) && nil(y) ==> nil(bin(m, BinaryOp::Add, x, y))
}

/// Whether adding nothing to `w` leaves it as it is.
pub open spec fn stays(m: Arith, nil: spec_fn(u64) -> bool, w: u64) -> bool {
    forall|z: u64|
        #![trigger nil(z)]
        nil(z) ==> bin(m, BinaryOp::Add, z, w) == w && bin(m, BinaryOp::Add, w, z) == w
}

/// Whether every element of a tensor is nothing.
pub open spec fn all_nil(nil: spec_fn(u64) -> bool, g: TensorView) -> bool {
    forall|k: int| 0 <= k < g.data.len() ==> nil(#[trigger] g.data[k])
}

/// The nodes that an operation is computed from.
pub open spec fn operands(op: Op) -> Seq<usize> {
    match op {
        Op::Leaf => Seq::empty(),
        Op::Add(a, b) | Op::Sub(a, b) | Op::Mul(a, b) | Op::Div(a, b) | Op::Pow(a, b) | Op::MatMul(
            a,
            b,
        ) => seq![a, b],
        Op::Neg(a) | Op::Exp(a) | Op::Log(a) | Op::Tanh(a) | Op::Sqrt(a) | Op::Sum(a) | Op::Mean(
            a,
        ) => seq![a],
    }
}

/// Whether node `i` is node `a`, or is computed from it, by however many steps.
pub open spec fn reaches(t: TapeView, i: int, a: int) -> bool
    decreases i,
{
    i == a || exists|k: int|
        0 <= k < operands(t[i].op).len() && (#[trigger] operands(t[i].op)[k]) < i && reaches(
            t,
            operands(t[i].op)[k] as int,
            a,
        )
}

/// Whether node `i`, when the derivative by it is nothing, adds nothing to
/// those of its operands that are computed from `a`. In floating point that
/// fails where the slope by such an operand is infinite or no number.
pub open spec fn is_quiet(
    m: Arith,
    t: TapeView,
    i: int,
    a: int,
    nil: spec_fn(u64) -> bool,
) -> bool {
    forall|g: TensorView, k: int|
        #![trigger contributions(m, t, i, g)[k]]
        g.ok() && g.shape == t[i].value.shape && all_nil(nil, g) && 0 <= k < contributions(
            m,
            t,
            i,
            g,
        ).len() && reaches(t, contributions(m, t, i, g)[k].0 as int, a) ==> all_nil(
            nil,
            contributions(m, t, i, g)[k].1,
        )
}

/// What a node adds goes to its operands.
proof fn lemma_targets(m: Arith, t: TapeView, i: int, g: TensorView, k: int)
    requires
        0 <= k < contributions(m, t, i, g).len(),
    ensures
        k < operands(t[i].op).len(),
        contributions(m, t, i, g)[k].0 == operands(t[i].op)[k],
{
}

// ---------------------------------------------------------------------------
// A node that adds to one other
// ---------------------------------------------------------------------------

/// Whether the derivative by node `a` is `w` in every element, and that by
/// every other node before `n` that is computed from `a` is nothing.
spec fn lone(
    t: TapeView,
    grads: Seq<TensorView>,
    a: int,
    n: int,
    w: u64,
    nil: spec_fn(u64) -> bool,
) -> bool {
    &&& grads_ok(t, grads)
    &&& grads[a] == filled(t[a].value.shape, w)
    &&& forall|j: int|
        0 <= j < n && j != a && reaches(t, j, a) ==> all_nil(nil, #[trigger] grads[j])
}

proof fn lemma_added_lone(
    m: Arith,
    t: TapeView,
    i: int,
    grads: Seq<TensorView>,
    cs: Seq<(usize, TensorView)>,
    a: int,
    n: int,
    w: u64,
    nil: spec_fn(u64) -> bool,
)
    requires
        is_nothing(m, nil),
        stays(m, nil, w),
        0 <= a < n <= t.len(),
        0 <= i < n,
        lone(t, grads, a, n, w, nil),
        forall|k: int| 0 <= k < cs.len() ==> fits(t, i, #[trigger] cs[k]),
        forall|k: int|
            0 <= k < cs.len() && reaches(t, (#[trigger] cs[k]).0 as int, a) ==> all_nil(
                nil,
                cs[k].1,
            ),
    ensures
        lone(t, added(m, grads, cs), a, n, w, nil),
    decreases cs.len(),
{
    lemma_added_ok(m, t, i, grads, cs);
    if cs.len() > 0 {
        let front = cs.drop_last();
        assert forall|k: int| 0 <= k < front.len() implies fits(t, i, #[trigger] front[k]) && (
        reaches(t, front[k].0 as int, a) ==> all_nil(nil, front[k].1)) by {
            assert(front[k] == cs[k]);
        }
        lemma_added_lone(m, t, i, grads, front, a, n, w, nil);
        let before = added(m, grads, front);
        let after = added(m, grads, cs);
        let last = cs[cs.len() - 1];
        let to = last.0 as int;
        let c = last.1;
        assert(fits(t, i, last));
        assert(reaches(t, to, a) ==> all_nil(nil, c));
        let sum = zip_elements(m, BinaryOp::Add, before[to], c);
        assert(after == before.update(to, sum));
        assert(before[to].ok() && before[to].shape == t[to].value.shape);
        if to == a {
            assert(reaches(t, to, a));
            assert forall|k: int| 0 <= k < sum.data.len() implies #[trigger] sum.data[k] == w by {
                assert(nil(c.data[k]));
            }
            assert(sum =~= filled(t[a].value.shape, w));
        } else if reaches(t, to, a) {
            assert(all_nil(nil, before[to]));
            assert forall|k: int| 0 <= k < sum.data.len() implies nil(#[trigger] sum.data[k]) by {
                assert(nil(before[to].data[k]) && nil(c.data[k]));
            }
        }
        assert forall|j: int| 0 <= j < n && j != a && reaches(t, j, a) implies all_nil(
            nil,
            #[trigger] after[j],
        ) by {
            if j != to {
                assert(all_nil(nil, before[j]));
            }
        }
    }
}

/// What is added by a node never reaches that node or a later one.
proof fn lemma_added_earlier(
    m: Arith,
    t: TapeView,
    i: int,
    grads: Seq<TensorView>,
    cs: Seq<(usize, TensorView)>,
    a: int,
)
    requires
        0 <= i <= a < grads.len(),
        forall|k: int| 0 <= k < cs.len() ==> fits(t, i, #[trigger] cs[k]),
    ensures
        added(m, grads, cs)[a] == grads[a],
        added(m, grads, cs).len() == grads.len(),
    decreases cs.len(),
{
    if cs.len() > 0 {
        let front = cs.drop_last();
        assert forall|k: int| 0 <= k < front.len() implies fits(t, i, #[trigger] front[k]) by {
            assert(front[k] == cs[k]);
        }
        lemma_added_earlier(m, t, i, grads, front, a);
        assert(fits(t, i, cs[cs.len() - 1]));
    }
}

proof fn lemma_walked_lone(
    m: Arith,
    t: TapeView,
    i: int,
    grads: Seq<TensorView>,
    a: int,
    n: int,
    w: u64,
    nil: spec_fn(u64) -> bool,
)
    requires
        tape_ok(t),
        is_nothing(m, nil),
        stays(m, nil, w),
        0 <= a < n <= t.len(),
        0 <= i <= n,
        grads_ok(t, grads),
        i > a ==> lone(t, grads, a, n, w, nil),
        forall|j: int| a < j < n && reaches(t, j, a) ==> #[trigger] is_quiet(m, t, j, a, nil),
    ensures
        walked(m, t, i, grads)[a] == if i > a {
            filled(t[a].value.shape, w)
        } else {
            grads[a]
        },
    decreases i,
{
    if i > 0 {
        let j = i - 1;
        let g = grads[j];
        let cs = contributions(m, t, j, g);
        assert(g.ok() && g.shape == t[j].value.shape);
        lemma_contributions_fit(m, t, j, g);
        lemma_added_ok(m, t, j, grads, cs);
        if j > a {
            assert forall|k: int|
                0 <= k < cs.len() && reaches(t, (#[trigger] cs[k]).0 as int, a) implies all_nil(
                nil,
                cs[k].1,
            ) by {
                // An operand that is computed from `a` makes its node so too.
                lemma_targets(m, t, j, g, k);
                assert(fits(t, j, cs[k]));
                assert(reaches(t, operands(t[j].op)[k] as int, a));
                assert(reaches(t, j, a));
                assert(is_quiet(m, t, j, a, nil));
                assert(all_nil(nil, grads[j]));
                assert(all_nil(nil, contributions(m, t, j, g)[k].1));
            }
            lemma_added_lone(m, t, j, grads, cs, a, n, w, nil);
        } else {
            lemma_added_earlier(m, t, j, grads, cs, a);
        }
        lemma_walked_lone(m, t, j, added(m, grads, cs), a, n, w, nil);
    }
}

/// The derivative of the last node, which adds `w` to each element by `a`.
proof fn lemma_lone_slope(
    m: Arith,
    t: TapeView,
    a: usize,
    w: u64,
    nil: spec_fn(u64) -> bool,
)
    requires
        tape_ok(t),
        t.len() > 0,
        a < t.len() - 1,
        contributions(m, t, t.len() - 1, seeds(t, t.len() - 1)[t.len() - 1]) == seq![
            (a, filled(t[a as int].value.shape, w)),
        ],
        is_nothing(m, nil),
        stays(m, nil, w),
        forall|j: int|
            a < j < t.len() - 1 && reaches(t, j, a as int) ==> #[trigger] is_quiet(
                m,
                t,
                j,
                a as int,
                nil,
            ),
    ensures
        gradients(m, t, t.len() - 1)[a as int] == filled(t[a as int].value.shape, w),
{
    let n = t.len() - 1;
    let start = seeds(t, n);
    let shape = t[a as int].value.shape;
    assert forall|i: int| 0 <= i < t.len() implies (#[trigger] start[i]).ok() && start[i].shape
        == t[i].value.shape by {
        assert(node_ok(t, i));
    }
    let cs = contributions(m, t, n, start[n]);
    lemma_contributions_fit(m, t, n, start[n]);
    lemma_added_ok(m, t, n, start, cs);
    let next = added(m, start, cs);
    assert(cs.drop_last() =~= Seq::empty());
    assert(added(m, start, cs.drop_last()) == start);
    let sum = zip_elements(m, BinaryOp::Add, start[a as int], filled(shape, w));
    assert(next == start.update(a as int, sum));
    assert forall|k: int| 0 <= k < sum.data.len() implies #[trigger] sum.data[k] == w by {
        assert(nil(ZERO));
    }
    assert(sum =~= filled(shape, w));
    assert forall|j: int| 0 <= j < n && j != a && reaches(t, j, a as int) implies all_nil(
        nil,
        #[trigger] next[j],
    ) by {
        assert(next[j] == start[j]);
    }
    lemma_walked_lone(m, t, n, next, a as int, n, w, nil);
    assert(walked(m, t, t.len() as int, start) == walked(m, t, n, next));
}

proof fn lemma_pushed_ok(t: TapeView, node: NodeView)
    requires
        tape_ok(t),
        node_ok(t.push(node), t.len() as int),
    ensures
        tape_ok(t.push(node)),
{
    let u = t.push(node);
    assert forall|i: int| 0 <= i < u.len() implies #[trigger] node_ok(u, i) by {
        if i < t.len() {
            assert(node_ok(t, i));
        }
    }
}

/// The derivative of a sum is one by each element, where adding nothing to one
/// leaves it, and the nodes that are computed from the same node are quiet.
pub proof fn law_derivative_of_sum(
    m: Arith,
    t: TapeView,
    a: usize,
    nil: spec_fn(u64) -> bool,
)
    requires
        tape_ok(t),
        a < t.len(),
        is_nothing(m, nil),
        stays(m, nil, ONE),
        forall|j: int|
            a < j < t.len() && reaches(with_sum(m, t, a), j, a as int) ==> #[trigger] is_quiet(
                m,
                with_sum(m, t, a),
                j,
                a as int,
                nil,
            ),
    ensures
        gradients(m, with_sum(m, t, a), t.len() as int)[a as int] == filled(
            t[a as int].value.shape,
            ONE,
        ),
{
    let u = with_sum(m, t, a);
    lemma_product_empty();
    lemma_pushed_ok(t, u.last());
    lemma_lone_slope(m, u, a, ONE, nil);
}

/// The tape with the sum of node `a` as one more node.
pub open spec fn with_sum(m: Arith, t: TapeView, a: usize) -> TapeView {
    t.push(
        NodeView {
            value: scalar_tensor(total(m, t[a as int].value.data)),
            op: Op::Sum(a),
        },
    )
}

/// The derivative of a mean is one over the number of elements by each of them,
/// where adding nothing to that leaves it, and the nodes that are computed from
/// the same node are quiet. No elements count as one.
pub proof fn law_derivative_of_mean(
    m: Arith,
    t: TapeView,
    a: usize,
    nil: spec_fn(u64) -> bool,
)
    requires
        tape_ok(t),
        a < t.len(),
        is_nothing(m, nil),
        stays(m, nil, bin(m, BinaryOp::Div, ONE, count(m, t[a as int].value))),
        forall|j: int|
            a < j < t.len() && reaches(with_mean(m, t, a), j, a as int) ==> #[trigger] is_quiet(
                m,
                with_mean(m, t, a),
                j,
                a as int,
                nil,
            ),
    ensures
        gradients(m, with_mean(m, t, a), t.len() as int)[a as int] == filled(
            t[a as int].value.shape,
            bin(m, BinaryOp::Div, ONE, count(m, t[a as int].value)),
        ),
{
    let u = with_mean(m, t, a);
    lemma_product_empty();
    lemma_pushed_ok(t, u.last());
    lemma_lone_slope(m, u, a, bin(m, BinaryOp::Div, ONE, count(m, t[a as int].value)), nil);
}

/// The tape with the mean of node `a` as one more node.
pub open spec fn with_mean(m: Arith, t: TapeView, a: usize) -> TapeView {
    let x = t[a as int].value;
    t.push(
        NodeView {
            value: scalar_tensor(bin(m, BinaryOp::Div, total(m, x.data), count(m, x))),
            op: Op::Mean(a),
        },
    )
}

// ---------------------------------------------------------------------------
// Signs
// ---------------------------------------------------------------------------

/// The tapes with node `a`, its sign turned, as one more node.
pub open spec fn with_negated(m: Arith, ts: TapesView, a: usize) -> TapesView {
    recorded(
        ts,
        NodeView {
            value: map_elements(m, UnaryOp::Neg, ts.last()[a as int].value),
            op: Op::Neg(a),
        },
    )
}

/// Turning the sign of a node twice gives its value back, where it does so of
/// every number, and leaves all earlier nodes as they are.
pub proof fn law_negating_twice_gives_back(m: Arith, ts: TapesView, a: usize)
    requires
        ts.len() > 0,
        a < ts.last().len() <= usize::MAX,
        forall|x: u64| #[trigger]
            un(m, UnaryOp::Neg, un(m, UnaryOp::Neg, x)) == x,
    ensures
        ({
            let n = ts.last().len() as int;
            let once = with_negated(m, ts, a);
            let twice = with_negated(m, once, n as usize);
            &&& once.last()[n].value == map_elements(
                m,
                UnaryOp::Neg,
                ts.last()[a as int].value,
            )
            &&& once.last()[n].value.shape == ts.last()[a as int].value.shape
            &&& twice.last().len() == n + 2
            &&& twice.last()[n + 1].value == ts.last()[a as int].value
            &&& forall|i: int| 0 <= i < n ==> #[trigger] twice.last()[i] == ts.last()[i]
        }),
{
    let n = ts.last().len() as int;
    let once = with_negated(m, ts, a);
    let twice = with_negated(m, once, n as usize);
    let x = ts.last()[a as int].value;
    let back = map_elements(m, UnaryOp::Neg, map_elements(m, UnaryOp::Neg, x));
    assert(back.data =~= x.data);
    assert(back =~= x);
    assert(once.last()[n].value == map_elements(m, UnaryOp::Neg, x));
    assert(twice.last()[n + 1].value == back);
}

// ---------------------------------------------------------------------------
// The chain rule, operation by operation
// ---------------------------------------------------------------------------

/// The element of an operand that goes with element `k` of a result: a scalar
/// goes with every one.
pub open spec fn beside(x: TensorView, k: int) -> u64 {
    if x.shape.len() == 0 {
        x.data[0]
    } else {
        x.data[k]
    }
}

/// Whether `share` is what operand `x` of a result of `shape` gets when element
/// `k` of the result passes `f(k)` on: that, element by element, or the sum of
/// all where the operand is a scalar beside more elements.
pub open spec fn is_share(
    m: Arith,
    share: TensorView,
    x: TensorView,
    shape: Seq<usize>,
    f: spec_fn(int) -> u64,
) -> bool {
    &&& share.shape == x.shape
    &&& share.data.len() == x.data.len()
    &&& x.shape == shape ==> forall|k: int|
        0 <= k < x.data.len() ==> #[trigger] share.data[k] == f(k)
    &&& x.shape != shape ==> share.data[0] == total(m, Seq::new(product(shape), f))
}

/// Node `i` of a tape, whose derivative is `g`.
pub open spec fn at_node(t: TapeView, i: int, g: TensorView) -> bool {
    &&& tape_ok(t)
    &&& 0 <= i < t.len()
    &&& g.ok()
    &&& g.shape == t[i].value.shape
}

/// Brought back to the shape of an operand, a derivative is its share.
proof fn lemma_share(m: Arith, g: TensorView, x: TensorView, f: spec_fn(int) -> u64)
    requires
        g.ok(),
        x.ok(),
        x.shape == g.shape || x.shape.len() == 0,
        forall|k: int| 0 <= k < g.data.len() ==> #[trigger] g.data[k] == f(k),
    ensures
        is_share(m, reduced(m, g, x), x, g.shape, f),
{
    lemma_product_empty();
    if x.shape.len() == 0 {
        assert(x.shape =~= Seq::<usize>::empty());
    }
    assert(g.data =~= Seq::new(product(g.shape), f));
}

proof fn lemma_operands_ok(t: TapeView, i: int)
    requires
        tape_ok(t),
        0 <= i < t.len(),
    ensures
        forall|k: int|
            0 <= k < operands(t[i].op).len() ==> (#[trigger] operands(t[i].op)[k]) < i
                && t[operands(t[i].op)[k] as int].value.ok(),
        product(Seq::<usize>::empty()) == 1,
{
    assert(node_ok(t, i));
    assert forall|k: int| 0 <= k < operands(t[i].op).len() implies (#[trigger] operands(
        t[i].op,
    )[k]) < i && t[operands(t[i].op)[k] as int].value.ok() by {
        assert(node_ok(t, operands(t[i].op)[k] as int));
    }
}

/// An input or a constant passes nothing on.
pub proof fn law_leaf_passes_nothing_on(m: Arith, t: TapeView, i: int, g: TensorView)
    requires
        t[i].op == Op::Leaf,
    ensures
        contributions(m, t, i, g).len() == 0,
{
}

/// A sum passes its derivative on to both operands.
pub proof fn law_slope_of_addition(m: Arith, t: TapeView, i: int, g: TensorView, a: usize, b: usize)
    requires
        at_node(t, i, g),
        t[i].op == Op::Add(a, b),
    ensures
        ({
            let cs = contributions(m, t, i, g);
            &&& cs.len() == 2 && cs[0].0 == a && cs[1].0 == b
            &&& is_share(m, cs[0].1, t[a as int].value, g.shape, |k: int| g.data[k])
            &&& is_share(m, cs[1].1, t[b as int].value, g.shape, |k: int| g.data[k])
        }),
{
    lemma_operands_ok(t, i);
    assert(node_ok(t, i));
    assert(operands(t[i].op)[0] == a && operands(t[i].op)[1] == b);
    lemma_share(m, g, t[a as int].value, |k: int| g.data[k]);
    lemma_share(m, g, t[b as int].value, |k: int| g.data[k]);
}

/// A difference passes its derivative on to the first operand, and with the
/// sign turned to the second.
pub proof fn law_slope_of_subtraction(
    m: Arith,
    t: TapeView,
    i: int,
    g: TensorView,
    a: usize,
    b: usize,
)
    requires
        at_node(t, i, g),
        t[i].op == Op::Sub(a, b),
    ensures
        ({
            let cs = contributions(m, t, i, g);
            &&& cs.len() == 2 && cs[0].0 == a && cs[1].0 == b
            &&& is_share(m, cs[0].1, t[a as int].value, g.shape, |k: int| g.data[k])
            &&& is_share(
                m,
                cs[1].1,
                t[b as int].value,
                g.shape,
                |k: int| un(m, UnaryOp::Neg, g.data[k]),
            )
        }),
{
    lemma_operands_ok(t, i);
    assert(node_ok(t, i));
    assert(operands(t[i].op)[0] == a && operands(t[i].op)[1] == b);
    lemma_share(m, g, t[a as int].value, |k: int| g.data[k]);
    lemma_share(
        m,
        map_elements(m, UnaryOp::Neg, g),
        t[b as int].value,
        |k: int| un(m, UnaryOp::Neg, g.data[k]),
    );
}

/// A product passes its derivative on to each operand, times the other.
pub proof fn law_slope_of_multiplication(
    m: Arith,
    t: TapeView,
    i: int,
    g: TensorView,
    a: usize,
    b: usize,
)
    requires
        at_node(t, i, g),
        t[i].op == Op::Mul(a, b),
    ensures
        ({
            let x = t[a as int].value;
            let y = t[b as int].value;
            let cs = contributions(m, t, i, g);
            &&& cs.len() == 2 && cs[0].0 == a && cs[1].0 == b
            &&& is_share(
                m,
                cs[0].1,
                x,
                g.shape,
                |k: int| bin(m, BinaryOp::Mul, g.data[k], beside(y, k)),
            )
            &&& is_share(
                m,
                cs[1].1,
                y,
                g.shape,
                |k: int| bin(m, BinaryOp::Mul, g.data[k], beside(x, k)),
            )
        }),
{
    lemma_operands_ok(t, i);
    assert(node_ok(t, i));
    assert(operands(t[i].op)[0] == a && operands(t[i].op)[1] == b);
    let x = t[a as int].value;
    let y = t[b as int].value;
    lemma_share(
        m,
        combined(m, BinaryOp::Mul, g, y),
        x,
        |k: int| bin(m, BinaryOp::Mul, g.data[k], beside(y, k)),
    );
    lemma_share(
        m,
        combined(m, BinaryOp::Mul, g, x),
        y,
        |k: int| bin(m, BinaryOp::Mul, g.data[k], beside(x, k)),
    );
}

/// A quotient `x / y` passes its derivative on to `x` over `y`, and to `y`
/// times `-x / (y * y)`.
pub proof fn law_slope_of_division(m: Arith, t: TapeView, i: int, g: TensorView, a: usize, b: usize)
    requires
        at_node(t, i, g),
        t[i].op == Op::Div(a, b),
    ensures
        ({
            let x = t[a as int].value;
            let y = t[b as int].value;
            let cs = contributions(m, t, i, g);
            &&& cs.len() == 2 && cs[0].0 == a && cs[1].0 == b
            &&& is_share(
                m,
                cs[0].1,
                x,
                g.shape,
                |k: int| bin(m, BinaryOp::Div, g.data[k], beside(y, k)),
            )
            &&& is_share(
                m,
                cs[1].1,
                y,
                g.shape,
                |k: int|
                    bin(
                        m,
                        BinaryOp::Mul,
                        g.data[k],
                        bin(
                            m,
                            BinaryOp::Div,
                            un(m, UnaryOp::Neg, beside(x, k)),
                            bin(m, BinaryOp::Mul, beside(y, k), beside(y, k)),
                        ),
                    ),
            )
        }),
{
    lemma_operands_ok(t, i);
    assert(node_ok(t, i));
    assert(operands(t[i].op)[0] == a && operands(t[i].op)[1] == b);
    let x = t[a as int].value;
    let y = t[b as int].value;
    lemma_share(
        m,
        combined(m, BinaryOp::Div, g, y),
        x,
        |k: int| bin(m, BinaryOp::Div, g.data[k], beside(y, k)),
    );
    let slope = combined(
        m,
        BinaryOp::Div,
        map_elements(m, UnaryOp::Neg, x),
        combined(m, BinaryOp::Mul, y, y),
    );
    lemma_share(
        m,
        combined(m, BinaryOp::Mul, g, slope),
        y,
        |k: int|
            bin(
                m,
                BinaryOp::Mul,
                g.data[k],
                bin(
                    m,
                    BinaryOp::Div,
                    un(m, UnaryOp::Neg, beside(x, k)),
                    bin(m, BinaryOp::Mul, beside(y, k), beside(y, k)),
                ),
            ),
    );
}

/// A power `x ^ y` passes its derivative on to `x` times `y * x ^ (y - 1)`,
/// and to `y` times `x ^ y * log x`, or times zero where `x` is not positive.
pub proof fn law_slope_of_power(m: Arith, t: TapeView, i: int, g: TensorView, a: usize, b: usize)
    requires
        at_node(t, i, g),
        t[i].op == Op::Pow(a, b),
    ensures
        ({
            let x = t[a as int].value;
            let y = t[b as int].value;
            let cs = contributions(m, t, i, g);
            &&& cs.len() == 2 && cs[0].0 == a && cs[1].0 == b
            &&& is_share(
                m,
                cs[0].1,
                x,
                g.shape,
                |k: int|
                    bin(
                        m,
                        BinaryOp::Mul,
                        g.data[k],
                        bin(
                            m,
                            BinaryOp::Mul,
                            beside(y, k),
                            bin(
                                m,
                                BinaryOp::Pow,
                                beside(x, k),
                                bin(m, BinaryOp::Sub, beside(y, k), ONE),
                            ),
                        ),
                    ),
            )
            &&& is_share(
                m,
                cs[1].1,
                y,
                g.shape,
                |k: int|
                    bin(
                        m,
                        BinaryOp::Mul,
                        g.data[k],
                        if holds(m, Relation::Gt, beside(x, k), ZERO) {
                            bin(
                                m,
                                BinaryOp::Mul,
                                t[i].value.data[k],
                                un(m, UnaryOp::Log, beside(x, k)),
                            )
                        } else {
                            ZERO
                        },
                    ),
            )
        }),
{
    lemma_operands_ok(t, i);
    assert(node_ok(t, i));
    assert(operands(t[i].op)[0] == a && operands(t[i].op)[1] == b);
    let c = t[i].value;
    let x = t[a as int].value;
    let y = t[b as int].value;
    let base = combined(
        m,
        BinaryOp::Mul,
        y,
        combined(
            m,
            BinaryOp::Pow,
            x,
            right_scalar(m, BinaryOp::Sub, y, ONE),
        ),
    );
    lemma_share(
        m,
        combined(m, BinaryOp::Mul, g, base),
        x,
        |k: int|
            bin(
                m,
                BinaryOp::Mul,
                g.data[k],
                bin(
                    m,
                    BinaryOp::Mul,
                    beside(y, k),
                    bin(
                        m,
                        BinaryOp::Pow,
                        beside(x, k),
                        bin(m, BinaryOp::Sub, beside(y, k), ONE),
                    ),
                ),
            ),
    );
    lemma_share(
        m,
        combined(
            m,
            BinaryOp::Mul,
            g,
            exponent_slopes(m, c, x),
        ),
        y,
        |k: int|
            bin(
                m,
                BinaryOp::Mul,
                g.data[k],
                if holds(m, Relation::Gt, beside(x, k), ZERO) {
                    bin(m, BinaryOp::Mul, c.data[k], un(m, UnaryOp::Log, beside(x, k)))
                } else {
                    ZERO
                },
            ),
    );
}

/// What a function of each element passes on: minus the derivative for the
/// negation, and otherwise the derivative times the slope. That is the value
/// for `exp`, one over the operand for `log`, one less the square of the value
/// for `tanh`, and one half over the value for `sqrt`.
pub proof fn law_slopes_of_functions(m: Arith, t: TapeView, i: int, g: TensorView, a: usize)
    requires
        at_node(t, i, g),
    ensures
        ({
            let c = t[i].value.data;
            let x = t[a as int].value;
            let cs = contributions(m, t, i, g);
            let to_operand = cs.len() == 1 && cs[0].0 == a && cs[0].1.shape == x.shape
                && cs[0].1.data.len() == x.data.len();
            &&& t[i].op == Op::Neg(a) ==> to_operand && forall|k: int|
                0 <= k < x.data.len() ==> #[trigger] cs[0].1.data[k] == un(
                    m,
                    UnaryOp::Neg,
                    g.data[k],
                )
            &&& t[i].op == Op::Exp(a) ==> to_operand && forall|k: int|
                0 <= k < x.data.len() ==> #[trigger] cs[0].1.data[k] == bin(
                    m,
                    BinaryOp::Mul,
                    g.data[k],
                    c[k],
                )
            &&& t[i].op == Op::Log(a) ==> to_operand && forall|k: int|
                0 <= k < x.data.len() ==> #[trigger] cs[0].1.data[k] == bin(
                    m,
                    BinaryOp::Div,
                    g.data[k],
                    x.data[k],
                )
            &&& t[i].op == Op::Tanh(a) ==> to_operand && forall|k: int|
                0 <= k < x.data.len() ==> #[trigger] cs[0].1.data[k] == bin(
                    m,
                    BinaryOp::Mul,
                    g.data[k],
                    bin(m, BinaryOp::Sub, ONE, bin(m, BinaryOp::Mul, c[k], c[k])),
                )
            &&& t[i].op == Op::Sqrt(a) ==> to_operand && forall|k: int|
                0 <= k < x.data.len() ==> #[trigger] cs[0].1.data[k] == bin(
                    m,
                    BinaryOp::Mul,
                    g.data[k],
                    bin(m, BinaryOp::Div, HALF, c[k]),
                )
        }),
{
    lemma_operands_ok(t, i);
    assert(node_ok(t, i));
    if operands(t[i].op).len() == 1 {
        assert(operands(t[i].op)[0] < i);
    }
    if g.shape.len() == 0 {
        assert(g.shape =~= Seq::<usize>::empty());
    }
}

/// A sum over elements passes its derivative on to each of them, and a mean
/// does so over their number.
pub proof fn law_slopes_of_sum_and_mean(m: Arith, t: TapeView, i: int, g: TensorView, a: usize)
    requires
        at_node(t, i, g),
    ensures
        ({
            let x = t[a as int].value;
            let cs = contributions(m, t, i, g);
            let to_operand = cs.len() == 1 && cs[0].0 == a && cs[0].1.shape == x.shape
                && cs[0].1.data.len() == x.data.len();
            &&& t[i].op == Op::Sum(a) ==> to_operand && forall|k: int|
                0 <= k < x.data.len() ==> #[trigger] cs[0].1.data[k] == g.data[0]
            &&& t[i].op == Op::Mean(a) ==> to_operand && forall|k: int|
                0 <= k < x.data.len() ==> #[trigger] cs[0].1.data[k] == bin(
                    m,
                    BinaryOp::Div,
                    g.data[0],
                    from_int(m, x.data.len() as i64),
                )
        }),
{
    lemma_operands_ok(t, i);
    assert(node_ok(t, i));
    if operands(t[i].op).len() == 1 {
        assert(operands(t[i].op)[0] < i);
    }
}

/// Whether `u` holds the elements of matrix `x` column by column.
pub open spec fn is_by_column(u: Seq<u64>, x: TensorView) -> bool {
    &&& u.len() == x.data.len()
    &&& forall|r: int, c: int|
        0 <= r < x.shape[0] && 0 <= c < x.shape[1] ==> u[c * x.shape[0] + r] == #[trigger] x.data[r
            * x.shape[1] + c]
}

proof fn lemma_by_column(u: Seq<u64>, x: TensorView)
    requires
        x.ok(),
        x.shape.len() == 2,
        is_by_column(u, x),
    ensures
        u == transposed(x).data,
{
    let rows = x.shape[0] as int;
    let cols = x.shape[1] as int;
    lemma_rank_two(x.shape);
    let w = transposed(x).data;
    assert forall|k: int| 0 <= k < u.len() implies u[k] == w[k] by {
        assert(rows > 0) by (nonlinear_arith)
            requires
                0 <= k < rows * cols,
                rows >= 0,
                cols >= 0,
        ;
        let c = k / rows;
        let r = k % rows;
        lemma_fundamental_div_mod(k, rows);
        lemma_mul_is_commutative(rows, c);
        assert(0 <= c < cols) by (nonlinear_arith)
            requires
                k == c * rows + r,
                0 <= k < rows * cols,
                0 <= r < rows,
        ;
        assert(x.data[r * x.shape[1] + c] == u[c * x.shape[0] + r]);
    }
    assert(u =~= w);
}

/// A product of matrices `x @ y` passes the product of its derivative and the
/// transposed `y` on to `x`, and the product of the transposed `x` and its
/// derivative to `y`.
pub proof fn law_slope_of_matrix_product(
    m: Arith,
    t: TapeView,
    i: int,
    g: TensorView,
    a: usize,
    b: usize,
    xt: Seq<u64>,
    yt: Seq<u64>,
)
    requires
        at_node(t, i, g),
        t[i].op == Op::MatMul(a, b),
        t[b as int].value.shape.len() == 2,
        is_by_column(xt, t[a as int].value),
        is_by_column(yt, t[b as int].value),
    ensures
        ({
            let x = t[a as int].value;
            let y = t[b as int].value;
            let cs = contributions(m, t, i, g);
            let rows = x.shape[0];
            let inner = x.shape[1];
            let cols = y.shape[1];
            &&& cs.len() == 2 && cs[0].0 == a && cs[1].0 == b
            &&& cs[0].1.shape == x.shape
            &&& cs[0].1.data == mat_mul(m, rows, cols, inner, g.data, yt)
            &&& cs[1].1.shape == y.shape
            &&& cs[1].1.data == mat_mul(m, inner, rows, cols, xt, g.data)
        }),
{
    lemma_operands_ok(t, i);
    assert(node_ok(t, i));
    assert(operands(t[i].op)[0] == a && operands(t[i].op)[1] == b);
    lemma_by_column(xt, t[a as int].value);
    lemma_by_column(yt, t[b as int].value);
}

/// A product `x @ v` of a matrix and a vector passes on to the element of `x`
/// in row `r` and column `c` element `r` of its derivative times element `c` of
/// `v`, and to `v` the product of the transposed `x` and its derivative.
pub proof fn law_slope_of_matrix_vector_product(
    m: Arith,
    t: TapeView,
    i: int,
    g: TensorView,
    a: usize,
    b: usize,
    xt: Seq<u64>,
)
    requires
        at_node(t, i, g),
        t[i].op == Op::MatMul(a, b),
        t[b as int].value.shape.len() == 1,
        is_by_column(xt, t[a as int].value),
    ensures
        ({
            let x = t[a as int].value;
            let v = t[b as int].value;
            let cs = contributions(m, t, i, g);
            let rows = x.shape[0];
            let inner = x.shape[1];
            &&& cs.len() == 2 && cs[0].0 == a && cs[1].0 == b
            &&& cs[0].1.shape == x.shape
            &&& cs[0].1.data.len() == x.data.len()
            &&& forall|r: int, c: int|
                0 <= r < rows && 0 <= c < inner ==> #[trigger] cs[0].1.data[r * inner + c] == bin(
                    m,
                    BinaryOp::Mul,
                    g.data[r],
                    v.data[c],
                )
            &&& cs[1].1.shape == v.shape
            &&& cs[1].1.data == mat_vec(m, inner, rows, xt, g.data)
        }),
{
    lemma_operands_ok(t, i);
    assert(node_ok(t, i));
    assert(operands(t[i].op)[0] == a && operands(t[i].op)[1] == b);
    lemma_by_column(xt, t[a as int].value);
    let x = t[a as int].value;
    let v = t[b as int].value;
    lemma_rank_two(x.shape);
    lemma_rank_one(v.shape);
    lemma_rank_one(g.shape);
    let cs = contributions(m, t, i, g);
    let rows = x.shape[0] as int;
    let inner = x.shape[1] as int;
    assert forall|r: int, c: int| 0 <= r < rows && 0 <= c < inner implies #[trigger] cs[0].1.data[r
        * inner + c] == bin(m, BinaryOp::Mul, g.data[r], v.data[c]) by {
        let k = r * inner + c;
        vstd::arithmetic::div_mod::lemma_fundamental_div_mod_converse(k, inner, r, c);
        assert(0 <= k < rows * inner) by (nonlinear_arith)
            requires
                k == r * inner + c,
                0 <= r < rows,
                0 <= c < inner,
        ;
    }
}

// ---------------------------------------------------------------------------
// Derivatives as sums of shares
// ---------------------------------------------------------------------------

/// A derivative with the shares among `cs` that go to node `j` added to it.
pub open spec fn with_shares(
    m: Arith,
    g: TensorView,
    cs: Seq<(usize, TensorView)>,
    j: int,
) -> TensorView
    decreases cs.len(),
{
    if cs.len() == 0 {
        g
    } else {
        let before = with_shares(m, g, cs.drop_last(), j);
        if cs.last().0 == j {
            TensorView {
                shape: before.shape,
                data: Seq::new(
                    before.data.len(),
                    |k: int| bin(m, BinaryOp::Add, before.data[k], cs.last().1.data[k]),
                ),
            }
        } else {
            before
        }
    }
}

/// What node `j` has gathered, starting from `g`, when the nodes below `hi` and
/// from `lo` on have passed on their shares of their own derivatives, the last
/// of them first.
pub open spec fn gathered(
    m: Arith,
    t: TapeView,
    grads: Seq<TensorView>,
    g: TensorView,
    lo: int,
    hi: int,
    j: int,
) -> TensorView
    decreases hi - lo,
{
    if hi <= lo {
        g
    } else {
        let shares = contributions(m, t, hi - 1, grads[hi - 1]);
        gathered(m, t, grads, with_shares(m, g, shares, j), lo, hi - 1, j)
    }
}

proof fn lemma_added_at(m: Arith, grads: Seq<TensorView>, cs: Seq<(usize, TensorView)>, j: int)
    requires
        0 <= j < grads.len(),
        forall|k: int| 0 <= k < cs.len() ==> (#[trigger] cs[k]).0 < grads.len(),
    ensures
        added(m, grads, cs).len() == grads.len(),
        added(m, grads, cs)[j] == with_shares(m, grads[j], cs, j),
    decreases cs.len(),
{
    if cs.len() > 0 {
        assert forall|k: int| 0 <= k < cs.drop_last().len() implies (#[trigger] cs.drop_last()[k]).0
            < grads.len() by {
            assert(cs.drop_last()[k] == cs[k]);
        }
        lemma_added_at(m, grads, cs.drop_last(), j);
        assert(cs[cs.len() - 1].0 < grads.len());
        let before = added(m, grads, cs.drop_last());
        let (to, c) = cs.last();
        if to == j {
            assert(zip_elements(m, BinaryOp::Add, before[j], c) =~= with_shares(
                m,
                grads[j],
                cs,
                j,
            ));
        }
    }
}

/// Shares that all go to earlier nodes leave a derivative.
proof fn lemma_no_shares(m: Arith, g: TensorView, cs: Seq<(usize, TensorView)>, j: int)
    requires
        forall|k: int| 0 <= k < cs.len() ==> (#[trigger] cs[k]).0 < j,
    ensures
        with_shares(m, g, cs, j) == g,
    decreases cs.len(),
{
    if cs.len() > 0 {
        assert forall|k: int| 0 <= k < cs.drop_last().len() implies (#[trigger] cs.drop_last()[k]).0
            < j by {
            assert(cs.drop_last()[k] == cs[k]);
        }
        lemma_no_shares(m, g, cs.drop_last(), j);
        assert(cs[cs.len() - 1].0 < j);
    }
}

proof fn lemma_targets_earlier(m: Arith, t: TapeView, i: int, g: TensorView)
    requires
        tape_ok(t),
        0 <= i < t.len(),
    ensures
        forall|k: int|
            0 <= k < contributions(m, t, i, g).len() ==> (#[trigger] contributions(
                m,
                t,
                i,
                g,
            )[k]).0 < i,
{
    assert(node_ok(t, i));
}

proof fn lemma_walked_gathers(m: Arith, t: TapeView, i: int, grads: Seq<TensorView>, j: int)
    requires
        tape_ok(t),
        0 <= i <= t.len(),
        grads.len() == t.len(),
        0 <= j < t.len(),
    ensures
        ({
            let all = walked(m, t, i, grads);
            &&& all.len() == t.len()
            &&& j + 1 >= i ==> all[j] == grads[j]
            &&& all[j] == gathered(m, t, all, grads[j], j + 1, i, j)
        }),
    decreases i,
{
    if i > 0 {
        let cs = contributions(m, t, i - 1, grads[i - 1]);
        let next = added(m, grads, cs);
        let all = walked(m, t, i, grads);
        lemma_targets_earlier(m, t, i - 1, grads[i - 1]);
        lemma_added_at(m, grads, cs, j);
        lemma_added_at(m, grads, cs, i - 1);
        lemma_no_shares(m, grads[i - 1], cs, i - 1);
        lemma_walked_gathers(m, t, i - 1, next, j);
        lemma_walked_gathers(m, t, i - 1, next, i - 1);
        if j >= i - 1 {
            assert forall|k: int| 0 <= k < cs.len() implies (#[trigger] cs[k]).0 < j by {}
            lemma_no_shares(m, grads[j], cs, j);
        }
    }
}

/// The derivative of an output by a node is one where the node is the output,
/// else zero, and to that every later node adds its shares of the derivative by
/// it, the last of them first.
pub proof fn law_derivative_is_sum_of_shares(m: Arith, t: TapeView, output: int, j: int)
    requires
        tape_ok(t),
        0 <= j < t.len(),
    ensures
        ({
            let grads = gradients(m, t, output);
            let start = TensorView {
                shape: t[j].value.shape,
                data: Seq::new(
                    t[j].value.data.len(),
                    |k: int|
                        if j == output {
                            0x3FF0_0000_0000_0000u64
                        } else {
                            0u64
                        },
                ),
            };
            &&& grads.len() == t.len()
            &&& grads[j] == gathered(m, t, grads, start, j + 1, t.len() as int, j)
        }),
{
    lemma_walked_gathers(m, t, t.len() as int, seeds(t, output), j);
    assert(node_ok(t, j));
    assert(seeds(t, output)[j].data =~= Seq::new(
        t[j].value.data.len(),
        |k: int|
            if j == output {
                0x3FF0_0000_0000_0000u64
            } else {
                0u64
            },
    ));
}

// ---------------------------------------------------------------------------
// `grad`
// ---------------------------------------------------------------------------

/// The derivative of a function is that of what it records when it is called
/// on the first node of a new tape, by that node: a tensor by a tensor, a number
/// by a number. A function that gives a constant has the derivative zero.
pub proof fn law_grad_differentiates_a_call(
    m: Arith,
    f: ValueView,
    x: ValueView,
    input: TensorView,
    globals: GlobalsView,
    depth: nat,
    tapes: TapesView,
)
    requires
        depth > 0,
        match x {
            ValueView::Tensor(t) => input == t,
            ValueView::Float(v) => input.shape.len() == 0 && input.data == seq![v],
            ValueView::Int(n) => input.shape.len() == 0 && input.data == seq![from_int(m, n)],
            _ => false,
        },
    ensures
        ({
            let start = tapes.push(seq![NodeView { value: input, op: Op::Leaf }]);
            let (y, end) = apply_model(
                m,
                f,
                ValueView::Traced(0),
                globals,
                (depth - 1) as nat,
                start,
            );
            let result = grad_model(m, f, x, globals, depth, tapes).0;
            &&& y matches Err(e) ==> result == Err::<ValueView, EvalErrorView>(e)
            &&& y matches Ok(ValueView::Traced(id)) ==> end.len() > 0 && id < end.last().len() ==> {
                let g = gradients(m, end.last(), id as int)[0];
                &&& x is Tensor ==> result == Ok::<ValueView, EvalErrorView>(ValueView::Tensor(g))
                &&& !(x is Tensor) && g.data.len() > 0 ==> result == Ok::<ValueView, EvalErrorView>(
                    ValueView::Float(g.data[0]),
                )
            }
            &&& y matches Ok(v) ==> v is Int || v is Float || v is Tensor ==> {
                &&& x is Tensor ==> {
                    &&& result matches Ok(ValueView::Tensor(g))
                    &&& g.shape == input.shape
                    &&& g.data.len() == product(input.shape)
                    &&& forall|k: int| 0 <= k < g.data.len() ==> #[trigger] g.data[k] == 0
                }
                &&& !(x is Tensor) ==> result == Ok::<ValueView, EvalErrorView>(
                    ValueView::Float(0),
                )
            }
        }),
{
    lemma_product_empty();
    let start = tapes.push(seq![NodeView { value: input, op: Op::Leaf }]);
    let pushed = tapes.push(Seq::<NodeView>::empty());
    assert(pushed.drop_last() =~= tapes);
    assert(recorded(pushed, NodeView { value: input, op: Op::Leaf }).last() =~= seq![
        NodeView { value: input, op: Op::Leaf },
    ]);
    assert(recorded(pushed, NodeView { value: input, op: Op::Leaf }) =~= start);
    if !(x is Tensor) {
        assert(input.shape =~= Seq::<usize>::empty());
    }
}

/// The derivative of the identity is one, by every element.
pub proof fn law_derivative_of_identity(
    m: Arith,
    name: Seq<char>,
    env: LocalsView,
    x: ValueView,
    globals: GlobalsView,
    depth: nat,
    tapes: TapesView,
)
    requires
        depth >= 2,
    ensures
        ({
            let f = ValueView::Closure { param: name, body: ExprView::Var(name), env };
            let result = grad_model(m, f, x, globals, depth, tapes).0;
            &&& x is Int || x is Float ==> result == Ok::<ValueView, EvalErrorView>(
                ValueView::Float(0x3FF0_0000_0000_0000),
            )
            &&& x matches ValueView::Tensor(t) ==> {
                &&& result matches Ok(ValueView::Tensor(g))
                &&& g.shape == t.shape
                &&& g.data.len() == product(t.shape)
                &&& forall|k: int|
                    0 <= k < g.data.len() ==> #[trigger] g.data[k] == 0x3FF0_0000_0000_0000
            }
        }),
{
    let input = match x {
        ValueView::Tensor(t) => t,
        ValueView::Float(v) => scalar_tensor(v),
        ValueView::Int(n) => scalar_tensor(from_int(m, n)),
        _ => arbitrary(),
    };
    if x is Int || x is Float || x is Tensor {
        let f = ValueView::Closure { param: name, body: ExprView::Var(name), env };
        law_grad_differentiates_a_call(m, f, x, input, globals, depth, tapes);
        let tape = seq![NodeView { value: input, op: Op::Leaf }];
        let start = tapes.push(tape);
        let inner = (EnvView { locals: env, globals }).bind(name, ValueView::Traced(0));
        assert(inner.find(name) == Some(ValueView::Traced(0)));
        assert(apply_model(m, f, ValueView::Traced(0), globals, (depth - 1) as nat, start) == (
            Ok::<ValueView, EvalErrorView>(ValueView::Traced(0)),
            start,
        ));
        reveal_with_fuel(walked, 3);
        lemma_product_empty();
        assert(gradients(m, tape, 0)[0] == filled(input.shape, ONE));
    }
}

/// The expression `mean (name ^ n)`.
pub open spec fn mean_of_power(name: Seq<char>, n: i64) -> ExprView {
    ExprView::App(
        Box::new(ExprView::Var("mean"@)),
        Box::new(
            ExprView::BinOp {
                op: BinOpKind::Pow,
                left: Box::new(ExprView::Var(name)),
                right: Box::new(ExprView::Lit(LiteralView::Int(n))),
            },
        ),
    )
}

/// The derivative of `mean (w ^ n)` by each element of `w` is one over the
/// number of elements, times `n`, times the element to the power `n - 1`.
pub proof fn law_derivative_of_mean_of_power(
    m: Arith,
    name: Seq<char>,
    n: i64,
    env: LocalsView,
    w: TensorView,
    globals: GlobalsView,
    depth: nat,
    tapes: TapesView,
)
    requires
        depth >= 2,
        w.ok(),
        w.shape.len() > 0,
        w.data.len() > 0,
        name != "mean"@,
        (EnvView { locals: env, globals }).find("mean"@) == Some(
            ValueView::Builtin(BuiltinFn::Mean),
        ),
        forall|z: u64| #[trigger] bin(m, BinaryOp::Add, ZERO, z) == z,
    ensures
        ({
            let f = ValueView::Closure { param: name, body: mean_of_power(name, n), env };
            let result = grad_model(m, f, ValueView::Tensor(w), globals, depth, tapes).0;
            &&& result matches Ok(ValueView::Tensor(g))
            &&& g.shape == w.shape
            &&& g.data.len() == w.data.len()
            &&& forall|k: int|
                0 <= k < w.data.len() ==> #[trigger] g.data[k] == bin(
                    m,
                    BinaryOp::Mul,
                    bin(m, BinaryOp::Div, ONE, from_int(m, w.data.len() as i64)),
                    bin(
                        m,
                        BinaryOp::Mul,
                        from_int(m, n),
                        bin(
                            m,
                            BinaryOp::Pow,
                            w.data[k],
                            bin(m, BinaryOp::Sub, from_int(m, n), ONE),
                        ),
                    ),
                )
        }),
{
    let f = ValueView::Closure { param: name, body: mean_of_power(name, n), env };
    law_grad_differentiates_a_call(m, f, ValueView::Tensor(w), w, globals, depth, tapes);
    let node0 = NodeView { value: w, op: Op::Leaf };
    let y = scalar_tensor(from_int(m, n));
    let node1 = NodeView { value: y, op: Op::Leaf };
    let p = combined(m, BinaryOp::Pow, w, y);
    let node2 = NodeView { value: p, op: Op::Pow(0, 1) };
    let mean = scalar_tensor(bin(m, BinaryOp::Div, total(m, p.data), count(m, p)));
    let node3 = NodeView { value: mean, op: Op::Mean(2) };
    let tape = seq![node0, node1, node2, node3];
    let start = tapes.push(seq![node0]);
    let inner = (EnvView { locals: env, globals }).bind(name, ValueView::Traced(0));
    assert(inner.find(name) == Some(ValueView::Traced(0)));
    assert(inner.find("mean"@) == Some(ValueView::Builtin(BuiltinFn::Mean)));
    reveal_with_fuel(eval_model, 4);
    let ts1 = recorded(start, node1);
    let ts2 = recorded(ts1, node2);
    let ts3 = recorded(ts2, node3);
    assert(ts1.last() =~= seq![node0, node1]);
    assert(ts2.last() =~= seq![node0, node1, node2]);
    assert(ts3.last() =~= tape);
    let d = (depth - 2) as nat;
    let power = ExprView::BinOp {
        op: BinOpKind::Pow,
        left: Box::new(ExprView::Var(name)),
        right: Box::new(ExprView::Lit(LiteralView::Int(n))),
    };
    assert(eval_model(m, power, inner, d, start) == (
        Ok::<ValueView, EvalErrorView>(ValueView::Traced(2)),
        ts2,
    ));
    assert(apply_model(
        m,
        ValueView::Builtin(BuiltinFn::Mean),
        ValueView::Traced(2),
        globals,
        d,
        ts2,
    ) == (Ok::<ValueView, EvalErrorView>(ValueView::Traced(3)), ts3));
    assert(eval_model(m, mean_of_power(name, n), inner, d, start) == (
        Ok::<ValueView, EvalErrorView>(ValueView::Traced(3)),
        ts3,
    ));
    lemma_product_empty();
    assert(tape_ok(tape)) by {
        assert(node_ok(tape, 0) && node_ok(tape, 1) && node_ok(tape, 2) && node_ok(tape, 3));
    }
    let grads = gradients(m, tape, 3);
    reveal_with_fuel(gathered, 5);
    reveal_with_fuel(with_shares, 3);
    law_derivative_is_sum_of_shares(m, tape, 3, 3);
    law_derivative_is_sum_of_shares(m, tape, 3, 2);
    law_derivative_is_sum_of_shares(m, tape, 3, 1);
    law_derivative_is_sum_of_shares(m, tape, 3, 0);
    let one = scalar_tensor(ONE);
    assert(grads[3] =~= one);
    law_slopes_of_sum_and_mean(m, tape, 3, grads[3], 2);
    let cs3 = contributions(m, tape, 3, grads[3]);
    assert(cs3.drop_last() =~= Seq::<(usize, TensorView)>::empty());
    assert(grads[2].shape == w.shape);
    assert(grads[2].data.len() == w.data.len());
    assert forall|k: int| 0 <= k < w.data.len() implies #[trigger] grads[2].data[k] == bin(
        m,
        BinaryOp::Div,
        ONE,
        from_int(m, w.data.len() as i64),
    ) by {}
    law_slope_of_power(m, tape, 2, grads[2], 0, 1);
    let cs2 = contributions(m, tape, 2, grads[2]);
    assert(cs2.drop_last().drop_last() =~= Seq::<(usize, TensorView)>::empty());
    assert(cs2.drop_last().last() == cs2[0]);
    law_leaf_passes_nothing_on(m, tape, 1, grads[1]);
    assert(contributions(m, tape, 1, grads[1]) =~= Seq::<(usize, TensorView)>::empty());
}

} // verus!
