//! Tensors: a shape and the elements, row by row.

use crate::num::{
    bin, binary, copy_words, is_arithmetic, meaning, un, unary, Arith, BinaryOp, Query, UnaryOp,
};
use vstd::arithmetic::div_mod::lemma_fundamental_div_mod_converse;
use vstd::arithmetic::mul::{lemma_mul_inequality, lemma_mul_is_commutative};
use vstd::prelude::*;

verus! {

/// How many elements a shape has room for.
pub open spec fn product(shape: Seq<usize>) -> nat
    decreases shape.len(),
{
    if shape.len() == 0 {
        1
    } else {
        product(shape.drop_last()) * (shape.last() as nat)
    }
}

/// The product of the dimensions that are not 0.
pub open spec fn nonzero_product(shape: Seq<usize>) -> nat
    decreases shape.len(),
{
    if shape.len() == 0 {
        1
    } else if shape.last() == 0 {
        nonzero_product(shape.drop_last())
    } else {
        nonzero_product(shape.drop_last()) * (shape.last() as nat)
    }
}

/// Whether a tensor of this shape can be made.
pub open spec fn is_shape(shape: Seq<usize>) -> bool {
    nonzero_product(shape) <= isize::MAX
}

/// The elements, as bit patterns, and how they are laid out.
#[derive(Debug)]
pub struct Tensor {
    shape: Vec<usize>,
    data: Vec<u64>,
}

#[verifier::ext_equal]
pub struct TensorView {
    pub shape: Seq<usize>,
    pub data: Seq<u64>,
}

impl TensorView {
    /// There are as many elements as the shape has room for.
    pub open spec fn ok(self) -> bool {
        self.data.len() == product(self.shape)
    }

    pub open spec fn rank(self) -> nat {
        self.shape.len()
    }
}

impl View for Tensor {
    type V = TensorView;

    closed spec fn view(&self) -> TensorView {
        TensorView { shape: self.shape@, data: self.data@ }
    }
}

// ---------------------------------------------------------------------------
// Operations on the model
// ---------------------------------------------------------------------------

/// A tensor without dimensions.
pub open spec fn scalar_tensor(x: u64) -> TensorView {
    TensorView { shape: Seq::empty(), data: seq![x] }
}

/// Every element `x`.
pub open spec fn filled(shape: Seq<usize>, x: u64) -> TensorView {
    TensorView { shape, data: Seq::new(product(shape), |i: int| x) }
}

/// `op` on every element.
pub open spec fn map_elements(m: Arith, op: UnaryOp, t: TensorView) -> TensorView {
    TensorView { shape: t.shape, data: Seq::new(t.data.len(), |i: int| un(m, op, t.data[i])) }
}

/// `op` on the elements of two tensors of one shape, pair by pair.
pub open spec fn zip_elements(m: Arith, op: BinaryOp, a: TensorView, b: TensorView) -> TensorView {
    TensorView {
        shape: a.shape,
        data: Seq::new(a.data.len(), |i: int| bin(m, op, a.data[i], b.data[i])),
    }
}

/// `op` on `x` and every element.
pub open spec fn left_scalar(m: Arith, op: BinaryOp, x: u64, t: TensorView) -> TensorView {
    TensorView { shape: t.shape, data: Seq::new(t.data.len(), |i: int| bin(m, op, x, t.data[i])) }
}

/// `op` on every element and `x`.
pub open spec fn right_scalar(m: Arith, op: BinaryOp, t: TensorView, x: u64) -> TensorView {
    TensorView { shape: t.shape, data: Seq::new(t.data.len(), |i: int| bin(m, op, t.data[i], x)) }
}

/// Rows become columns.
pub open spec fn transposed(t: TensorView) -> TensorView {
    let rows = t.shape[0] as int;
    let cols = t.shape[1] as int;
    TensorView {
        shape: seq![t.shape[1], t.shape[0]],
        data: Seq::new(t.data.len(), |i: int| t.data[(i % rows) * cols + i / rows]),
    }
}

/// The elements of two vectors, one behind the other.
pub open spec fn joined_vectors(a: TensorView, b: TensorView) -> TensorView {
    TensorView { shape: seq![(a.data.len() + b.data.len()) as usize], data: a.data + b.data }
}

/// The elements as one vector.
pub open spec fn flattened(t: TensorView) -> TensorView {
    TensorView { shape: seq![t.data.len() as usize], data: t.data }
}

// ---------------------------------------------------------------------------
// Products
// ---------------------------------------------------------------------------

pub proof fn lemma_product_empty()
    ensures
        product(Seq::<usize>::empty()) == 1,
{
}

pub proof fn lemma_product_one(n: usize)
    ensures
        product(seq![n]) == n,
{
    assert(seq![n].drop_last() =~= Seq::<usize>::empty());
    assert(product(seq![n]) == product(Seq::<usize>::empty()) * (n as nat));
    assert(1 * (n as nat) == n as nat) by (nonlinear_arith);
}

pub proof fn lemma_product_two(m: usize, n: usize)
    ensures
        product(seq![m, n]) == m * n,
{
    lemma_product_one(m);
    assert(seq![m, n].drop_last() =~= seq![m]);
}

/// A shape of one dimension is the list of that dimension.
pub proof fn lemma_rank_one(shape: Seq<usize>)
    requires
        shape.len() == 1,
    ensures
        shape == seq![shape[0]],
        product(shape) == shape[0],
{
    assert(shape =~= seq![shape[0]]);
    lemma_product_one(shape[0]);
}

/// A shape of two dimensions is the list of the two.
pub proof fn lemma_rank_two(shape: Seq<usize>)
    requires
        shape.len() == 2,
    ensures
        shape == seq![shape[0], shape[1]],
        product(shape) == shape[0] * shape[1],
{
    assert(shape =~= seq![shape[0], shape[1]]);
    lemma_product_two(shape[0], shape[1]);
}

/// The element of a matrix in row `i` and column `j`.
pub open spec fn element(t: TensorView, i: int, j: int) -> u64 {
    t.data[i * t.shape[1] + j]
}

/// The element in row `i` and column `j` is in row `j` and column `i` of the
/// transposed matrix.
pub proof fn law_transposed_element(t: TensorView, i: int, j: int)
    requires
        t.ok(),
        t.rank() == 2,
        0 <= i < t.shape[0],
        0 <= j < t.shape[1],
    ensures
        element(transposed(t), j, i) == element(t, i, j),
{
    let rows = t.shape[0] as int;
    let cols = t.shape[1] as int;
    lemma_rank_two(t.shape);
    let k = j * rows + i;
    assert(0 <= k < rows * cols) by (nonlinear_arith)
        requires
            k == j * rows + i,
            0 <= i < rows,
            0 <= j < cols,
    ;
    lemma_fundamental_div_mod_converse(k, rows, j, i);
}

/// Transposing a matrix twice gives it back.
pub proof fn law_transposing_twice_gives_back(t: TensorView)
    requires
        t.ok(),
        t.rank() == 2,
    ensures
        transposed(transposed(t)) == t,
{
    let rows = t.shape[0] as int;
    let cols = t.shape[1] as int;
    let u = transposed(t);
    let w = transposed(u);
    lemma_rank_two(t.shape);
    assert forall|i: int| 0 <= i < t.data.len() implies w.data[i] == t.data[i] by {
        assert(rows > 0 && cols > 0) by (nonlinear_arith)
            requires
                0 <= i < rows * cols,
                rows >= 0,
                cols >= 0,
        ;
        let q = i / cols;
        let r = i % cols;
        let j = r * rows + q;
        vstd::arithmetic::div_mod::lemma_fundamental_div_mod(i, cols);
        assert(i == q * cols + r && 0 <= r < cols) by {
            lemma_mul_is_commutative(cols, q);
        }
        assert(0 <= q < rows) by (nonlinear_arith)
            requires
                i == q * cols + r,
                0 <= i < rows * cols,
                0 <= r < cols,
        ;
        assert(0 <= j < rows * cols) by (nonlinear_arith)
            requires
                j == r * rows + q,
                0 <= r < cols,
                0 <= q < rows,
        ;
        lemma_fundamental_div_mod_converse(j, rows, r, q);
        assert(w.data[i] == u.data[j]);
        assert(u.data[j] == t.data[q * cols + r]);
    }
    assert(w.data =~= t.data);
}

pub proof fn lemma_nonzero_product(shape: Seq<usize>, n: int)
    requires
        0 <= n <= shape.len(),
    ensures
        1 <= nonzero_product(shape.take(n)) <= nonzero_product(shape),
        product(shape) <= nonzero_product(shape),
    decreases shape.len(),
{
    if shape.len() == 0 {
        assert(shape.take(n) =~= shape);
    } else {
        let rest = shape.drop_last();
        let last = shape.last() as int;
        if n == shape.len() {
            lemma_nonzero_product(rest, n - 1);
            assert(shape.take(n) =~= shape);
        } else {
            lemma_nonzero_product(rest, n);
            assert(shape.take(n) =~= rest.take(n));
        }
        let p = nonzero_product(rest) as int;
        if last > 0 {
            assert(1 <= p <= p * last) by (nonlinear_arith)
                requires
                    1 <= p,
                    1 <= last,
            ;
            lemma_mul_inequality(product(rest) as int, p, last);
        } else {
            assert(product(rest) * (0 as nat) == 0) by (nonlinear_arith);
        }
    }
}

/// How many elements a shape has room for, where a tensor of it can be made.
pub fn size_of_shape(shape: &Vec<usize>) -> (r: Option<usize>)
    ensures
        match r {
            Some(n) => is_shape(shape@) && n == product(shape@),
            None => !is_shape(shape@),
        },
{
    let mut all: usize = 1;
    let mut nonzero: usize = 1;
    let mut i: usize = 0;
    assert(shape@.take(0) =~= Seq::empty());
    while i < shape.len()
        invariant
            i <= shape.len(),
            nonzero == nonzero_product(shape@.take(i as int)),
            all == product(shape@.take(i as int)),
            1 <= nonzero <= isize::MAX,
            all <= nonzero,
        decreases shape.len() - i,
    {
        let d: usize = shape[i];
        let ghost next = shape@.take(i + 1);
        proof {
            assert(next.drop_last() =~= shape@.take(i as int));
            lemma_nonzero_product(shape@, i + 1);
            lemma_nonzero_product(next, i + 1);
        }
        if d == 0 {
            all = 0;
            assert(product(shape@.take(i as int)) * (0 as nat) == 0) by (nonlinear_arith);
        } else {
            match nonzero.checked_mul(d) {
                Some(p) => {
                    if p > isize::MAX as usize {
                        return None;
                    }
                    proof {
                        lemma_mul_inequality(all as int, nonzero as int, d as int);
                    }
                    all = all * d;
                    nonzero = p;
                    proof {
                        lemma_nonzero_product(next, i + 1);
                    }
                },
                None => {
                    return None;
                },
            }
        }
        i = i + 1;
    }
    assert(shape@.take(shape@.len() as int) =~= shape@);
    Some(all)
}

/// Whether two shapes are the same.
pub fn same_shape(a: &Vec<usize>, b: &Vec<usize>) -> (answer: bool)
    ensures
        answer == (a@ == b@),
{
    if a.len() != b.len() {
        return false;
    }
    let mut i: usize = 0;
    while i < a.len()
        invariant
            a.len() == b.len(),
            i <= a.len(),
            a@.take(i as int) == b@.take(i as int),
        decreases a.len() - i,
    {
        if a[i] != b[i] {
            assert(a@[i as int] != b@[i as int]);
            return false;
        }
        i = i + 1;
        assert(a@.take(i as int) =~= a@.take(i - 1).push(a@[i - 1]));
        assert(b@.take(i as int) =~= b@.take(i - 1).push(b@[i - 1]));
    }
    assert(a@.take(a@.len() as int) =~= a@);
    assert(b@.take(b@.len() as int) =~= b@);
    true
}

/// A copy of a list of sizes.
pub fn copy_sizes(xs: &Vec<usize>) -> (out: Vec<usize>)
    ensures
        out@ == xs@,
{
    let mut out: Vec<usize> = Vec::new();
    let mut i: usize = 0;
    while i < xs.len()
        invariant
            i <= xs.len(),
            out@ == xs@.take(i as int),
        decreases xs.len() - i,
    {
        out.push(xs[i]);
        i = i + 1;
        assert(out@ =~= xs@.take(i as int));
    }
    assert(xs@.take(xs@.len() as int) =~= xs@);
    out
}

// ---------------------------------------------------------------------------
// The type
// ---------------------------------------------------------------------------

impl Tensor {
    #[verifier::type_invariant]
    closed spec fn inv(self) -> bool {
        self.data@.len() == product(self.shape@)
    }

    /// A tensor of the given shape and elements, where their number fits.
    pub fn new(shape: Vec<usize>, data: Vec<u64>) -> (r: Option<Tensor>)
        ensures
            match r {
                Some(t) => t@ == (TensorView { shape: shape@, data: data@ }) && t@.ok()
                    && is_shape(shape@),
                None => !is_shape(shape@) || data@.len() != product(shape@),
            },
    {
        match size_of_shape(&shape) {
            Some(n) => if n == data.len() {
                Some(Tensor { shape, data })
            } else {
                None
            },
            None => None,
        }
    }

    /// There are as many elements as the shape has room for.
    pub fn shape(&self) -> (out: &Vec<usize>)
        ensures
            out@ == self@.shape,
            self@.ok(),
    {
        proof {
            use_type_invariant(self);
        }
        &self.shape
    }

    /// The elements, row by row.
    pub fn data(&self) -> (out: &Vec<u64>)
        ensures
            out@ == self@.data,
            self@.ok(),
    {
        proof {
            use_type_invariant(self);
        }
        &self.data
    }

    pub fn rank(&self) -> (n: usize)
        ensures
            n == self@.rank(),
            self@.ok(),
    {
        self.shape().len()
    }

    pub fn len(&self) -> (n: usize)
        ensures
            n == self@.data.len(),
            self@.ok(),
    {
        self.data().len()
    }

    /// A tensor whose elements are known to fill its shape.
    pub(crate) fn made(shape: Vec<usize>, data: Vec<u64>) -> (t: Tensor)
        requires
            data@.len() == product(shape@),
        ensures
            t@ == (TensorView { shape: shape@, data: data@ }),
            t@.ok(),
    {
        Tensor { shape, data }
    }

    /// A tensor without dimensions.
    pub fn scalar(x: u64) -> (t: Tensor)
        ensures
            t@ == scalar_tensor(x),
            t@.ok(),
    {
        let shape: Vec<usize> = Vec::new();
        let mut data: Vec<u64> = Vec::new();
        data.push(x);
        assert(shape@ =~= Seq::<usize>::empty());
        assert(data@ =~= seq![x]);
        Tensor { shape, data }
    }

    /// A vector.
    pub fn vector(data: Vec<u64>) -> (t: Tensor)
        ensures
            t@ == (TensorView { shape: seq![data@.len() as usize], data: data@ }),
            t@.ok(),
    {
        let mut shape: Vec<usize> = Vec::new();
        shape.push(data.len());
        proof {
            assert(shape@ =~= seq![data@.len() as usize]);
            lemma_product_one(data@.len() as usize);
        }
        Tensor { shape, data }
    }

    /// Every element `x`. `size` is how many there are.
    pub fn filled(shape: Vec<usize>, size: usize, x: u64) -> (t: Tensor)
        requires
            size == product(shape@),
        ensures
            t@ == filled(shape@, x),
            t@.ok(),
    {
        let mut data: Vec<u64> = Vec::new();
        let mut i: usize = 0;
        while i < size
            invariant
                i <= size,
                data@ == Seq::new(i as nat, |k: int| x),
            decreases size - i,
        {
            data.push(x);
            i = i + 1;
            assert(data@ =~= Seq::new(i as nat, |k: int| x));
        }
        Tensor { shape, data }
    }

    /// Every element `x`, in the shape of `self`.
    pub fn filled_like(&self, x: u64) -> (t: Tensor)
        ensures
            t@ == filled(self@.shape, x),
            t@.ok(),
    {
        Tensor::filled(copy_sizes(self.shape()), self.len(), x)
    }

    /// `op` on every element.
    pub fn map<F: Fn(Query) -> Vec<u64>>(&self, f: &F, op: UnaryOp) -> (t: Tensor)
        requires
            is_arithmetic(f),
        ensures
            t@ == map_elements(meaning(f), op, self@),
            t@.ok(),
    {
        let xs: &Vec<u64> = self.data();
        let mut data: Vec<u64> = Vec::new();
        let mut i: usize = 0;
        while i < xs.len()
            invariant
                is_arithmetic(f),
                xs@ == self@.data,
                i <= xs.len(),
                data@ == map_elements(meaning(f), op, self@).data.take(i as int),
            decreases xs.len() - i,
        {
            data.push(unary(f, op, xs[i]));
            i = i + 1;
            assert(data@ =~= map_elements(meaning(f), op, self@).data.take(i as int));
        }
        assert(data@ =~= map_elements(meaning(f), op, self@).data);
        Tensor::made(copy_sizes(self.shape()), data)
    }

    /// `op` on the elements of two tensors of one shape, pair by pair.
    pub fn zip<F: Fn(Query) -> Vec<u64>>(&self, f: &F, op: BinaryOp, other: &Tensor) -> (t: Tensor)
        requires
            is_arithmetic(f),
            self@.shape == other@.shape,
        ensures
            t@ == zip_elements(meaning(f), op, self@, other@),
            t@.ok(),
    {
        let xs: &Vec<u64> = self.data();
        let ys: &Vec<u64> = other.data();
        let mut data: Vec<u64> = Vec::new();
        let mut i: usize = 0;
        while i < xs.len()
            invariant
                is_arithmetic(f),
                xs@ == self@.data,
                ys@ == other@.data,
                xs.len() == ys.len(),
                i <= xs.len(),
                data@ == zip_elements(meaning(f), op, self@, other@).data.take(i as int),
            decreases xs.len() - i,
        {
            data.push(binary(f, op, xs[i], ys[i]));
            i = i + 1;
            assert(data@ =~= zip_elements(meaning(f), op, self@, other@).data.take(i as int));
        }
        assert(data@ =~= zip_elements(meaning(f), op, self@, other@).data);
        Tensor::made(copy_sizes(self.shape()), data)
    }

    /// `op` on `x` and every element.
    pub fn scalar_first<F: Fn(Query) -> Vec<u64>>(&self, f: &F, op: BinaryOp, x: u64) -> (t: Tensor)
        requires
            is_arithmetic(f),
        ensures
            t@ == left_scalar(meaning(f), op, x, self@),
            t@.ok(),
    {
        let xs: &Vec<u64> = self.data();
        let mut data: Vec<u64> = Vec::new();
        let mut i: usize = 0;
        while i < xs.len()
            invariant
                is_arithmetic(f),
                xs@ == self@.data,
                i <= xs.len(),
                data@ == left_scalar(meaning(f), op, x, self@).data.take(i as int),
            decreases xs.len() - i,
        {
            data.push(binary(f, op, x, xs[i]));
            i = i + 1;
            assert(data@ =~= left_scalar(meaning(f), op, x, self@).data.take(i as int));
        }
        assert(data@ =~= left_scalar(meaning(f), op, x, self@).data);
        Tensor::made(copy_sizes(self.shape()), data)
    }

    /// `op` on every element and `x`.
    pub fn scalar_last<F: Fn(Query) -> Vec<u64>>(&self, f: &F, op: BinaryOp, x: u64) -> (t: Tensor)
        requires
            is_arithmetic(f),
        ensures
            t@ == right_scalar(meaning(f), op, self@, x),
            t@.ok(),
    {
        let xs: &Vec<u64> = self.data();
        let mut data: Vec<u64> = Vec::new();
        let mut i: usize = 0;
        while i < xs.len()
            invariant
                is_arithmetic(f),
                xs@ == self@.data,
                i <= xs.len(),
                data@ == right_scalar(meaning(f), op, self@, x).data.take(i as int),
            decreases xs.len() - i,
        {
            data.push(binary(f, op, xs[i], x));
            i = i + 1;
            assert(data@ =~= right_scalar(meaning(f), op, self@, x).data.take(i as int));
        }
        assert(data@ =~= right_scalar(meaning(f), op, self@, x).data);
        Tensor::made(copy_sizes(self.shape()), data)
    }

    /// Rows become columns.
    pub fn transpose(&self) -> (t: Tensor)
        requires
            self@.rank() == 2,
        ensures
            t@ == transposed(self@),
            t@.ok(),
    {
        let rows: usize = self.shape()[0];
        let cols: usize = self.shape()[1];
        let xs: &Vec<u64> = self.data();
        let ghost goal = transposed(self@).data;
        proof {
            lemma_rank_two(self@.shape);
            lemma_product_two(cols, rows);
            lemma_mul_is_commutative(rows as int, cols as int);
        }
        let mut data: Vec<u64> = Vec::new();
        let mut j: usize = 0;
        assert(0 * rows == 0) by (nonlinear_arith);
        while j < cols
            invariant
                xs@ == self@.data,
                rows == self@.shape[0],
                cols == self@.shape[1],
                xs.len() == rows * cols,
                goal == transposed(self@).data,
                goal.len() == rows * cols,
                j <= cols,
                data.len() == j * rows,
                data@ == goal.take(j * rows),
            decreases cols - j,
        {
            let mut i: usize = 0;
            assert(j * rows + rows == (j + 1) * rows) by (nonlinear_arith);
            assert((j + 1) * rows <= rows * cols) by (nonlinear_arith)
                requires
                    j < cols,
            ;
            while i < rows
                invariant
                    xs@ == self@.data,
                    rows == self@.shape[0],
                    cols == self@.shape[1],
                    xs.len() == rows * cols,
                    goal == transposed(self@).data,
                    goal.len() == rows * cols,
                    j < cols,
                    i <= rows,
                    j * rows + rows <= rows * cols,
                    data.len() == j * rows + i,
                    data@ == goal.take(j * rows + i),
                decreases rows - i,
            {
                let ghost k = j * rows + i;
                proof {
                    assert(i * cols + j < rows * cols) by (nonlinear_arith)
                        requires
                            i < rows,
                            j < cols,
                    ;
                    assert(i * cols >= 0) by (nonlinear_arith);
                    lemma_fundamental_div_mod_converse(k, rows as int, j as int, i as int);
                }
                data.push(xs[i * cols + j]);
                i = i + 1;
                assert(data@ =~= goal.take(k + 1));
            }
            j = j + 1;
        }
        proof {
            lemma_mul_is_commutative(rows as int, cols as int);
            assert(data@ =~= goal);
        }
        let mut shape: Vec<usize> = Vec::new();
        shape.push(cols);
        shape.push(rows);
        assert(shape@ =~= seq![cols, rows]);
        Tensor::made(shape, data)
    }

    /// The same elements in another shape.
    pub fn reshaped(&self, shape: Vec<usize>) -> (t: Tensor)
        requires
            product(shape@) == self@.data.len(),
        ensures
            t@ == (TensorView { shape: shape@, data: self@.data }),
            t@.ok(),
    {
        Tensor::made(shape, copy_words(self.data()))
    }

    /// The elements of two tensors, one behind the other.
    pub fn join(&self, other: &Tensor) -> (t: Tensor)
        requires
            self@.data.len() + other@.data.len() <= usize::MAX,
        ensures
            t@ == joined_vectors(self@, other@),
            t@.ok(),
    {
        let mut data: Vec<u64> = copy_words(self.data());
        let ys: &Vec<u64> = other.data();
        let mut i: usize = 0;
        assert(data@ =~= self@.data + ys@.take(0));
        while i < ys.len()
            invariant
                ys@ == other@.data,
                i <= ys.len(),
                data@ == self@.data + ys@.take(i as int),
            decreases ys.len() - i,
        {
            data.push(ys[i]);
            i = i + 1;
            assert(data@ =~= self@.data + ys@.take(i as int));
        }
        assert(data@ =~= self@.data + other@.data);
        Tensor::vector(data)
    }

    /// The elements as one vector.
    pub fn flatten(&self) -> (t: Tensor)
        ensures
            t@ == flattened(self@),
            t@.ok(),
    {
        Tensor::vector(copy_words(self.data()))
    }
}

impl Clone for Tensor {
    fn clone(&self) -> (t: Tensor)
        ensures
            t@ == self@,
            t@.ok(),
    {
        Tensor::made(copy_sizes(self.shape()), copy_words(self.data()))
    }
}

/// A shape has room for one element where it has no dimensions, and for as many
/// times more as its last dimension says. A tensor can be made where the sizes
/// that are not zero, multiplied, are no more than a machine word counts.
pub proof fn law_room_of_a_shape(shape: Seq<usize>, n: usize)
    ensures
        product(Seq::<usize>::empty()) == 1,
        product(shape.push(n)) == product(shape) * n,
        is_shape(Seq::<usize>::empty()),
        n == 0 ==> (is_shape(shape.push(n)) <==> is_shape(shape)),
        is_shape(shape) && product(shape) > 0 && n > 0 ==> (is_shape(shape.push(n)) <==> product(
            shape,
        ) * n <= isize::MAX),
{
    assert(shape.push(n).drop_last() =~= shape);
    if product(shape) > 0 {
        lemma_all_nonzero(shape);
    }
}

/// Where a shape has room for an element, no size of it is zero.
proof fn lemma_all_nonzero(shape: Seq<usize>)
    requires
        product(shape) > 0,
    ensures
        nonzero_product(shape) == product(shape),
    decreases shape.len(),
{
    if shape.len() > 0 {
        let rest = shape.drop_last();
        let last = shape.last() as nat;
        assert(product(rest) > 0 && last > 0) by (nonlinear_arith)
            requires
                product(rest) * last > 0,
        ;
        lemma_all_nonzero(rest);
    }
}

} // verus!
