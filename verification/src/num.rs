//! Floating-point numbers, as their 64-bit patterns.
//!
//! The library does no floating-point arithmetic of its own. It asks for it:
//! a caller hands over a function that answers each [`Query`] with machine
//! words, and every contract that speaks of numbers is stated over what that
//! function answers.

use vstd::prelude::*;

verus! {

/// The bit pattern of 0.
pub const ZERO: u64 = 0;

/// The bit pattern of 1.
pub const ONE: u64 = 0x3FF0_0000_0000_0000;

/// The bit pattern of one half.
pub const HALF: u64 = 0x3FE0_0000_0000_0000;

/// The bit pattern of 2.
pub const TWO: u64 = 0x4000_0000_0000_0000;

#[derive(Debug, Clone, Copy, PartialEq, Eq, Structural)]
pub enum UnaryOp {
    Neg,
    Exp,
    Log,
    Tanh,
    Sqrt,
    Abs,
}

#[derive(Debug, Clone, Copy, PartialEq, Eq, Structural)]
pub enum BinaryOp {
    Add,
    Sub,
    Mul,
    Div,
    Pow,
    Max,
    Min,
}

#[derive(Debug, Clone, Copy, PartialEq, Eq, Structural)]
pub enum Relation {
    Eq,
    Lt,
    Le,
    Gt,
    Ge,
}

/// A piece of floating-point work. Numbers are given and answered as bit
/// patterns, one word each.
#[derive(Debug)]
pub enum Query {
    /// The number that a decimal literal denotes.
    Parse(String),
    /// The number nearest to an integer.
    FromInt(i64),
    /// A function of one number.
    Unary(UnaryOp, u64),
    /// A function of two numbers.
    Binary(BinaryOp, u64, u64),
    /// Whether two numbers are so related: 1 or 0, as an integer.
    Compare(Relation, u64, u64),
    /// A number cut down to a size, as an integer: 0 for what is negative or
    /// no number, the greatest size for what is beyond it.
    ToSize(u64),
    /// The sum of numbers.
    Sum(Vec<u64>),
    /// The product of an `m` by `k` and a `k` by `n` matrix, all row by row.
    MatMul { m: usize, k: usize, n: usize, a: Vec<u64>, b: Vec<u64> },
    /// The product of an `m` by `k` matrix, row by row, and a vector.
    MatVec { m: usize, k: usize, a: Vec<u64>, v: Vec<u64> },
}

#[verifier::ext_equal]
pub enum QueryView {
    Parse(Seq<char>),
    FromInt(i64),
    Unary(UnaryOp, u64),
    Binary(BinaryOp, u64, u64),
    Compare(Relation, u64, u64),
    ToSize(u64),
    Sum(Seq<u64>),
    MatMul { m: usize, k: usize, n: usize, a: Seq<u64>, b: Seq<u64> },
    MatVec { m: usize, k: usize, a: Seq<u64>, v: Seq<u64> },
}

impl View for Query {
    type V = QueryView;

    open spec fn view(&self) -> QueryView {
        match *self {
            Query::Parse(s) => QueryView::Parse(s@),
            Query::FromInt(n) => QueryView::FromInt(n),
            Query::Unary(op, x) => QueryView::Unary(op, x),
            Query::Binary(op, x, y) => QueryView::Binary(op, x, y),
            Query::Compare(r, x, y) => QueryView::Compare(r, x, y),
            Query::ToSize(x) => QueryView::ToSize(x),
            Query::Sum(xs) => QueryView::Sum(xs@),
            Query::MatMul { m, k, n, a, b } => QueryView::MatMul { m, k, n, a: a@, b: b@ },
            Query::MatVec { m, k, a, v } => QueryView::MatVec { m, k, a: a@, v: v@ },
        }
    }
}

// ---------------------------------------------------------------------------
// What a caller's arithmetic means
// ---------------------------------------------------------------------------

/// What an arithmetic answers to every query.
pub type Arith = spec_fn(QueryView) -> Seq<u64>;

/// Whether `words` is an answer that `f` may give to a query.
pub open spec fn answers<F: Fn(Query) -> Vec<u64>>(f: &F, q: QueryView, words: Seq<u64>) -> bool {
    exists|query: Query, reply: Vec<u64>|
        query@ == q && reply@ == words && #[trigger] call_ensures(f, (query,), reply)
}

/// Whether `f` can do arithmetic: it takes every query, and answers equal
/// queries equally.
pub open spec fn is_arithmetic<F: Fn(Query) -> Vec<u64>>(f: &F) -> bool {
    &&& forall|query: Query| #[trigger] call_requires(f, (query,))
    &&& forall|q: QueryView, a: Seq<u64>, b: Seq<u64>|
        #![trigger answers(f, q, a), answers(f, q, b)]
        answers(f, q, a) && answers(f, q, b) ==> a == b
}

/// What `f` answers.
pub open spec fn meaning<F: Fn(Query) -> Vec<u64>>(f: &F) -> Arith {
    |q: QueryView| choose|words: Seq<u64>| answers(f, q, words)
}

/// Asks for a piece of work.
pub fn ask<F: Fn(Query) -> Vec<u64>>(f: &F, query: Query) -> (reply: Vec<u64>)
    requires
        is_arithmetic(f),
    ensures
        reply@ == meaning(f)(query@),
{
    let ghost q = query@;
    let ghost sent = query;
    let reply: Vec<u64> = f(query);
    proof {
        assert(call_ensures(f, (sent,), reply));
        assert(answers(f, q, reply@));
        let chosen = choose|words: Seq<u64>| answers(f, q, words);
        assert(answers(f, q, chosen));
        assert(chosen == reply@);
    }
    reply
}

/// One word of an answer; a word that is missing is 0.
pub open spec fn word(reply: Seq<u64>, i: int) -> u64 {
    if 0 <= i < reply.len() {
        reply[i]
    } else {
        0
    }
}

/// The first `n` words of an answer.
pub open spec fn words(reply: Seq<u64>, n: nat) -> Seq<u64> {
    Seq::new(n, |i: int| word(reply, i))
}

fn first_word(reply: &Vec<u64>) -> (w: u64)
    ensures
        w == word(reply@, 0),
{
    if reply.len() > 0 {
        reply[0]
    } else {
        0
    }
}

fn take_words(reply: &Vec<u64>, n: usize) -> (out: Vec<u64>)
    ensures
        out@ == words(reply@, n as nat),
{
    let mut out: Vec<u64> = Vec::new();
    let mut i: usize = 0;
    while i < n
        invariant
            i <= n,
            out@ == words(reply@, i as nat),
        decreases n - i,
    {
        let w: u64 = if i < reply.len() {
            reply[i]
        } else {
            0
        };
        out.push(w);
        i = i + 1;
        assert(out@ =~= words(reply@, i as nat));
    }
    out
}

// ---------------------------------------------------------------------------
// The operations
// ---------------------------------------------------------------------------

pub open spec fn parsed(m: Arith, text: Seq<char>) -> u64 {
    word(m(QueryView::Parse(text)), 0)
}

pub open spec fn from_int(m: Arith, n: i64) -> u64 {
    word(m(QueryView::FromInt(n)), 0)
}

pub open spec fn un(m: Arith, op: UnaryOp, x: u64) -> u64 {
    word(m(QueryView::Unary(op, x)), 0)
}

pub open spec fn bin(m: Arith, op: BinaryOp, x: u64, y: u64) -> u64 {
    word(m(QueryView::Binary(op, x, y)), 0)
}

pub open spec fn holds(m: Arith, r: Relation, x: u64, y: u64) -> bool {
    word(m(QueryView::Compare(r, x, y)), 0) != 0
}

pub open spec fn to_size(m: Arith, x: u64) -> usize {
    word(m(QueryView::ToSize(x)), 0) as usize
}

pub open spec fn total(m: Arith, xs: Seq<u64>) -> u64 {
    word(m(QueryView::Sum(xs)), 0)
}

pub open spec fn mat_mul(
    m: Arith,
    rows: usize,
    inner: usize,
    cols: usize,
    a: Seq<u64>,
    b: Seq<u64>,
) -> Seq<u64> {
    words(m(QueryView::MatMul { m: rows, k: inner, n: cols, a, b }), (rows * cols) as nat)
}

pub open spec fn mat_vec(m: Arith, rows: usize, inner: usize, a: Seq<u64>, v: Seq<u64>) -> Seq<
    u64,
> {
    words(m(QueryView::MatVec { m: rows, k: inner, a, v }), rows as nat)
}

pub fn parse_float<F: Fn(Query) -> Vec<u64>>(f: &F, text: &str) -> (x: u64)
    requires
        is_arithmetic(f),
    ensures
        x == parsed(meaning(f), text@),
{
    first_word(&ask(f, Query::Parse(text.to_owned())))
}

pub fn float_of_int<F: Fn(Query) -> Vec<u64>>(f: &F, n: i64) -> (x: u64)
    requires
        is_arithmetic(f),
    ensures
        x == from_int(meaning(f), n),
{
    first_word(&ask(f, Query::FromInt(n)))
}

pub fn unary<F: Fn(Query) -> Vec<u64>>(f: &F, op: UnaryOp, x: u64) -> (y: u64)
    requires
        is_arithmetic(f),
    ensures
        y == un(meaning(f), op, x),
{
    first_word(&ask(f, Query::Unary(op, x)))
}

pub fn binary<F: Fn(Query) -> Vec<u64>>(f: &F, op: BinaryOp, x: u64, y: u64) -> (z: u64)
    requires
        is_arithmetic(f),
    ensures
        z == bin(meaning(f), op, x, y),
{
    first_word(&ask(f, Query::Binary(op, x, y)))
}

pub fn related<F: Fn(Query) -> Vec<u64>>(f: &F, r: Relation, x: u64, y: u64) -> (answer: bool)
    requires
        is_arithmetic(f),
    ensures
        answer == holds(meaning(f), r, x, y),
{
    first_word(&ask(f, Query::Compare(r, x, y))) != 0
}

pub fn size_of_float<F: Fn(Query) -> Vec<u64>>(f: &F, x: u64) -> (n: usize)
    requires
        is_arithmetic(f),
    ensures
        n == to_size(meaning(f), x),
{
    first_word(&ask(f, Query::ToSize(x))) as usize
}

pub fn sum_of<F: Fn(Query) -> Vec<u64>>(f: &F, xs: &Vec<u64>) -> (x: u64)
    requires
        is_arithmetic(f),
    ensures
        x == total(meaning(f), xs@),
{
    first_word(&ask(f, Query::Sum(copy_words(xs))))
}

/// A copy of a list of words.
pub fn copy_words(xs: &Vec<u64>) -> (out: Vec<u64>)
    ensures
        out@ == xs@,
{
    let mut out: Vec<u64> = Vec::new();
    let mut i: usize = 0;
    while i < xs.len()
        invariant
            i <= xs.len(),
            out@ == xs@.take(i as int),
        decreases xs.len() - i,
    {
        out.push(xs[i]);
        i = i + 1;
        assert(out@ =~= xs@.take(i as int));
    }
    assert(xs@.take(xs@.len() as int) =~= xs@);
    out
}

pub fn matrix_product<F: Fn(Query) -> Vec<u64>>(
    f: &F,
    rows: usize,
    inner: usize,
    cols: usize,
    a: &Vec<u64>,
    b: &Vec<u64>,
    size: usize,
) -> (out: Vec<u64>)
    requires
        is_arithmetic(f),
        size == rows * cols,
    ensures
        out@ == mat_mul(meaning(f), rows, inner, cols, a@, b@),
{
    let reply: Vec<u64> = ask(
        f,
        Query::MatMul { m: rows, k: inner, n: cols, a: copy_words(a), b: copy_words(b) },
    );
    take_words(&reply, size)
}

pub fn matrix_vector_product<F: Fn(Query) -> Vec<u64>>(
    f: &F,
    rows: usize,
    inner: usize,
    a: &Vec<u64>,
    v: &Vec<u64>,
) -> (out: Vec<u64>)
    requires
        is_arithmetic(f),
    ensures
        out@ == mat_vec(meaning(f), rows, inner, a@, v@),
{
    let reply: Vec<u64> = ask(
        f,
        Query::MatVec { m: rows, k: inner, a: copy_words(a), v: copy_words(v) },
    );
    take_words(&reply, rows)
}

// ---------------------------------------------------------------------------
// Questions and answers
// ---------------------------------------------------------------------------

/// Every question is what it says.
pub proof fn law_questions(
    text: String,
    n: i64,
    k: UnaryOp,
    op: BinaryOp,
    r: Relation,
    x: u64,
    y: u64,
    xs: Vec<u64>,
    ys: Vec<u64>,
    rows: usize,
    inner: usize,
    cols: usize,
)
    ensures
        Query::Parse(text)@ == QueryView::Parse(text@),
        Query::FromInt(n)@ == QueryView::FromInt(n),
        Query::Unary(k, x)@ == QueryView::Unary(k, x),
        Query::Binary(op, x, y)@ == QueryView::Binary(op, x, y),
        Query::Compare(r, x, y)@ == QueryView::Compare(r, x, y),
        Query::ToSize(x)@ == QueryView::ToSize(x),
        Query::Sum(xs)@ == QueryView::Sum(xs@),
        (Query::MatMul { m: rows, k: inner, n: cols, a: xs, b: ys })@ == (QueryView::MatMul {
            m: rows,
            k: inner,
            n: cols,
            a: xs@,
            b: ys@,
        }),
        (Query::MatVec { m: rows, k: inner, a: xs, v: ys })@ == (QueryView::MatVec {
            m: rows,
            k: inner,
            a: xs@,
            v: ys@,
        }),
{
}

/// A number is the first word of the answer to its question; a relation holds
/// where that word is not zero.
pub proof fn law_numbers_are_answers(
    m: Arith,
    text: Seq<char>,
    n: i64,
    k: UnaryOp,
    op: BinaryOp,
    r: Relation,
    x: u64,
    y: u64,
    xs: Seq<u64>,
)
    ensures
        m(QueryView::Parse(text)).len() > 0 ==> parsed(m, text) == m(QueryView::Parse(text))[0],
        m(QueryView::FromInt(n)).len() > 0 ==> from_int(m, n) == m(QueryView::FromInt(n))[0],
        m(QueryView::Unary(k, x)).len() > 0 ==> un(m, k, x) == m(QueryView::Unary(k, x))[0],
        m(QueryView::Binary(op, x, y)).len() > 0 ==> bin(m, op, x, y) == m(
            QueryView::Binary(op, x, y),
        )[0],
        m(QueryView::Compare(r, x, y)).len() > 0 ==> (holds(m, r, x, y) <==> m(
            QueryView::Compare(r, x, y),
        )[0] != 0),
        m(QueryView::ToSize(x)).len() > 0 && m(QueryView::ToSize(x))[0] <= usize::MAX ==> to_size(
            m,
            x,
        ) == m(QueryView::ToSize(x))[0],
        m(QueryView::Sum(xs)).len() > 0 ==> total(m, xs) == m(QueryView::Sum(xs))[0],
{
}

/// The elements of a product are the words of the answer, row by row.
pub proof fn law_products_are_answers(
    m: Arith,
    rows: usize,
    inner: usize,
    cols: usize,
    a: Seq<u64>,
    b: Seq<u64>,
)
    ensures
        ({
            let reply = m(QueryView::MatMul { m: rows, k: inner, n: cols, a, b });
            let product = mat_mul(m, rows, inner, cols, a, b);
            &&& product.len() == rows * cols
            &&& reply.len() == rows * cols ==> product == reply
        }),
        ({
            let reply = m(QueryView::MatVec { m: rows, k: inner, a, v: b });
            let product = mat_vec(m, rows, inner, a, b);
            &&& product.len() == rows
            &&& reply.len() == rows ==> product == reply
        }),
{
    assert(rows * cols >= 0) by (nonlinear_arith)
        requires
            rows >= 0,
            cols >= 0,
    ;
    let reply = m(QueryView::MatMul { m: rows, k: inner, n: cols, a, b });
    if reply.len() == rows * cols {
        assert(mat_mul(m, rows, inner, cols, a, b) =~= reply);
    }
    let reply = m(QueryView::MatVec { m: rows, k: inner, a, v: b });
    if reply.len() == rows {
        assert(mat_vec(m, rows, inner, a, b) =~= reply);
    }
}

/// What zero, one half, one and two are as bit patterns: the exponent of a power
/// of two stands 1023 above its own, in front of 52 bits.
pub proof fn law_constants()
    ensures
        ZERO == 0,
        ONE == 1023 * 0x10_0000_0000_0000,
        HALF == 1022 * 0x10_0000_0000_0000,
        TWO == 1024 * 0x10_0000_0000_0000,
{
}

} // verus!
