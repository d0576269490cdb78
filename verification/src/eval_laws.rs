//! What holds of evaluation as a whole.

use crate::ast::{BinOpKind, ExprView, LiteralView, TopLevelView};
use crate::autodiff::{
    added, contributions, gradients, recorded, seeds, walked, NodeView, Op, TapeView, TapesView,
};
use crate::interpreter::{
    apply_model, arity, binop_model, builtin_many, builtin_one, curried, difference, eval_model,
    eval_row, eval_rows, function_value, functions_defined, grad_input, grad_model,
    iterate_model, lifted, negated, on_tape, outcome_is, plain_binop, program_globals,
    program_value, result_is, traced_binop, values_defined, with_builtins, DifferenceView,
    Outcome,
};
use crate::num::{
    bin, from_int, holds, mat_mul, mat_vec, to_size, total, un, word, Arith, BinaryOp, QueryView,
    Relation, UnaryOp, ZERO,
};
use crate::slope_laws::beside;
use crate::tensor::{
    element, is_shape, law_transposed_element, law_transposing_twice_gives_back, lemma_product_two,
    lemma_rank_two, nonzero_product, product, scalar_tensor, transposed, TensorView,
};
use crate::text::{decimal, str_debug};
use crate::value::{
    find_local, scope, BuiltinFn, EnvView, EvalError, EvalErrorView, GlobalsView, LocalsView, Value,
    ValueView,
};
use vstd::arithmetic::div_mod::lemma_fundamental_div_mod;
use vstd::arithmetic::mul::lemma_mul_is_commutative;
use vstd::prelude::*;

verus! {

// ---------------------------------------------------------------------------
// Scopes
// ---------------------------------------------------------------------------

/// A new binding is found under its name and changes no other.
pub proof fn law_binding_hides_only_its_name(env: EnvView, name: Seq<char>, v: ValueView)
    ensures
        env.bind(name, v).find(name) == Some(v),
        forall|other: Seq<char>|
            other != name ==> #[trigger] env.bind(name, v).find(other) == env.find(other),
{
}

/// A top-level definition is known to every scope, whenever that was made: it
/// is found wherever no local binding hides it, the nearest local binding is
/// found where one does, and other names are as before.
pub proof fn law_definition_is_found(
    locals: LocalsView,
    globals: GlobalsView,
    name: Seq<char>,
    v: ValueView,
)
    ensures
        scope(locals, globals.insert(name, v)).find(name) == match find_local(locals, name) {
            Some(nearest) => Some(nearest),
            None => Some(v),
        },
        forall|other: Seq<char>|
            other != name ==> #[trigger] scope(locals, globals.insert(name, v)).find(other)
                == scope(locals, globals).find(other),
{
}

// ---------------------------------------------------------------------------
// The limit on calls
// ---------------------------------------------------------------------------

/// Whether a result did not run into the limit on calls.
pub open spec fn within_limit<T>(r: Outcome<T>) -> bool {
    r.0 != Err::<T, EvalErrorView>(EvalErrorView::CallDepth)
}

/// The limit on how deep calls nest has no effect but to stop: what ends
/// without running into it ends the same under every higher limit.
pub proof fn law_limit_only_stops(
    m: Arith,
    e: ExprView,
    env: EnvView,
    low: nat,
    high: nat,
    tapes: TapesView,
)
    requires
        low <= high,
        within_limit(eval_model(m, e, env, low, tapes)),
    ensures
        eval_model(m, e, env, high, tapes) == eval_model(m, e, env, low, tapes),
{
    lemma_limit_eval(m, e, env, low, high, tapes);
}

proof fn lemma_limit_eval(
    m: Arith,
    e: ExprView,
    env: EnvView,
    low: nat,
    high: nat,
    tapes: TapesView,
)
    requires
        low <= high,
    ensures
        within_limit(eval_model(m, e, env, low, tapes)) ==> eval_model(m, e, env, high, tapes)
            == eval_model(m, e, env, low, tapes),
    decreases low, 3int, e, 0nat,
{
    match e {
        ExprView::UnaryMinus(x) => {
            lemma_limit_eval(m, *x, env, low, high, tapes);
        },
        ExprView::BinOp { op, left, right } => {
            lemma_limit_eval(m, *left, env, low, high, tapes);
            let (l, after) = eval_model(m, *left, env, low, tapes);
            lemma_limit_eval(m, *right, env, low, high, after);
        },
        ExprView::App(f, a) => {
            lemma_limit_eval(m, *f, env, low, high, tapes);
            let (fv, t1) = eval_model(m, *f, env, low, tapes);
            lemma_limit_eval(m, *a, env, low, high, t1);
            let (av, t2) = eval_model(m, *a, env, low, t1);
            if let (Ok(fv), Ok(av)) = (fv, av) {
                lemma_limit_apply(m, fv, av, env.globals, low, high, t2);
            }
        },
        ExprView::Pipe(a, f) => {
            lemma_limit_eval(m, *a, env, low, high, tapes);
            let (av, t1) = eval_model(m, *a, env, low, tapes);
            lemma_limit_eval(m, *f, env, low, high, t1);
            let (fv, t2) = eval_model(m, *f, env, low, t1);
            if let (Ok(fv), Ok(av)) = (fv, av) {
                lemma_limit_apply(m, fv, av, env.globals, low, high, t2);
            }
        },
        ExprView::Let { name, params, value, body } => {
            if params.len() == 0 {
                lemma_limit_eval(m, *value, env, low, high, tapes);
                let (v, t1) = eval_model(m, *value, env, low, tapes);
                if let Ok(v) = v {
                    lemma_limit_eval(m, *body, env.bind(name, v), low, high, t1);
                }
            } else {
                let v = function_value(params, *value, env.locals);
                lemma_limit_eval(m, *body, env.bind(name, v), low, high, tapes);
            }
        },
        ExprView::If { cond, then, else_ } => {
            lemma_limit_eval(m, *cond, env, low, high, tapes);
            let (c, t1) = eval_model(m, *cond, env, low, tapes);
            lemma_limit_eval(m, *then, env, low, high, t1);
            lemma_limit_eval(m, *else_, env, low, high, t1);
        },
        ExprView::TensorLit(rows) => {
            lemma_limit_rows(m, rows, rows.len(), env, low, high, tapes);
        },
        _ => {},
    }
}

proof fn lemma_limit_rows(
    m: Arith,
    rows: Seq<Seq<ExprView>>,
    n: nat,
    env: EnvView,
    low: nat,
    high: nat,
    tapes: TapesView,
)
    requires
        low <= high,
    ensures
        within_limit(eval_rows(m, rows, n, env, low, tapes)) ==> eval_rows(
            m,
            rows,
            n,
            env,
            high,
            tapes,
        ) == eval_rows(m, rows, n, env, low, tapes),
    decreases low, 3int, rows, n,
{
    if 0 < n <= rows.len() {
        lemma_limit_rows(m, rows, (n - 1) as nat, env, low, high, tapes);
        let (front, t1) = eval_rows(m, rows, (n - 1) as nat, env, low, tapes);
        let row = rows[n - 1];
        lemma_limit_row(m, row, row.len(), env, low, high, t1);
    }
}

proof fn lemma_limit_row(
    m: Arith,
    row: Seq<ExprView>,
    n: nat,
    env: EnvView,
    low: nat,
    high: nat,
    tapes: TapesView,
)
    requires
        low <= high,
    ensures
        within_limit(eval_row(m, row, n, env, low, tapes)) ==> eval_row(
            m,
            row,
            n,
            env,
            high,
            tapes,
        ) == eval_row(m, row, n, env, low, tapes),
    decreases low, 3int, row, n,
{
    if 0 < n <= row.len() {
        lemma_limit_row(m, row, (n - 1) as nat, env, low, high, tapes);
        let (front, t1) = eval_row(m, row, (n - 1) as nat, env, low, tapes);
        lemma_limit_eval(m, row[n - 1], env, low, high, t1);
    }
}

proof fn lemma_limit_apply(
    m: Arith,
    f: ValueView,
    a: ValueView,
    globals: GlobalsView,
    low: nat,
    high: nat,
    tapes: TapesView,
)
    requires
        low <= high,
    ensures
        within_limit(apply_model(m, f, a, globals, low, tapes)) ==> apply_model(
            m,
            f,
            a,
            globals,
            high,
            tapes,
        ) == apply_model(m, f, a, globals, low, tapes),
    decreases low, 2int, f, 0nat,
{
    match f {
        ValueView::Closure { param, body, env } => {
            if low > 0 {
                lemma_limit_eval(
                    m,
                    body,
                    (EnvView { locals: env, globals }).bind(param, a),
                    (low - 1) as nat,
                    (high - 1) as nat,
                    tapes,
                );
            }
        },
        ValueView::PartialBuiltin(b, args) => {
            if args.len() + 1 == arity(b) {
                lemma_limit_many(m, b, args.push(a), globals, low, high, tapes);
            }
        },
        _ => {},
    }
}

proof fn lemma_limit_many(
    m: Arith,
    b: BuiltinFn,
    args: Seq<ValueView>,
    globals: GlobalsView,
    low: nat,
    high: nat,
    tapes: TapesView,
)
    requires
        low <= high,
    ensures
        within_limit(builtin_many(m, b, args, globals, low, tapes)) ==> builtin_many(
            m,
            b,
            args,
            globals,
            high,
            tapes,
        ) == builtin_many(m, b, args, globals, low, tapes),
    decreases low, 1int, args, 0nat,
{
    match b {
        BuiltinFn::Grad => {
            lemma_limit_grad(m, args[0], args[1], globals, low, high, tapes);
        },
        BuiltinFn::Iterate => {
            if let ValueView::Int(n) = args[1] {
                if low > 0 {
                    lemma_limit_iterate(
                        m,
                        args[2],
                        args[0],
                        if n > 0 {
                            n as nat
                        } else {
                            0
                        },
                        globals,
                        (low - 1) as nat,
                        (high - 1) as nat,
                        tapes,
                    );
                }
            }
        },
        _ => {},
    }
}

proof fn lemma_limit_grad(
    m: Arith,
    f: ValueView,
    x: ValueView,
    globals: GlobalsView,
    low: nat,
    high: nat,
    tapes: TapesView,
)
    requires
        low <= high,
    ensures
        within_limit(grad_model(m, f, x, globals, low, tapes)) ==> grad_model(
            m,
            f,
            x,
            globals,
            high,
            tapes,
        ) == grad_model(m, f, x, globals, low, tapes),
    decreases low, 0int, f, 0nat,
{
    if let Ok(input) = grad_input(m, x) {
        if low > 0 {
            let start = recorded(
                tapes.push(Seq::empty()),
                NodeView { value: input, op: Op::Leaf },
            );
            lemma_limit_apply(
                m,
                f,
                ValueView::Traced(0),
                globals,
                (low - 1) as nat,
                (high - 1) as nat,
                start,
            );
        }
    }
}

proof fn lemma_limit_iterate(
    m: Arith,
    step: ValueView,
    v: ValueView,
    n: nat,
    globals: GlobalsView,
    low: nat,
    high: nat,
    tapes: TapesView,
)
    requires
        low <= high,
    ensures
        within_limit(iterate_model(m, step, v, n, globals, low, tapes)) ==> iterate_model(
            m,
            step,
            v,
            n,
            globals,
            high,
            tapes,
        ) == iterate_model(m, step, v, n, globals, low, tapes),
    decreases low, 4int, step, n,
{
    if n > 0 {
        lemma_limit_iterate(m, step, v, (n - 1) as nat, globals, low, high, tapes);
        let (before, t1) = iterate_model(m, step, v, (n - 1) as nat, globals, low, tapes);
        if let Ok(before) = before {
            lemma_limit_apply(m, step, before, globals, low, high, t1);
        }
    }
}

// ---------------------------------------------------------------------------
// Tapes
// ---------------------------------------------------------------------------

/// Whether every node was computed from earlier ones.
pub open spec fn node_in_order(t: TapeView, i: int) -> bool {
    match t[i].op {
        Op::Leaf => true,
        Op::Add(a, b) | Op::Sub(a, b) | Op::Mul(a, b) | Op::Div(a, b) | Op::Pow(a, b) | Op::MatMul(
            a,
            b,
        ) => a < i && b < i,
        Op::Neg(a) | Op::Exp(a) | Op::Log(a) | Op::Tanh(a) | Op::Sqrt(a) | Op::Sum(a) | Op::Mean(
            a,
        ) => a < i,
    }
}

pub open spec fn tape_in_order(t: TapeView) -> bool {
    forall|i: int| 0 <= i < t.len() ==> #[trigger] node_in_order(t, i)
}

/// Whether one tape starts with all of another.
pub open spec fn continues_tape(t: TapeView, u: TapeView) -> bool {
    &&& t.len() <= u.len()
    &&& forall|i: int| 0 <= i < t.len() ==> #[trigger] u[i] == t[i]
    &&& tape_in_order(t) ==> tape_in_order(u)
}

/// Whether tapes differ from earlier ones only in nodes added to the innermost.
pub open spec fn grown(before: TapesView, after: TapesView) -> bool {
    &&& after.len() == before.len()
    &&& forall|i: int| 0 <= i < before.len() - 1 ==> #[trigger] after[i] == before[i]
    &&& before.len() > 0 ==> continues_tape(before.last(), after.last())
}

proof fn lemma_grown_transitive(a: TapesView, b: TapesView, c: TapesView)
    requires
        grown(a, b),
        grown(b, c),
    ensures
        grown(a, c),
{
    assert forall|i: int| 0 <= i < a.len() - 1 implies #[trigger] c[i] == a[i] by {
        assert(b[i] == a[i]);
    }
    if a.len() > 0 {
        assert forall|i: int| 0 <= i < a.last().len() implies #[trigger] c.last()[i]
            == a.last()[i] by {
            assert(b.last()[i] == a.last()[i]);
        }
    }
}

proof fn lemma_recorded_grown(tapes: TapesView, node: NodeView)
    requires
        tapes.len() > 0,
        node_in_order(tapes.last().push(node), tapes.last().len() as int),
    ensures
        grown(tapes, recorded(tapes, node)),
{
    let t = tapes.last();
    let u = t.push(node);
    if tape_in_order(t) {
        assert forall|i: int| 0 <= i < u.len() implies #[trigger] node_in_order(u, i) by {
            if i < t.len() {
                assert(node_in_order(t, i));
            }
        }
    }
}

proof fn lemma_lifted_grown(m: Arith, v: ValueView, tapes: TapesView)
    ensures
        grown(tapes, lifted(m, v, tapes).1),
        lifted(m, v, tapes).0 matches Ok(id) ==> on_tape(lifted(m, v, tapes).1, id),
{
    if tapes.len() > 0 {
        let t = match v {
            ValueView::Int(n) => scalar_tensor(crate::num::from_int(m, n)),
            ValueView::Float(x) => scalar_tensor(x),
            ValueView::Tensor(t) => t,
            _ => scalar_tensor(ZERO),
        };
        lemma_recorded_grown(tapes, NodeView { value: t, op: Op::Leaf });
    }
}

proof fn lemma_traced_binop_grown(
    m: Arith,
    op: BinOpKind,
    l: ValueView,
    r: ValueView,
    tapes: TapesView,
)
    ensures
        grown(tapes, traced_binop(m, op, l, r, tapes).1),
{
    lemma_lifted_grown(m, l, tapes);
    let (a, t1) = lifted(m, l, tapes);
    if let Ok(a) = a {
        lemma_lifted_grown(m, r, t1);
        let (b, t2) = lifted(m, r, t1);
        lemma_grown_transitive(tapes, t1, t2);
        if let Ok(b) = b {
            if let Ok(node) = crate::autodiff::binop_node(m, op, t2.last(), a, b) {
                assert(a < t2.last().len());
                assert(node_in_order(t2.last().push(node), t2.last().len() as int));
                lemma_recorded_grown(t2, node);
                lemma_grown_transitive(tapes, t2, recorded(t2, node));
            }
        }
    }
}

proof fn lemma_builtin_one_grown(m: Arith, b: BuiltinFn, v: ValueView, tapes: TapesView)
    ensures
        grown(tapes, builtin_one(m, b, v, tapes).1),
{
    if let ValueView::Traced(id) = v {
        if on_tape(tapes, id) {
            let after = builtin_one(m, b, v, tapes).1;
            if b == BuiltinFn::Softmax {
                let x = tapes.last()[id as int].value;
                let e = crate::tensor::map_elements(m, crate::num::UnaryOp::Exp, x);
                let ei = tapes.last().len() as usize;
                let n1 = NodeView { value: e, op: Op::Exp(id) };
                lemma_recorded_grown(tapes, n1);
                let t1 = recorded(tapes, n1);
                let si = t1.last().len() as usize;
                let n2 = NodeView {
                    value: scalar_tensor(crate::num::total(m, e.data)),
                    op: Op::Sum(ei),
                };
                lemma_recorded_grown(t1, n2);
                let t2 = recorded(t1, n2);
                lemma_grown_transitive(tapes, t1, t2);
                lemma_traced_binop_grown(
                    m,
                    BinOpKind::Div,
                    ValueView::Traced(ei),
                    ValueView::Traced(si),
                    t2,
                );
                lemma_grown_transitive(tapes, t2, after);
            } else if after != tapes {
                let node = after.last().last();
                assert(after.last() =~= tapes.last().push(node));
                assert(after =~= recorded(tapes, node));
                lemma_recorded_grown(tapes, node);
            }
        }
    }
}

proof fn lemma_negated_grown(m: Arith, v: ValueView, tapes: TapesView)
    ensures
        grown(tapes, negated(m, v, tapes).1),
{
    if let ValueView::Traced(id) = v {
        if on_tape(tapes, id) {
            let node = NodeView {
                value: crate::tensor::map_elements(
                    m,
                    crate::num::UnaryOp::Neg,
                    tapes.last()[id as int].value,
                ),
                op: Op::Neg(id),
            };
            lemma_recorded_grown(tapes, node);
        }
    }
}

proof fn lemma_eval_grown(m: Arith, e: ExprView, env: EnvView, depth: nat, tapes: TapesView)
    ensures
        grown(tapes, eval_model(m, e, env, depth, tapes).1),
    decreases depth, 3int, e, 0nat,
{
    match e {
        ExprView::UnaryMinus(x) => {
            lemma_eval_grown(m, *x, env, depth, tapes);
            let (v, t1) = eval_model(m, *x, env, depth, tapes);
            if let Ok(v) = v {
                lemma_negated_grown(m, v, t1);
                lemma_grown_transitive(tapes, t1, negated(m, v, t1).1);
            }
        },
        ExprView::BinOp { op, left, right } => {
            lemma_eval_grown(m, *left, env, depth, tapes);
            let (l, t1) = eval_model(m, *left, env, depth, tapes);
            lemma_eval_grown(m, *right, env, depth, t1);
            let (r, t2) = eval_model(m, *right, env, depth, t1);
            lemma_grown_transitive(tapes, t1, t2);
            if let (Ok(l), Ok(r)) = (l, r) {
                lemma_traced_binop_grown(m, op, l, r, t2);
                let t3 = binop_model(m, op, l, r, t2).1;
                lemma_grown_transitive(tapes, t2, t3);
            }
        },
        ExprView::App(f, a) => {
            lemma_eval_grown(m, *f, env, depth, tapes);
            let (fv, t1) = eval_model(m, *f, env, depth, tapes);
            lemma_eval_grown(m, *a, env, depth, t1);
            let (av, t2) = eval_model(m, *a, env, depth, t1);
            lemma_grown_transitive(tapes, t1, t2);
            if let (Ok(fv), Ok(av)) = (fv, av) {
                lemma_apply_grown(m, fv, av, env.globals, depth, t2);
                let t3 = apply_model(m, fv, av, env.globals, depth, t2).1;
                lemma_grown_transitive(tapes, t2, t3);
            }
        },
        ExprView::Pipe(a, f) => {
            lemma_eval_grown(m, *a, env, depth, tapes);
            let (av, t1) = eval_model(m, *a, env, depth, tapes);
            lemma_eval_grown(m, *f, env, depth, t1);
            let (fv, t2) = eval_model(m, *f, env, depth, t1);
            lemma_grown_transitive(tapes, t1, t2);
            if let (Ok(fv), Ok(av)) = (fv, av) {
                lemma_apply_grown(m, fv, av, env.globals, depth, t2);
                let t3 = apply_model(m, fv, av, env.globals, depth, t2).1;
                lemma_grown_transitive(tapes, t2, t3);
            }
        },
        ExprView::Let { name, params, value, body } => {
            if params.len() == 0 {
                lemma_eval_grown(m, *value, env, depth, tapes);
                let (v, t1) = eval_model(m, *value, env, depth, tapes);
                if let Ok(v) = v {
                    lemma_eval_grown(m, *body, env.bind(name, v), depth, t1);
                    let t2 = eval_model(m, *body, env.bind(name, v), depth, t1).1;
                    lemma_grown_transitive(tapes, t1, t2);
                }
            } else {
                let v = function_value(params, *value, env.locals);
                lemma_eval_grown(m, *body, env.bind(name, v), depth, tapes);
            }
        },
        ExprView::If { cond, then, else_ } => {
            lemma_eval_grown(m, *cond, env, depth, tapes);
            let (c, t1) = eval_model(m, *cond, env, depth, tapes);
            lemma_eval_grown(m, *then, env, depth, t1);
            lemma_eval_grown(m, *else_, env, depth, t1);
            lemma_grown_transitive(tapes, t1, eval_model(m, *then, env, depth, t1).1);
            lemma_grown_transitive(tapes, t1, eval_model(m, *else_, env, depth, t1).1);
        },
        ExprView::TensorLit(rows) => {
            lemma_rows_grown(m, rows, rows.len(), env, depth, tapes);
        },
        _ => {},
    }
}

pub proof fn lemma_rows_grown(
    m: Arith,
    rows: Seq<Seq<ExprView>>,
    n: nat,
    env: EnvView,
    depth: nat,
    tapes: TapesView,
)
    ensures
        grown(tapes, eval_rows(m, rows, n, env, depth, tapes).1),
    decreases depth, 3int, rows, n,
{
    if 0 < n <= rows.len() {
        lemma_rows_grown(m, rows, (n - 1) as nat, env, depth, tapes);
        let (front, t1) = eval_rows(m, rows, (n - 1) as nat, env, depth, tapes);
        let row = rows[n - 1];
        lemma_row_grown(m, row, row.len(), env, depth, t1);
        lemma_grown_transitive(tapes, t1, eval_row(m, row, row.len(), env, depth, t1).1);
    }
}

pub proof fn lemma_row_grown(
    m: Arith,
    row: Seq<ExprView>,
    n: nat,
    env: EnvView,
    depth: nat,
    tapes: TapesView,
)
    ensures
        grown(tapes, eval_row(m, row, n, env, depth, tapes).1),
    decreases depth, 3int, row, n,
{
    if 0 < n <= row.len() {
        lemma_row_grown(m, row, (n - 1) as nat, env, depth, tapes);
        let (front, t1) = eval_row(m, row, (n - 1) as nat, env, depth, tapes);
        lemma_eval_grown(m, row[n - 1], env, depth, t1);
        lemma_grown_transitive(tapes, t1, eval_model(m, row[n - 1], env, depth, t1).1);
    }
}

pub proof fn lemma_apply_grown(
    m: Arith,
    f: ValueView,
    a: ValueView,
    globals: GlobalsView,
    depth: nat,
    tapes: TapesView,
)
    ensures
        grown(tapes, apply_model(m, f, a, globals, depth, tapes).1),
    decreases depth, 2int, f, 0nat,
{
    match f {
        ValueView::Closure { param, body, env } => {
            if depth > 0 {
                lemma_eval_grown(
                    m,
                    body,
                    (EnvView { locals: env, globals }).bind(param, a),
                    (depth - 1) as nat,
                    tapes,
                );
            }
        },
        ValueView::Builtin(b) => {
            lemma_builtin_one_grown(m, b, a, tapes);
        },
        ValueView::PartialBuiltin(b, args) => {
            if args.len() + 1 == arity(b) {
                lemma_many_grown(m, b, args.push(a), globals, depth, tapes);
            }
        },
        _ => {},
    }
}

proof fn lemma_many_grown(
    m: Arith,
    b: BuiltinFn,
    args: Seq<ValueView>,
    globals: GlobalsView,
    depth: nat,
    tapes: TapesView,
)
    ensures
        grown(tapes, builtin_many(m, b, args, globals, depth, tapes).1),
    decreases depth, 1int, args, 0nat,
{
    match b {
        BuiltinFn::Grad => {
            lemma_grad_grown(m, args[0], args[1], globals, depth, tapes);
        },
        BuiltinFn::Iterate => {
            if let ValueView::Int(n) = args[1] {
                if depth > 0 {
                    lemma_iterate_grown(
                        m,
                        args[2],
                        args[0],
                        if n > 0 {
                            n as nat
                        } else {
                            0
                        },
                        globals,
                        (depth - 1) as nat,
                        tapes,
                    );
                }
            }
        },
        _ => {},
    }
}

proof fn lemma_grad_grown(
    m: Arith,
    f: ValueView,
    x: ValueView,
    globals: GlobalsView,
    depth: nat,
    tapes: TapesView,
)
    ensures
        grad_model(m, f, x, globals, depth, tapes).1 == tapes,
    decreases depth, 0int, f, 0nat,
{
    if let Ok(input) = grad_input(m, x) {
        if depth > 0 {
            let start = recorded(
                tapes.push(Seq::empty()),
                NodeView { value: input, op: Op::Leaf },
            );
            lemma_apply_grown(m, f, ValueView::Traced(0), globals, (depth - 1) as nat, start);
            let end = apply_model(
                m,
                f,
                ValueView::Traced(0),
                globals,
                (depth - 1) as nat,
                start,
            ).1;
            assert forall|i: int| 0 <= i < tapes.len() implies end.drop_last()[i] == tapes[i] by {
                assert(end[i] == start[i]);
            }
            assert(end.drop_last() =~= tapes);
        }
    }
}

proof fn lemma_iterate_grown(
    m: Arith,
    step: ValueView,
    v: ValueView,
    n: nat,
    globals: GlobalsView,
    depth: nat,
    tapes: TapesView,
)
    ensures
        grown(tapes, iterate_model(m, step, v, n, globals, depth, tapes).1),
    decreases depth, 4int, step, n,
{
    if n > 0 {
        lemma_iterate_grown(m, step, v, (n - 1) as nat, globals, depth, tapes);
        let (before, t1) = iterate_model(m, step, v, (n - 1) as nat, globals, depth, tapes);
        if let Ok(before) = before {
            lemma_apply_grown(m, step, before, globals, depth, t1);
            lemma_grown_transitive(
                tapes,
                t1,
                apply_model(m, step, before, globals, depth, t1).1,
            );
        }
    }
}

/// Evaluation changes tapes only by adding nodes to the innermost: it opens
/// none that it does not close, and every node is computed from earlier ones.
pub proof fn law_evaluation_only_adds_nodes(
    m: Arith,
    e: ExprView,
    env: EnvView,
    depth: nat,
    tapes: TapesView,
)
    ensures
        grown(tapes, eval_model(m, e, env, depth, tapes).1),
{
    lemma_eval_grown(m, e, env, depth, tapes);
}

/// A differentiation leaves the tapes as they were, whether it succeeds or not.
pub proof fn law_differentiation_leaves_no_trace(
    m: Arith,
    f: ValueView,
    x: ValueView,
    globals: GlobalsView,
    depth: nat,
    tapes: TapesView,
)
    ensures
        grad_model(m, f, x, globals, depth, tapes).1 == tapes,
{
    lemma_grad_grown(m, f, x, globals, depth, tapes);
}

/// Whether tensors agree in shape and number of elements, one by one.
spec fn alike(a: Seq<TensorView>, b: Seq<TensorView>) -> bool {
    &&& a.len() == b.len()
    &&& forall|i: int|
        0 <= i < a.len() ==> (#[trigger] a[i]).shape == b[i].shape && a[i].data.len()
            == b[i].data.len()
}

proof fn lemma_added_alike(m: Arith, grads: Seq<TensorView>, cs: Seq<(usize, TensorView)>)
    requires
        forall|k: int| 0 <= k < cs.len() ==> (#[trigger] cs[k]).0 < grads.len(),
    ensures
        alike(added(m, grads, cs), grads),
    decreases cs.len(),
{
    if cs.len() > 0 {
        let front = cs.drop_last();
        assert forall|k: int| 0 <= k < front.len() implies (#[trigger] front[k]).0
            < grads.len() by {
            assert(front[k] == cs[k]);
        }
        lemma_added_alike(m, grads, front);
        assert(cs[cs.len() - 1].0 < grads.len());
    }
}

proof fn lemma_walked_alike(m: Arith, t: TapeView, i: int, grads: Seq<TensorView>)
    requires
        tape_in_order(t),
        0 <= i <= t.len(),
        grads.len() == t.len(),
    ensures
        alike(walked(m, t, i, grads), grads),
    decreases i,
{
    if i > 0 {
        assert(node_in_order(t, i - 1));
        let cs = contributions(m, t, i - 1, grads[i - 1]);
        assert forall|k: int| 0 <= k < cs.len() implies (#[trigger] cs[k]).0 < grads.len() by {}
        lemma_added_alike(m, grads, cs);
        let next = added(m, grads, cs);
        lemma_walked_alike(m, t, i - 1, next);
        let all = walked(m, t, i - 1, next);
        assert forall|k: int| 0 <= k < all.len() implies (#[trigger] all[k]).shape
            == grads[k].shape && all[k].data.len() == grads[k].data.len() by {
            assert(next[k].shape == grads[k].shape);
        }
    }
}

/// The derivative of a function by a tensor is a tensor of the same shape,
/// with all its elements.
pub proof fn law_derivative_has_shape_of_input(
    m: Arith,
    f: ValueView,
    t: TensorView,
    globals: GlobalsView,
    depth: nat,
    tapes: TapesView,
)
    ensures
        grad_model(m, f, ValueView::Tensor(t), globals, depth, tapes).0 matches Ok(v) ==> {
            &&& v matches ValueView::Tensor(g)
            &&& g.shape == t.shape
            &&& g.ok()
        },
{
    if depth > 0 {
        let first = NodeView { value: t, op: Op::Leaf };
        let start = recorded(tapes.push(Seq::empty()), first);
        lemma_apply_grown(m, f, ValueView::Traced(0), globals, (depth - 1) as nat, start);
        let (y, end) = apply_model(
            m,
            f,
            ValueView::Traced(0),
            globals,
            (depth - 1) as nat,
            start,
        );
        let tape = end.last();
        assert(start.last() =~= seq![first]);
        assert(tape_in_order(start.last()));
        assert(tape[0] == start.last()[0]);
        if let Ok(ValueView::Traced(id)) = y {
            lemma_walked_alike(m, tape, tape.len() as int, seeds(tape, id as int));
            let g = gradients(m, tape, id as int)[0];
            assert(g.shape == seeds(tape, id as int)[0].shape);
        }
    }
}

// ---------------------------------------------------------------------------
// Values under differentiation
// ---------------------------------------------------------------------------

/// Whether a value holds nothing that is being differentiated, not in the
/// arguments that it waits with nor in the scope that it was made in.
pub open spec fn untraced(v: ValueView) -> bool
    decreases v,
{
    match v {
        ValueView::Traced(_) => false,
        ValueView::Closure { param, body, env } => untraced_locals(env),
        ValueView::PartialBuiltin(b, args) => forall|i: int|
            0 <= i < args.len() ==> untraced(#[trigger] args[i]),
        _ => true,
    }
}

pub open spec fn untraced_locals(l: LocalsView) -> bool
    decreases l,
{
    match l {
        LocalsView::Empty => true,
        LocalsView::Bound { name, value, parent } => untraced(*value) && untraced_locals(*parent),
    }
}

pub open spec fn untraced_globals(g: GlobalsView) -> bool {
    forall|name: Seq<char>| #[trigger] g.contains_key(name) ==> untraced(g[name])
}

proof fn lemma_find_untraced(l: LocalsView, name: Seq<char>)
    requires
        untraced_locals(l),
    ensures
        find_local(l, name) matches Some(v) ==> untraced(v),
    decreases l,
{
    if let LocalsView::Bound { name: n, value, parent } = l {
        if n != name {
            lemma_find_untraced(*parent, name);
        }
    }
}

proof fn lemma_untraced_eval(
    m: Arith,
    e: ExprView,
    env: EnvView,
    depth: nat,
    tapes: TapesView,
)
    requires
        tapes.len() == 0,
        untraced_locals(env.locals),
        untraced_globals(env.globals),
    ensures
        eval_model(m, e, env, depth, tapes).0 matches Ok(v) ==> untraced(v),
        eval_model(m, e, env, depth, tapes).1.len() == 0,
    decreases depth, 3int, e, 0nat,
{
    lemma_eval_grown(m, e, env, depth, tapes);
    match e {
        ExprView::Var(name) => {
            lemma_find_untraced(env.locals, name);
        },
        ExprView::UnaryMinus(x) => {
            lemma_untraced_eval(m, *x, env, depth, tapes);
        },
        ExprView::BinOp { op, left, right } => {
            lemma_untraced_eval(m, *left, env, depth, tapes);
            let t1 = eval_model(m, *left, env, depth, tapes).1;
            lemma_untraced_eval(m, *right, env, depth, t1);
        },
        ExprView::App(f, a) => {
            lemma_untraced_eval(m, *f, env, depth, tapes);
            let (fv, t1) = eval_model(m, *f, env, depth, tapes);
            lemma_untraced_eval(m, *a, env, depth, t1);
            let (av, t2) = eval_model(m, *a, env, depth, t1);
            if let (Ok(fv), Ok(av)) = (fv, av) {
                lemma_untraced_apply(m, fv, av, env.globals, depth, t2);
            }
        },
        ExprView::Pipe(a, f) => {
            lemma_untraced_eval(m, *a, env, depth, tapes);
            let (av, t1) = eval_model(m, *a, env, depth, tapes);
            lemma_untraced_eval(m, *f, env, depth, t1);
            let (fv, t2) = eval_model(m, *f, env, depth, t1);
            if let (Ok(fv), Ok(av)) = (fv, av) {
                lemma_untraced_apply(m, fv, av, env.globals, depth, t2);
            }
        },
        ExprView::Let { name, params, value, body } => {
            if params.len() == 0 {
                lemma_untraced_eval(m, *value, env, depth, tapes);
                let (v, t1) = eval_model(m, *value, env, depth, tapes);
                if let Ok(v) = v {
                    lemma_untraced_eval(m, *body, env.bind(name, v), depth, t1);
                }
            } else {
                let v = function_value(params, *value, env.locals);
                assert(untraced(v));
                lemma_untraced_eval(m, *body, env.bind(name, v), depth, tapes);
            }
        },
        ExprView::If { cond, then, else_ } => {
            lemma_untraced_eval(m, *cond, env, depth, tapes);
            let t1 = eval_model(m, *cond, env, depth, tapes).1;
            lemma_untraced_eval(m, *then, env, depth, t1);
            lemma_untraced_eval(m, *else_, env, depth, t1);
        },
        _ => {},
    }
}

proof fn lemma_untraced_apply(
    m: Arith,
    f: ValueView,
    a: ValueView,
    globals: GlobalsView,
    depth: nat,
    tapes: TapesView,
)
    requires
        tapes.len() == 0,
        untraced(f),
        untraced(a),
        untraced_globals(globals),
    ensures
        apply_model(m, f, a, globals, depth, tapes).0 matches Ok(v) ==> untraced(v),
        apply_model(m, f, a, globals, depth, tapes).1.len() == 0,
    decreases depth, 2int, f, 0nat,
{
    lemma_apply_grown(m, f, a, globals, depth, tapes);
    match f {
        ValueView::Closure { param, body, env } => {
            if depth > 0 {
                let inner = (EnvView { locals: env, globals }).bind(param, a);
                lemma_untraced_eval(m, body, inner, (depth - 1) as nat, tapes);
                assert(apply_model(m, f, a, globals, depth, tapes) == eval_model(
                    m,
                    body,
                    inner,
                    (depth - 1) as nat,
                    tapes,
                ));
            }
        },
        ValueView::Builtin(b) => {
            if arity(b) != 1 {
                assert(untraced(ValueView::PartialBuiltin(b, seq![a])));
            } else if let Ok(v) = builtin_one(m, b, a, tapes).0 {
                assert(v is Int || v is Float || v is Tensor);
            }
        },
        ValueView::PartialBuiltin(b, args) => {
            let all = args.push(a);
            assert forall|i: int| 0 <= i < all.len() implies untraced(#[trigger] all[i]) by {
                if i < args.len() {
                    assert(untraced(args[i]));
                }
            }
            if args.len() + 1 == arity(b) {
                if b == BuiltinFn::Iterate {
                    if let ValueView::Int(n) = all[1] {
                        if depth > 0 {
                            assert(untraced(all[0]) && untraced(all[2]));
                            lemma_untraced_iterate(
                                m,
                                all[2],
                                all[0],
                                if n > 0 {
                                    n as nat
                                } else {
                                    0
                                },
                                globals,
                                (depth - 1) as nat,
                                tapes,
                            );
                        }
                    }
                } else if let Ok(v) = builtin_many(m, b, all, globals, depth, tapes).0 {
                    assert(v is Float || v is Tensor);
                }
            }
        },
        _ => {},
    }
}

proof fn lemma_untraced_iterate(
    m: Arith,
    step: ValueView,
    v: ValueView,
    n: nat,
    globals: GlobalsView,
    depth: nat,
    tapes: TapesView,
)
    requires
        tapes.len() == 0,
        untraced(step),
        untraced(v),
        untraced_globals(globals),
    ensures
        iterate_model(m, step, v, n, globals, depth, tapes).0 matches Ok(w) ==> untraced(w),
        iterate_model(m, step, v, n, globals, depth, tapes).1.len() == 0,
    decreases depth, 4int, step, n,
{
    if n > 0 {
        lemma_untraced_iterate(m, step, v, (n - 1) as nat, globals, depth, tapes);
        let (before, at) = iterate_model(m, step, v, (n - 1) as nat, globals, depth, tapes);
        if let Ok(before) = before {
            lemma_untraced_apply(m, step, before, globals, depth, at);
        }
    }
}

/// A derivative is a number or a tensor, nothing that is still being
/// differentiated.
pub proof fn law_derivative_is_untraced(
    m: Arith,
    f: ValueView,
    x: ValueView,
    globals: GlobalsView,
    depth: nat,
    tapes: TapesView,
)
    ensures
        grad_model(m, f, x, globals, depth, tapes).0 matches Ok(v) ==> v is Float || v is Tensor,
{
}

proof fn lemma_untraced_functions(items: Seq<TopLevelView>, n: nat)
    requires
        n <= items.len(),
    ensures
        untraced_globals(functions_defined(items, n, with_builtins(Map::empty()))),
    decreases n,
{
    if n == 0 {
        let g = with_builtins(Map::empty());
        assert forall|name: Seq<char>| #[trigger] g.contains_key(name) implies untraced(
            g[name],
        ) by {
            assert(g[name] is Builtin);
        }
    } else {
        lemma_untraced_functions(items, (n - 1) as nat);
        if let TopLevelView::Binding { name, params, body } = items[n - 1] {
            if params.len() > 0 {
                assert(untraced_locals(LocalsView::Empty));
                assert(untraced(function_value(params, body, LocalsView::Empty)));
            }
        }
    }
}

proof fn lemma_untraced_values(
    m: Arith,
    items: Seq<TopLevelView>,
    n: nat,
    globals: GlobalsView,
    depth: nat,
)
    requires
        n <= items.len(),
        untraced_globals(globals),
    ensures
        values_defined(m, items, n, globals, depth) matches Ok(g) ==> untraced_globals(g),
    decreases n,
{
    if n > 0 {
        lemma_untraced_values(m, items, (n - 1) as nat, globals, depth);
        if let (Ok(g), TopLevelView::Binding { name, params, body }) = (
            values_defined(m, items, (n - 1) as nat, globals, depth),
            items[n - 1],
        ) {
            let env = EnvView { locals: LocalsView::Empty, globals: g };
            lemma_untraced_eval(m, body, env, depth, Seq::empty());
        }
    }
}

/// What is being differentiated never leaves its differentiation: neither the
/// value of a program nor any of its top-level bindings holds any of it.
pub proof fn law_nothing_traced_leaves(m: Arith, items: Seq<TopLevelView>, depth: nat)
    ensures
        program_globals(m, items, depth) matches Ok(g) ==> untraced_globals(g),
        program_value(m, items, depth) matches Ok(v) ==> untraced(v),
{
    lemma_untraced_functions(items, items.len());
    lemma_untraced_values(
        m,
        items,
        items.len(),
        functions_defined(items, items.len(), with_builtins(Map::empty())),
        depth,
    );
}

// ---------------------------------------------------------------------------
// Order and transposition
// ---------------------------------------------------------------------------

/// Integers are ordered as integers, however large they are, and `<`, `==` and
/// `>` exclude each other.
pub proof fn law_integers_are_ordered_exactly(m: Arith, a: i64, b: i64)
    ensures
        plain_binop(m, BinOpKind::Lt, ValueView::Int(a), ValueView::Int(b)) == Ok::<
            ValueView,
            EvalErrorView,
        >(ValueView::Bool(a < b)),
        plain_binop(m, BinOpKind::Le, ValueView::Int(a), ValueView::Int(b)) == Ok::<
            ValueView,
            EvalErrorView,
        >(ValueView::Bool(a <= b)),
        plain_binop(m, BinOpKind::Gt, ValueView::Int(a), ValueView::Int(b)) == Ok::<
            ValueView,
            EvalErrorView,
        >(ValueView::Bool(a > b)),
        plain_binop(m, BinOpKind::Ge, ValueView::Int(a), ValueView::Int(b)) == Ok::<
            ValueView,
            EvalErrorView,
        >(ValueView::Bool(a >= b)),
        plain_binop(m, BinOpKind::Eq, ValueView::Int(a), ValueView::Int(b)) == Ok::<
            ValueView,
            EvalErrorView,
        >(ValueView::Bool(a == b)),
{
}

/// `transpose` takes a matrix, turns its rows into columns, and gives the
/// matrix back when it is applied to what it gave.
pub proof fn law_transpose_turns_rows_into_columns(m: Arith, t: TensorView, tapes: TapesView)
    requires
        t.ok(),
    ensures
        t.rank() != 2 ==> builtin_one(
            m,
            BuiltinFn::Transpose,
            ValueView::Tensor(t),
            tapes,
        ).0 == Err::<ValueView, EvalErrorView>(
            EvalErrorView::TensorWrongRank {
                op: "transpose"@,
                expected: 2,
                got: t.rank() as usize,
            },
        ),
        t.rank() == 2 ==> {
            let rows = t.shape[0] as int;
            let cols = t.shape[1] as int;
            let result = builtin_one(m, BuiltinFn::Transpose, ValueView::Tensor(t), tapes).0;
            &&& result matches Ok(ValueView::Tensor(u))
            &&& u.shape == seq![t.shape[1], t.shape[0]]
            &&& u.ok()
            &&& forall|i: int, j: int|
                0 <= i < rows && 0 <= j < cols ==> #[trigger] element(u, j, i) == element(t, i, j)
            &&& builtin_one(m, BuiltinFn::Transpose, ValueView::Tensor(u), tapes).0 == Ok::<
                ValueView,
                EvalErrorView,
            >(ValueView::Tensor(t))
        },
{
    if t.rank() == 2 {
        let u = transposed(t);
        law_transposing_twice_gives_back(t);
        lemma_rank_two(t.shape);
        lemma_product_two(t.shape[1], t.shape[0]);
        lemma_mul_is_commutative(t.shape[0] as int, t.shape[1] as int);
        assert forall|i: int, j: int|
            0 <= i < t.shape[0] && 0 <= j < t.shape[1] implies #[trigger] element(u, j, i)
            == element(t, i, j) by {
            law_transposed_element(t, i, j);
        }
    }
}

// ---------------------------------------------------------------------------
// Application
// ---------------------------------------------------------------------------

/// `a |> f` is `f a`, where neither operand leaves a trace on a tape and not
/// both fail.
pub proof fn law_pipe_is_application(
    m: Arith,
    a: ExprView,
    f: ExprView,
    env: EnvView,
    depth: nat,
    tapes: TapesView,
)
    requires
        eval_model(m, a, env, depth, tapes).1 == tapes,
        eval_model(m, f, env, depth, tapes).1 == tapes,
        eval_model(m, a, env, depth, tapes).0 is Ok || eval_model(m, f, env, depth, tapes).0 is Ok,
    ensures
        eval_model(m, ExprView::Pipe(Box::new(a), Box::new(f)), env, depth, tapes) == eval_model(
            m,
            ExprView::App(Box::new(f), Box::new(a)),
            env,
            depth,
            tapes,
        ),
{
}

/// A function applied to arguments, one after the other.
pub open spec fn applied(
    m: Arith,
    f: ValueView,
    args: Seq<ValueView>,
    globals: GlobalsView,
    depth: nat,
    tapes: TapesView,
) -> Outcome<ValueView>
    decreases args.len(),
{
    if args.len() == 0 {
        (Ok(f), tapes)
    } else {
        let (g, tapes) = apply_model(m, f, args[0], globals, depth, tapes);
        match g {
            Err(e) => (Err(e), tapes),
            Ok(g) => applied(
                m,
                g,
                args.subrange(1, args.len() as int),
                globals,
                depth,
                tapes,
            ),
        }
    }
}

/// Parameters bound to arguments, the first one first.
pub open spec fn all_bound(env: EnvView, params: Seq<Seq<char>>, args: Seq<ValueView>) -> EnvView
    decreases params.len(),
{
    if params.len() == 0 || args.len() == 0 {
        env
    } else {
        all_bound(
            env.bind(params[0], args[0]),
            params.subrange(1, params.len() as int),
            args.subrange(1, args.len() as int),
        )
    }
}

/// A function of several parameters, applied to as many arguments, has the
/// value of its body with the parameters bound to the arguments in order.
pub proof fn law_parameters_meet_arguments(
    m: Arith,
    params: Seq<Seq<char>>,
    body: ExprView,
    locals: LocalsView,
    args: Seq<ValueView>,
    globals: GlobalsView,
    depth: nat,
    tapes: TapesView,
)
    requires
        params.len() > 0,
        args.len() == params.len(),
        depth > 0,
    ensures
        applied(m, function_value(params, body, locals), args, globals, depth, tapes)
            == eval_model(
            m,
            body,
            all_bound(EnvView { locals, globals }, params, args),
            (depth - 1) as nat,
            tapes,
        ),
    decreases params.len(),
{
    let rest = params.subrange(1, params.len() as int);
    let more = args.subrange(1, args.len() as int);
    let env = EnvView { locals, globals };
    let inner = env.bind(params[0], args[0]);
    let f = function_value(params, body, locals);
    let (g, t1) = apply_model(m, f, args[0], globals, depth, tapes);
    assert((g, t1) == eval_model(m, curried(rest, body), inner, (depth - 1) as nat, tapes));
    if rest.len() == 0 {
        assert(all_bound(inner, rest, more) == inner);
        if let Ok(v) = g {
            assert(applied(m, v, more, globals, depth, t1) == (Ok::<ValueView, EvalErrorView>(v), t1));
        }
    } else {
        assert(g == Ok::<ValueView, EvalErrorView>(function_value(rest, body, inner.locals)));
        law_parameters_meet_arguments(
            m,
            rest,
            body,
            inner.locals,
            more,
            globals,
            depth,
            tapes,
        );
    }
}

/// Iterating goes on from where it got to: `i + j` steps are `j` steps from
/// what `i` steps gave.
pub proof fn law_iteration_goes_on(
    m: Arith,
    step: ValueView,
    v: ValueView,
    i: nat,
    j: nat,
    globals: GlobalsView,
    depth: nat,
    tapes: TapesView,
)
    ensures
        ({
            let (w, t1) = iterate_model(m, step, v, i, globals, depth, tapes);
            w matches Ok(w) ==> iterate_model(m, step, v, i + j, globals, depth, tapes)
                == iterate_model(m, step, w, j, globals, depth, t1)
        }),
    decreases j,
{
    if j > 0 {
        law_iteration_goes_on(m, step, v, i, (j - 1) as nat, globals, depth, tapes);
        assert((i + j - 1) as nat == i + (j - 1) as nat);
    }
}

// ---------------------------------------------------------------------------
// Programs
// ---------------------------------------------------------------------------

/// Whether item `k` is a function and the only definition of its name.
pub open spec fn is_sole_function(items: Seq<TopLevelView>, k: int) -> bool {
    &&& 0 <= k < items.len()
    &&& items[k] matches TopLevelView::Binding { name, params, body } && params.len() > 0
    &&& forall|j: int|
        0 <= j < items.len() && j != k ==> ((#[trigger] items[j]) matches TopLevelView::Binding {
            name: other,
            ..
        } ==> other != items[k]->Binding_name)
}

/// The value of a function that is item `k`.
pub open spec fn function_item(items: Seq<TopLevelView>, k: int) -> ValueView {
    function_value(
        items[k]->Binding_params,
        items[k]->Binding_body,
        LocalsView::Empty,
    )
}

proof fn lemma_function_kept(items: Seq<TopLevelView>, k: int, n: nat, globals: GlobalsView)
    requires
        is_sole_function(items, k),
        n <= items.len(),
    ensures
        k < n ==> {
            let all = functions_defined(items, n, globals);
            &&& all.contains_key(items[k]->Binding_name)
            &&& all[items[k]->Binding_name] == function_item(items, k)
        },
    decreases n,
{
    if n > 0 {
        lemma_function_kept(items, k, (n - 1) as nat, globals);
        if n - 1 != k {
            assert(items[n - 1] matches TopLevelView::Binding { name: other, .. } ==> other
                != items[k]->Binding_name);
        }
    }
}

/// A function is known to every definition of a program, before and behind
/// its own place: definitions can refer to later functions, and functions to
/// each other.
pub proof fn law_functions_are_known_everywhere(
    m: Arith,
    items: Seq<TopLevelView>,
    k: int,
    n: nat,
    depth: nat,
)
    requires
        is_sole_function(items, k),
        n <= items.len(),
    ensures
        values_defined(
            m,
            items,
            n,
            functions_defined(items, items.len(), with_builtins(Map::empty())),
            depth,
        ) matches Ok(globals) ==> {
            &&& globals.contains_key(items[k]->Binding_name)
            &&& globals[items[k]->Binding_name] == function_item(items, k)
        },
    decreases n,
{
    lemma_function_kept(items, k, items.len(), with_builtins(Map::empty()));
    if n > 0 {
        law_functions_are_known_everywhere(m, items, k, (n - 1) as nat, depth);
        if n - 1 != k {
            assert(items[n - 1] matches TopLevelView::Binding { name: other, .. } ==> other
                != items[k]->Binding_name);
        }
    }
}

proof fn lemma_functions_skip(
    items: Seq<TopLevelView>,
    k: int,
    item: TopLevelView,
    n: nat,
    globals: GlobalsView,
)
    requires
        item is TypeAnnotation,
        0 <= k <= items.len(),
        n <= items.len(),
    ensures
        n <= k ==> functions_defined(items.insert(k, item), n, globals) == functions_defined(
            items,
            n,
            globals,
        ),
        n >= k ==> functions_defined(items.insert(k, item), n + 1, globals) == functions_defined(
            items,
            n,
            globals,
        ),
    decreases n,
{
    let longer = items.insert(k, item);
    if n > 0 {
        lemma_functions_skip(items, k, item, (n - 1) as nat, globals);
        if n <= k {
            assert(longer[n - 1] == items[n - 1]);
        }
        if n > k {
            assert(longer[n as int] == items[n - 1]);
        }
    }
    if n == k {
        assert(longer[n as int] == item);
        assert(functions_defined(longer, n + 1, globals) == functions_defined(longer, n, globals));
    }
}

proof fn lemma_values_skip(
    m: Arith,
    items: Seq<TopLevelView>,
    k: int,
    item: TopLevelView,
    n: nat,
    globals: GlobalsView,
    depth: nat,
)
    requires
        item is TypeAnnotation,
        0 <= k <= items.len(),
        n <= items.len(),
    ensures
        n <= k ==> values_defined(m, items.insert(k, item), n, globals, depth) == values_defined(
            m,
            items,
            n,
            globals,
            depth,
        ),
        n >= k ==> values_defined(m, items.insert(k, item), n + 1, globals, depth)
            == values_defined(m, items, n, globals, depth),
    decreases n,
{
    let longer = items.insert(k, item);
    if n > 0 {
        lemma_values_skip(m, items, k, item, (n - 1) as nat, globals, depth);
        if n <= k {
            assert(longer[n - 1] == items[n - 1]);
        }
        if n > k {
            assert(longer[n as int] == items[n - 1]);
        }
    }
    if n == k {
        assert(longer[n as int] == item);
        assert(values_defined(m, longer, n + 1, globals, depth) == values_defined(
            m,
            longer,
            n,
            globals,
            depth,
        ));
    }
}

/// A type annotation, wherever it stands, has no part in what a program
/// evaluates to.
pub proof fn law_annotations_do_not_evaluate(
    m: Arith,
    items: Seq<TopLevelView>,
    k: int,
    item: TopLevelView,
    depth: nat,
)
    requires
        item is TypeAnnotation,
        0 <= k <= items.len(),
    ensures
        program_value(m, items.insert(k, item), depth) == program_value(m, items, depth),
{
    let base = with_builtins(Map::empty());
    lemma_functions_skip(items, k, item, items.len(), base);
    lemma_values_skip(
        m,
        items,
        k,
        item,
        items.len(),
        functions_defined(items, items.len(), base),
        depth,
    );
}

// ---------------------------------------------------------------------------
// Operators
// ---------------------------------------------------------------------------

/// Whether a computation gives a value and leaves the tapes.
pub open spec fn gives(r: Outcome<ValueView>, v: ValueView, tapes: TapesView) -> bool {
    r.0 == Ok::<ValueView, EvalErrorView>(v) && r.1 == tapes
}

/// Whether a computation fails and leaves the tapes.
pub open spec fn fails(r: Outcome<ValueView>, e: EvalErrorView, tapes: TapesView) -> bool {
    r.0 == Err::<ValueView, EvalErrorView>(e) && r.1 == tapes
}

/// Whether a computation gives an integer, or fails where 64 bits do not hold it.
pub open spec fn gives_integer(r: Outcome<ValueView>, n: int, tapes: TapesView) -> bool {
    if -0x8000_0000_0000_0000 <= n <= 0x7fff_ffff_ffff_ffff {
        gives(r, ValueView::Int(n as i64), tapes)
    } else {
        fails(r, EvalErrorView::IntegerOverflow, tapes)
    }
}

/// Sums, differences, products and powers of integers are those of the
/// integers, where 64 bits hold them.
pub proof fn law_integers_are_exact(m: Arith, a: i64, b: i64, tapes: TapesView)
    ensures
        gives_integer(
            binop_model(m, BinOpKind::Add, ValueView::Int(a), ValueView::Int(b), tapes),
            a + b,
            tapes,
        ),
        gives_integer(
            binop_model(m, BinOpKind::Sub, ValueView::Int(a), ValueView::Int(b), tapes),
            a - b,
            tapes,
        ),
        gives_integer(
            binop_model(m, BinOpKind::Mul, ValueView::Int(a), ValueView::Int(b), tapes),
            a * b,
            tapes,
        ),
        b >= 0 ==> gives_integer(
            binop_model(m, BinOpKind::Pow, ValueView::Int(a), ValueView::Int(b), tapes),
            vstd::arithmetic::power::pow(a as int, b as nat),
            tapes,
        ),
        gives_integer(negated(m, ValueView::Int(a), tapes), -a, tapes),
        b < 0 ==> gives(
            binop_model(m, BinOpKind::Pow, ValueView::Int(a), ValueView::Int(b), tapes),
            ValueView::Float(bin(m, BinaryOp::Pow, from_int(m, a), from_int(m, b))),
            tapes,
        ),
{
}

/// A quotient, cut towards zero, times the divisor is short of the dividend by the
/// remainder.
#[verifier::spinoff_prover]
proof fn lemma_quotient(a: int, b: int)
    requires
        b != 0,
    ensures
        ({
            let q = crate::interpreter::int_quotient(a, b);
            let rest = a - q * b;
            &&& a >= 0 ==> 0 <= rest
            &&& a < 0 ==> rest <= 0
            &&& -b < rest < b || b < rest < -b
            &&& -crate::interpreter::abs(a) <= q <= crate::interpreter::abs(a)
            &&& q == crate::interpreter::abs(a) && a != 0 ==> b == 1 || b == -1
            &&& a < 0 && b == 1 ==> q == a
        }),
{
    let x = crate::interpreter::abs(a);
    let y = crate::interpreter::abs(b);
    let n = x / y;
    let r = x % y;
    lemma_fundamental_div_mod(x, y);
    lemma_mul_is_commutative(y, n);
    assert(x == n * y + r && 0 <= r < y);
    assert(0 <= n <= x) by (nonlinear_arith)
        requires
            x == n * y + r,
            0 <= r < y,
            0 <= x,
    ;
    if n == x && x > 0 {
        assert(y == 1) by (nonlinear_arith)
            requires
                x == n * y + r,
                n == x,
                x > 0,
                0 <= r < y,
        ;
    }
    if y == 1 {
        assert(n * 1 == n);
    }
    assert(n * (-y) == -(n * y)) by (nonlinear_arith);
    assert((-n) * y == -(n * y)) by (nonlinear_arith);
    assert((-n) * (-y) == n * y) by (nonlinear_arith);
    let q = crate::interpreter::int_quotient(a, b);
    if a == 0 {
        assert(n == 0) by (nonlinear_arith)
            requires
                0 == n * y + r,
                0 <= r < y,
                0 <= n,
        ;
        assert(0 * y == 0 && 0 * b == 0);
    } else if a > 0 && b > 0 {
        assert(q == n && b == y);
    } else if a > 0 {
        assert(q == -n && b == -y);
    } else if b > 0 {
        assert(q == -n && b == y);
    } else {
        assert(q == n && b == -y);
    }
}

/// The quotient of integers times the divisor is short of the dividend by less
/// than the divisor, and never beyond it. Nothing is divided by zero, and only
/// the least integer over minus one is beyond 64 bits.
pub proof fn law_integer_quotient(m: Arith, a: i64, b: i64, tapes: TapesView)
    ensures
        ({
            let r = binop_model(m, BinOpKind::Div, ValueView::Int(a), ValueView::Int(b), tapes);
            &&& b == 0 ==> fails(r, EvalErrorView::DivisionByZero, tapes)
            &&& a == i64::MIN && b == -1 ==> fails(r, EvalErrorView::IntegerOverflow, tapes)
            &&& b != 0 && !(a == i64::MIN && b == -1) ==> {
                &&& r.0 matches Ok(ValueView::Int(q))
                &&& r.1 == tapes
                &&& a >= 0 ==> 0 <= a - q * b
                &&& a < 0 ==> a - q * b <= 0
                &&& -b < a - q * b < b || b < a - q * b < -b
            }
        }),
{
    if b != 0 {
        lemma_quotient(a as int, b as int);
    }
}

/// A number as a floating-point one.
pub open spec fn reads_as(m: Arith, v: ValueView, x: u64) -> bool {
    v == ValueView::Float(x) || (v matches ValueView::Int(n) && x == from_int(m, n))
}

/// Operators between numbers, of which one is a floating-point number, are
/// those of the arithmetic. Nothing is divided by what equals zero.
pub proof fn law_floats_go_by_the_arithmetic(
    m: Arith,
    l: ValueView,
    r: ValueView,
    x: u64,
    y: u64,
    tapes: TapesView,
)
    requires
        reads_as(m, l, x),
        reads_as(m, r, y),
        l is Float || r is Float,
    ensures
        gives(
            binop_model(m, BinOpKind::Add, l, r, tapes),
            ValueView::Float(bin(m, BinaryOp::Add, x, y)),
            tapes,
        ),
        gives(
            binop_model(m, BinOpKind::Sub, l, r, tapes),
            ValueView::Float(bin(m, BinaryOp::Sub, x, y)),
            tapes,
        ),
        gives(
            binop_model(m, BinOpKind::Mul, l, r, tapes),
            ValueView::Float(bin(m, BinaryOp::Mul, x, y)),
            tapes,
        ),
        gives(
            binop_model(m, BinOpKind::Pow, l, r, tapes),
            ValueView::Float(bin(m, BinaryOp::Pow, x, y)),
            tapes,
        ),
        !holds(m, Relation::Eq, y, ZERO) ==> gives(
            binop_model(m, BinOpKind::Div, l, r, tapes),
            ValueView::Float(bin(m, BinaryOp::Div, x, y)),
            tapes,
        ),
        holds(m, Relation::Eq, y, ZERO) ==> fails(
            binop_model(m, BinOpKind::Div, l, r, tapes),
            EvalErrorView::DivisionByZero,
            tapes,
        ),
        gives(
            negated(m, ValueView::Float(x), tapes),
            ValueView::Float(un(m, UnaryOp::Neg, x)),
            tapes,
        ),
{
}

/// Comparisons between numbers, of which one is a floating-point number, are
/// those of the arithmetic, and `!=` is the contrary of `==`.
pub proof fn law_comparisons_go_by_the_arithmetic(
    m: Arith,
    l: ValueView,
    r: ValueView,
    x: u64,
    y: u64,
    tapes: TapesView,
)
    requires
        reads_as(m, l, x),
        reads_as(m, r, y),
        l is Float || r is Float,
    ensures
        gives(
            binop_model(m, BinOpKind::Eq, l, r, tapes),
            ValueView::Bool(holds(m, Relation::Eq, x, y)),
            tapes,
        ),
        gives(
            binop_model(m, BinOpKind::Ne, l, r, tapes),
            ValueView::Bool(!holds(m, Relation::Eq, x, y)),
            tapes,
        ),
        gives(
            binop_model(m, BinOpKind::Lt, l, r, tapes),
            ValueView::Bool(holds(m, Relation::Lt, x, y)),
            tapes,
        ),
        gives(
            binop_model(m, BinOpKind::Le, l, r, tapes),
            ValueView::Bool(holds(m, Relation::Le, x, y)),
            tapes,
        ),
        gives(
            binop_model(m, BinOpKind::Gt, l, r, tapes),
            ValueView::Bool(holds(m, Relation::Gt, x, y)),
            tapes,
        ),
        gives(
            binop_model(m, BinOpKind::Ge, l, r, tapes),
            ValueView::Bool(holds(m, Relation::Ge, x, y)),
            tapes,
        ),
{
}

/// Where the arithmetic's equality has no sides and excludes its order, `==`
/// has no sides and excludes `<` and `>`, whatever numbers are compared.
pub proof fn law_equality_has_no_sides(
    m: Arith,
    l: ValueView,
    r: ValueView,
    tapes: TapesView,
)
    requires
        l is Int || l is Float,
        r is Int || r is Float,
        forall|x: u64, y: u64|
            #![trigger holds(m, Relation::Eq, x, y)]
            holds(m, Relation::Eq, x, y) ==> holds(m, Relation::Eq, y, x) && !holds(
                m,
                Relation::Lt,
                x,
                y,
            ) && !holds(m, Relation::Gt, x, y),
    ensures
        binop_model(m, BinOpKind::Eq, l, r, tapes) == binop_model(m, BinOpKind::Eq, r, l, tapes),
        binop_model(m, BinOpKind::Ne, l, r, tapes) == binop_model(m, BinOpKind::Ne, r, l, tapes),
        gives(binop_model(m, BinOpKind::Eq, l, r, tapes), ValueView::Bool(true), tapes) ==> {
            &&& gives(binop_model(m, BinOpKind::Ne, l, r, tapes), ValueView::Bool(false), tapes)
            &&& gives(binop_model(m, BinOpKind::Lt, l, r, tapes), ValueView::Bool(false), tapes)
            &&& gives(binop_model(m, BinOpKind::Gt, l, r, tapes), ValueView::Bool(false), tapes)
        },
        gives(binop_model(m, BinOpKind::Eq, l, r, tapes), ValueView::Bool(false), tapes) ==> gives(
            binop_model(m, BinOpKind::Ne, l, r, tapes),
            ValueView::Bool(true),
            tapes,
        ),
{
    let x = match l {
        ValueView::Int(n) => from_int(m, n),
        ValueView::Float(x) => x,
        _ => 0,
    };
    let y = match r {
        ValueView::Int(n) => from_int(m, n),
        ValueView::Float(x) => x,
        _ => 0,
    };
    assert(holds(m, Relation::Eq, x, y) == holds(m, Relation::Eq, y, x));
}

/// Truth values are equal where they are the same; integers differ where they
/// are not; and nothing else that is no number can be compared.
pub proof fn law_what_can_be_compared(
    m: Arith,
    l: ValueView,
    r: ValueView,
    tapes: TapesView,
)
    ensures
        (l, r) matches (ValueView::Bool(a), ValueView::Bool(b)) ==> {
            &&& gives(binop_model(m, BinOpKind::Eq, l, r, tapes), ValueView::Bool(a == b), tapes)
            &&& gives(binop_model(m, BinOpKind::Ne, l, r, tapes), ValueView::Bool(a != b), tapes)
        },
        (l, r) matches (ValueView::Int(a), ValueView::Int(b)) ==> {
            &&& gives(binop_model(m, BinOpKind::Ne, l, r, tapes), ValueView::Bool(a != b), tapes)
            &&& gives(binop_model(m, BinOpKind::Eq, l, r, tapes), ValueView::Bool(a == b), tapes)
            &&& gives(binop_model(m, BinOpKind::Lt, l, r, tapes), ValueView::Bool(a < b), tapes)
            &&& gives(binop_model(m, BinOpKind::Le, l, r, tapes), ValueView::Bool(a <= b), tapes)
            &&& gives(binop_model(m, BinOpKind::Gt, l, r, tapes), ValueView::Bool(a > b), tapes)
            &&& gives(binop_model(m, BinOpKind::Ge, l, r, tapes), ValueView::Bool(a >= b), tapes)
        },
        !(l is Traced) && !(r is Traced) && !(l is Int || l is Float) ==> {
            let e = EvalErrorView::TypeMismatch { expected: "数値"@, got: l.kind_name() };
            &&& fails(binop_model(m, BinOpKind::Lt, l, r, tapes), e, tapes)
            &&& fails(binop_model(m, BinOpKind::Le, l, r, tapes), e, tapes)
            &&& fails(binop_model(m, BinOpKind::Gt, l, r, tapes), e, tapes)
            &&& fails(binop_model(m, BinOpKind::Ge, l, r, tapes), e, tapes)
        },
        (l is Int || l is Float) && !(r is Traced) && !(r is Int || r is Float) ==> {
            let e = EvalErrorView::TypeMismatch { expected: "数値"@, got: r.kind_name() };
            &&& fails(binop_model(m, BinOpKind::Lt, l, r, tapes), e, tapes)
            &&& fails(binop_model(m, BinOpKind::Le, l, r, tapes), e, tapes)
            &&& fails(binop_model(m, BinOpKind::Gt, l, r, tapes), e, tapes)
            &&& fails(binop_model(m, BinOpKind::Ge, l, r, tapes), e, tapes)
        },
        !(l is Traced) && !(r is Traced) && !((l is Bool && r is Bool) || ((l is Int || l is Float)
            && (r is Int || r is Float))) ==> {
            let e = EvalErrorView::TypeMismatch {
                expected: "比較可能な型"@,
                got: "比較不可能な型"@,
            };
            &&& fails(binop_model(m, BinOpKind::Eq, l, r, tapes), e, tapes)
            &&& fails(binop_model(m, BinOpKind::Ne, l, r, tapes), e, tapes)
        },
{
}

/// How an operator that goes element by element is written, and what the
/// arithmetic calls it.
pub open spec fn goes_by_element(op: BinOpKind, k: BinaryOp, symbol: Seq<char>) -> bool {
    ||| op == BinOpKind::Add && k == BinaryOp::Add && symbol == "+"@
    ||| op == BinOpKind::Sub && k == BinaryOp::Sub && symbol == "-"@
    ||| op == BinOpKind::Mul && k == BinaryOp::Mul && symbol == "*"@
    ||| op == BinOpKind::Div && k == BinaryOp::Div && symbol == "/"@
    ||| op == BinOpKind::Pow && k == BinaryOp::Pow && symbol == "^"@
}

/// An operator between tensors of one shape gives a tensor of that shape, each
/// element from the two at its place. Tensors of different shapes are refused.
pub proof fn law_tensors_combine_by_element(
    m: Arith,
    op: BinOpKind,
    k: BinaryOp,
    symbol: Seq<char>,
    a: TensorView,
    b: TensorView,
    tapes: TapesView,
)
    requires
        goes_by_element(op, k, symbol),
    ensures
        ({
            let r = binop_model(m, op, ValueView::Tensor(a), ValueView::Tensor(b), tapes);
            &&& a.shape == b.shape ==> {
                &&& r.0 matches Ok(ValueView::Tensor(c))
                &&& r.1 == tapes
                &&& c.shape == a.shape
                &&& c.data.len() == a.data.len()
                &&& forall|i: int|
                    0 <= i < a.data.len() ==> #[trigger] c.data[i] == bin(
                        m,
                        k,
                        a.data[i],
                        b.data[i],
                    )
            }
            &&& a.shape != b.shape ==> fails(
                r,
                EvalErrorView::TensorShapeMismatch { op: symbol, a: a.shape, b: b.shape },
                tapes,
            )
        }),
{
}

/// An operator between a tensor and a number goes with the number and each
/// element, on the sides that they stand on.
pub proof fn law_numbers_go_with_every_element(
    m: Arith,
    op: BinOpKind,
    k: BinaryOp,
    symbol: Seq<char>,
    t: TensorView,
    v: ValueView,
    x: u64,
    tapes: TapesView,
)
    requires
        goes_by_element(op, k, symbol),
        reads_as(m, v, x),
    ensures
        ({
            let l = binop_model(m, op, ValueView::Tensor(t), v, tapes);
            let r = binop_model(m, op, v, ValueView::Tensor(t), tapes);
            &&& l.0 matches Ok(ValueView::Tensor(c))
            &&& l.1 == tapes
            &&& c.shape == t.shape
            &&& c.data.len() == t.data.len()
            &&& forall|i: int|
                0 <= i < t.data.len() ==> #[trigger] c.data[i] == bin(m, k, t.data[i], x)
            &&& r.0 matches Ok(ValueView::Tensor(d))
            &&& r.1 == tapes
            &&& d.shape == t.shape
            &&& d.data.len() == t.data.len()
            &&& forall|i: int|
                0 <= i < t.data.len() ==> #[trigger] d.data[i] == bin(m, k, x, t.data[i])
        }),
{
}

/// What is neither a number nor a tensor has no part in `+`, `-`, `*`, `/` and
/// `^`; nor does a tensor beside such a thing.
pub proof fn law_what_has_no_arithmetic(
    m: Arith,
    op: BinOpKind,
    k: BinaryOp,
    symbol: Seq<char>,
    l: ValueView,
    r: ValueView,
    tapes: TapesView,
)
    requires
        goes_by_element(op, k, symbol),
        !(l is Traced) && !(r is Traced),
    ensures
        !(l is Int || l is Float || l is Tensor) ==> fails(
            binop_model(m, op, l, r, tapes),
            EvalErrorView::TypeMismatch { expected: "Float または Int"@, got: l.kind_name() },
            tapes,
        ),
        (l is Int || l is Float) && !(r is Int || r is Float || r is Tensor) ==> fails(
            binop_model(m, op, l, r, tapes),
            EvalErrorView::TypeMismatch { expected: "Float または Int"@, got: r.kind_name() },
            tapes,
        ),
        l is Tensor && !(r is Int || r is Float || r is Tensor) ==> fails(
            binop_model(m, op, l, r, tapes),
            EvalErrorView::TypeMismatch { expected: "Float または Int"@, got: "Tensor"@ },
            tapes,
        ),
{
}

/// `@` is the arithmetic's product of a matrix and a matrix or vector whose
/// inner sizes are the same; it takes nothing else.
pub proof fn law_matrix_products_go_by_the_arithmetic(
    m: Arith,
    a: TensorView,
    b: TensorView,
    l: ValueView,
    r: ValueView,
    tapes: TapesView,
)
    ensures
        ({
            let out = binop_model(
                m,
                BinOpKind::MatMul,
                ValueView::Tensor(a),
                ValueView::Tensor(b),
                tapes,
            );
            let inner = a.shape.len() == 2 && b.shape.len() > 0 && a.shape[1] == b.shape[0];
            &&& inner && b.shape.len() == 1 ==> gives(
                out,
                ValueView::Tensor(
                    TensorView {
                        shape: seq![a.shape[0]],
                        data: mat_vec(m, a.shape[0], a.shape[1], a.data, b.data),
                    },
                ),
                tapes,
            )
            &&& inner && b.shape.len() == 2 && a.shape[0] * b.shape[1] <= isize::MAX
                && a.shape[0] > 0 && b.shape[1] > 0 ==> gives(
                out,
                ValueView::Tensor(
                    TensorView {
                        shape: seq![a.shape[0], b.shape[1]],
                        data: mat_mul(
                            m,
                            a.shape[0],
                            a.shape[1],
                            b.shape[1],
                            a.data,
                            b.data,
                        ),
                    },
                ),
                tapes,
            )
            &&& a.shape.len() == 2 && (b.shape.len() == 1 || b.shape.len() == 2) && a.shape[1]
                != b.shape[0] ==> fails(
                out,
                EvalErrorView::TensorShapeMismatch { op: "@"@, a: a.shape, b: b.shape },
                tapes,
            )
            &&& inner && b.shape.len() == 2 && a.shape[0] > 0 && b.shape[1] > 0 && a.shape[0]
                * b.shape[1] > isize::MAX ==> fails(
                out,
                EvalErrorView::InvalidArgument("@: 結果の shape が大きすぎます"@),
                tapes,
            )
            &&& a.shape.len() != 2 || b.shape.len() == 0 || b.shape.len() > 2 ==> fails(
                out,
                EvalErrorView::InvalidArgument(
                    "@ は 2D×2D または 2D×1D のみ対応（"@ + decimal(a.shape.len()) + "D × "@
                        + decimal(b.shape.len()) + "D は未対応）"@,
                ),
                tapes,
            )
        }),
        !(l is Traced) && !(r is Traced) && !(l is Tensor && r is Tensor) ==> fails(
            binop_model(m, BinOpKind::MatMul, l, r, tapes),
            EvalErrorView::TypeMismatch {
                expected: "互換性のある型"@,
                got: "非互換な型の組み合わせ"@,
            },
            tapes,
        ),
{
    if a.shape.len() == 2 && b.shape.len() == 2 {
        let s = seq![a.shape[0], b.shape[1]];
        assert(s.drop_last() =~= seq![a.shape[0]]);
        assert(s.drop_last().drop_last() =~= Seq::<usize>::empty());
        reveal_with_fuel(crate::tensor::nonzero_product, 3);
        if a.shape[0] > 0 && b.shape[1] > 0 {
            assert(nonzero_product(s.drop_last()) == 1 * (a.shape[0] as nat));
        }
    }
}

/// The sign of a tensor turns element by element; only numbers and tensors
/// have one.
pub proof fn law_signs(m: Arith, t: TensorView, v: ValueView, tapes: TapesView)
    ensures
        ({
            let r = negated(m, ValueView::Tensor(t), tapes);
            &&& r.0 matches Ok(ValueView::Tensor(c))
            &&& r.1 == tapes
            &&& c.shape == t.shape
            &&& c.data.len() == t.data.len()
            &&& forall|i: int|
                0 <= i < t.data.len() ==> #[trigger] c.data[i] == un(m, UnaryOp::Neg, t.data[i])
        }),
        !(v is Int || v is Float || v is Tensor || v is Traced) ==> fails(
            negated(m, v, tapes),
            EvalErrorView::TypeMismatch { expected: "数値"@, got: v.kind_name() },
            tapes,
        ),
{
}

// ---------------------------------------------------------------------------
// Operators under differentiation
// ---------------------------------------------------------------------------

/// An operator between two nodes of the innermost tape records one node: which
/// operation it is and on which nodes, and the elements, a scalar going with
/// every one. The tape is otherwise as it was.
pub proof fn law_operators_are_recorded(
    m: Arith,
    op: BinOpKind,
    k: BinaryOp,
    symbol: Seq<char>,
    a: usize,
    b: usize,
    tapes: TapesView,
)
    requires
        goes_by_element(op, k, symbol),
        tapes.len() > 0,
        a < tapes.last().len(),
        b < tapes.last().len(),
        tapes.last().len() <= usize::MAX,
        tapes.last()[a as int].value.ok(),
        tapes.last()[b as int].value.ok(),
    ensures
        ({
            let x = tapes.last()[a as int].value;
            let y = tapes.last()[b as int].value;
            let n = tapes.last().len();
            let r = binop_model(m, op, ValueView::Traced(a), ValueView::Traced(b), tapes);
            let fit = x.shape == y.shape || x.shape.len() == 0 || y.shape.len() == 0;
            &&& !fit ==> fails(
                r,
                EvalErrorView::TensorShapeMismatch { op: symbol, a: x.shape, b: y.shape },
                tapes,
            )
            &&& fit ==> {
                let node = r.1.last()[n as int];
                let wide = if x.shape.len() == 0 {
                    y
                } else {
                    x
                };
                &&& r.0 == Ok::<ValueView, EvalErrorView>(ValueView::Traced(n as usize))
                &&& r.1 == tapes.drop_last().push(tapes.last().push(node))
                &&& node.op == match op {
                    BinOpKind::Add => Op::Add(a, b),
                    BinOpKind::Sub => Op::Sub(a, b),
                    BinOpKind::Mul => Op::Mul(a, b),
                    BinOpKind::Div => Op::Div(a, b),
                    _ => Op::Pow(a, b),
                }
                &&& node.value.shape == wide.shape
                &&& node.value.data.len() == wide.data.len()
                &&& forall|i: int|
                    0 <= i < wide.data.len() ==> #[trigger] node.value.data[i] == bin(
                        m,
                        k,
                        beside(x, i),
                        beside(y, i),
                    )
            }
        }),
{
    crate::tensor::lemma_product_empty();
    let x = tapes.last()[a as int].value;
    let y = tapes.last()[b as int].value;
    if x.shape.len() == 0 {
        assert(x.shape =~= Seq::<usize>::empty());
    }
    if y.shape.len() == 0 {
        assert(y.shape =~= Seq::<usize>::empty());
    }
}

/// `@` between two nodes records one node, whose value is that of `@` between
/// the values; comparisons have no derivative.
pub proof fn law_matrix_products_are_recorded(
    m: Arith,
    op: BinOpKind,
    a: usize,
    b: usize,
    tapes: TapesView,
)
    requires
        tapes.len() > 0,
        a < tapes.last().len(),
        b < tapes.last().len(),
        tapes.last().len() <= usize::MAX,
    ensures
        ({
            let x = tapes.last()[a as int].value;
            let y = tapes.last()[b as int].value;
            let n = tapes.last().len();
            let plain = binop_model(
                m,
                BinOpKind::MatMul,
                ValueView::Tensor(x),
                ValueView::Tensor(y),
                tapes,
            ).0;
            let r = binop_model(m, op, ValueView::Traced(a), ValueView::Traced(b), tapes);
            &&& op == BinOpKind::MatMul ==> {
                &&& plain matches Err(e) ==> fails(r, e, tapes)
                &&& plain matches Ok(ValueView::Tensor(value)) ==> {
                    &&& r.0 == Ok::<ValueView, EvalErrorView>(ValueView::Traced(n as usize))
                    &&& r.1 == tapes.drop_last().push(
                        tapes.last().push(NodeView { value, op: Op::MatMul(a, b) }),
                    )
                }
            }
            &&& op == BinOpKind::Eq || op == BinOpKind::Ne || op == BinOpKind::Lt || op
                == BinOpKind::Le || op == BinOpKind::Gt || op == BinOpKind::Ge ==> fails(
                r,
                EvalErrorView::InvalidArgument("比較演算子は微分できません"@),
                tapes,
            )
        }),
{
}

/// A constant beside a node becomes a leaf of its tape first: an operator with
/// it is the operator with that leaf.
pub proof fn law_constants_become_leaves(
    m: Arith,
    op: BinOpKind,
    a: usize,
    v: ValueView,
    t: TensorView,
    tapes: TapesView,
)
    requires
        tapes.len() > 0,
        a < tapes.last().len(),
        tapes.last().len() < usize::MAX,
        match v {
            ValueView::Tensor(u) => t == u,
            _ => t.shape.len() == 0 && t.data.len() == 1 && reads_as(m, v, t.data[0]),
        },
    ensures
        ({
            let n = tapes.last().len() as usize;
            let after = tapes.drop_last().push(
                tapes.last().push(NodeView { value: t, op: Op::Leaf }),
            );
            &&& binop_model(m, op, ValueView::Traced(a), v, tapes) == binop_model(
                m,
                op,
                ValueView::Traced(a),
                ValueView::Traced(n),
                after,
            )
            &&& binop_model(m, op, v, ValueView::Traced(a), tapes) == binop_model(
                m,
                op,
                ValueView::Traced(n),
                ValueView::Traced(a),
                after,
            )
        }),
{
    let n = tapes.last().len() as usize;
    let leaf = NodeView { value: t, op: Op::Leaf };
    let after = tapes.drop_last().push(tapes.last().push(leaf));
    if !(v is Tensor) {
        assert(t.shape =~= Seq::<usize>::empty());
        assert(t.data =~= seq![t.data[0]]);
    }
    assert(recorded(tapes, leaf) == after);
    assert(on_tape(after, n) && on_tape(after, a));
    assert(lifted(m, v, tapes) == (Ok::<usize, EvalErrorView>(n), after));
}

// ---------------------------------------------------------------------------
// Built-in functions
// ---------------------------------------------------------------------------

/// What the arithmetic calls a built-in function of each element.
pub open spec fn is_of_each_element(b: BuiltinFn, k: UnaryOp) -> bool {
    ||| b == BuiltinFn::Exp && k == UnaryOp::Exp
    ||| b == BuiltinFn::Log && k == UnaryOp::Log
    ||| b == BuiltinFn::Tanh && k == UnaryOp::Tanh
    ||| b == BuiltinFn::Sqrt && k == UnaryOp::Sqrt
}

/// `exp`, `log`, `tanh` and `sqrt` of a number are the arithmetic's; of a
/// tensor they are, at every place of its shape, what they are of the number
/// that stands there; and of a node they record that.
pub proof fn law_functions_of_each_element(
    m: Arith,
    b: BuiltinFn,
    k: UnaryOp,
    v: ValueView,
    x: u64,
    t: TensorView,
    id: usize,
    globals: GlobalsView,
    depth: nat,
    tapes: TapesView,
)
    requires
        is_of_each_element(b, k),
    ensures
        reads_as(m, v, x) ==> gives(
            apply_model(m, ValueView::Builtin(b), v, globals, depth, tapes),
            ValueView::Float(un(m, k, x)),
            tapes,
        ),
        ({
            let f = ValueView::Builtin(b);
            let r = apply_model(m, f, ValueView::Tensor(t), globals, depth, tapes);
            &&& r.0 matches Ok(ValueView::Tensor(c))
            &&& r.1 == tapes
            &&& c.shape == t.shape
            &&& c.data.len() == t.data.len()
            &&& forall|i: int|
                0 <= i < t.data.len() ==> #[trigger] c.data[i] == un(m, k, t.data[i]) && gives(
                    apply_model(m, f, ValueView::Float(t.data[i]), globals, depth, tapes),
                    ValueView::Float(c.data[i]),
                    tapes,
                )
        }),
        tapes.len() > 0 && id < tapes.last().len() <= usize::MAX ==> {
            let x = tapes.last()[id as int].value;
            let n = tapes.last().len();
            let r = apply_model(
                m,
                ValueView::Builtin(b),
                ValueView::Traced(id),
                globals,
                depth,
                tapes,
            );
            let node = r.1.last()[n as int];
            &&& r.0 == Ok::<ValueView, EvalErrorView>(ValueView::Traced(n as usize))
            &&& r.1 == tapes.drop_last().push(tapes.last().push(node))
            &&& b == BuiltinFn::Exp ==> node.op == Op::Exp(id)
            &&& b == BuiltinFn::Log ==> node.op == Op::Log(id)
            &&& b == BuiltinFn::Tanh ==> node.op == Op::Tanh(id)
            &&& b == BuiltinFn::Sqrt ==> node.op == Op::Sqrt(id)
            &&& node.value.shape == x.shape
            &&& node.value.data.len() == x.data.len()
            &&& forall|i: int|
                0 <= i < x.data.len() ==> #[trigger] node.value.data[i] == un(m, k, x.data[i])
        },
        !(v is Int || v is Float || v is Tensor || v is Traced) ==> fails(
            apply_model(m, ValueView::Builtin(b), v, globals, depth, tapes),
            EvalErrorView::TypeMismatch { expected: "数値またはテンソル"@, got: v.kind_name() },
            tapes,
        ),
{
}

/// The sign of a node turns as that of a tensor does, and that is recorded.
pub proof fn law_turned_signs_are_recorded(m: Arith, id: usize, tapes: TapesView)
    requires
        tapes.len() > 0,
        id < tapes.last().len() <= usize::MAX,
    ensures
        ({
            let x = tapes.last()[id as int].value;
            let n = tapes.last().len();
            let r = negated(m, ValueView::Traced(id), tapes);
            let node = r.1.last()[n as int];
            &&& r.0 == Ok::<ValueView, EvalErrorView>(ValueView::Traced(n as usize))
            &&& r.1 == tapes.drop_last().push(tapes.last().push(node))
            &&& node.op == Op::Neg(id)
            &&& node.value.shape == x.shape
            &&& node.value.data.len() == x.data.len()
            &&& forall|i: int|
                0 <= i < x.data.len() ==> #[trigger] node.value.data[i] == un(
                    m,
                    UnaryOp::Neg,
                    x.data[i],
                )
        }),
{
}

/// `abs` of an integer is its distance from zero, where 64 bits hold it, and
/// of a floating-point number the arithmetic's; of a tensor it is that of each
/// element.
pub proof fn law_absolute_values(
    m: Arith,
    n: i64,
    x: u64,
    t: TensorView,
    globals: GlobalsView,
    depth: nat,
    tapes: TapesView,
)
    ensures
        ({
            let f = ValueView::Builtin(BuiltinFn::Abs);
            let r = apply_model(m, f, ValueView::Tensor(t), globals, depth, tapes);
            &&& gives_integer(
                apply_model(m, f, ValueView::Int(n), globals, depth, tapes),
                if n >= 0 {
                    n as int
                } else {
                    -n
                },
                tapes,
            )
            &&& gives(
                apply_model(m, f, ValueView::Float(x), globals, depth, tapes),
                ValueView::Float(un(m, UnaryOp::Abs, x)),
                tapes,
            )
            &&& r.0 matches Ok(ValueView::Tensor(c))
            &&& r.1 == tapes
            &&& c.shape == t.shape
            &&& c.data.len() == t.data.len()
            &&& forall|i: int|
                0 <= i < t.data.len() ==> #[trigger] c.data[i] == un(m, UnaryOp::Abs, t.data[i])
        }),
{
}

/// `sum` adds all elements up; `mean` is that over their number, of which there
/// has to be one; `norm` is the square root of the sum of their squares.
pub proof fn law_sums_over_elements(
    m: Arith,
    t: TensorView,
    globals: GlobalsView,
    depth: nat,
    tapes: TapesView,
)
    ensures
        ({
            let v = ValueView::Tensor(t);
            let sum = ValueView::Builtin(BuiltinFn::Sum);
            let mean = ValueView::Builtin(BuiltinFn::Mean);
            let norm = ValueView::Builtin(BuiltinFn::Norm);
            let squares = Seq::new(
                t.data.len(),
                |i: int| bin(m, BinaryOp::Pow, t.data[i], 0x4000_0000_0000_0000u64),
            );
            &&& gives(
                apply_model(m, sum, v, globals, depth, tapes),
                ValueView::Float(total(m, t.data)),
                tapes,
            )
            &&& t.data.len() > 0 ==> gives(
                apply_model(m, mean, v, globals, depth, tapes),
                ValueView::Float(
                    bin(
                        m,
                        BinaryOp::Div,
                        total(m, t.data),
                        from_int(m, t.data.len() as i64),
                    ),
                ),
                tapes,
            )
            &&& t.data.len() == 0 ==> fails(
                apply_model(m, mean, v, globals, depth, tapes),
                EvalErrorView::InvalidArgument("mean: 空のテンソル"@),
                tapes,
            )
            &&& gives(
                apply_model(m, norm, v, globals, depth, tapes),
                ValueView::Float(un(m, UnaryOp::Sqrt, total(m, squares))),
                tapes,
            )
        }),
{
}

/// `sum` and `mean` of a node record a scalar: the sum of its elements, and that
/// over their number.
pub proof fn law_sums_are_recorded(
    m: Arith,
    id: usize,
    globals: GlobalsView,
    depth: nat,
    tapes: TapesView,
)
    requires
        tapes.len() > 0,
        id < tapes.last().len() <= usize::MAX,
    ensures
        ({
            let x = tapes.last()[id as int].value;
            let n = tapes.last().len();
            let v = ValueView::Traced(id);
            let s = apply_model(
                m,
                ValueView::Builtin(BuiltinFn::Sum),
                v,
                globals,
                depth,
                tapes,
            );
            let a = apply_model(
                m,
                ValueView::Builtin(BuiltinFn::Mean),
                v,
                globals,
                depth,
                tapes,
            );
            let sum = TensorView { shape: Seq::empty(), data: seq![total(m, x.data)] };
            let mean = TensorView {
                shape: Seq::empty(),
                data: seq![
                    bin(
                        m,
                        BinaryOp::Div,
                        total(m, x.data),
                        from_int(m, x.data.len() as i64),
                    ),
                ],
            };
            &&& s.0 == Ok::<ValueView, EvalErrorView>(ValueView::Traced(n as usize))
            &&& s.1 == tapes.drop_last().push(
                tapes.last().push(NodeView { value: sum, op: Op::Sum(id) }),
            )
            &&& x.data.len() > 0 ==> a.0 == Ok::<ValueView, EvalErrorView>(
                ValueView::Traced(n as usize),
            )
            &&& x.data.len() > 0 ==> a.1 == tapes.drop_last().push(
                tapes.last().push(NodeView { value: mean, op: Op::Mean(id) }),
            )
            &&& x.data.len() == 0 ==> a.0 == Ok::<ValueView, EvalErrorView>(
                ValueView::Traced(n as usize),
            ) && a.1.last()[n as int].value.data == seq![
                bin(m, BinaryOp::Div, total(m, x.data), from_int(m, 1)),
            ]
        }),
{
}

/// `max` of one element is that element, and of one more the greater of it and
/// the greatest of the others; `min` likewise. There has to be an element.
pub proof fn law_extremes(
    m: Arith,
    t: TensorView,
    u: TensorView,
    globals: GlobalsView,
    depth: nat,
    tapes: TapesView,
)
    ensures
        ({
            let max = ValueView::Builtin(BuiltinFn::MaxVal);
            let min = ValueView::Builtin(BuiltinFn::MinVal);
            let max_t = apply_model(m, max, ValueView::Tensor(t), globals, depth, tapes);
            let min_t = apply_model(m, min, ValueView::Tensor(t), globals, depth, tapes);
            let max_u = apply_model(m, max, ValueView::Tensor(u), globals, depth, tapes);
            let min_u = apply_model(m, min, ValueView::Tensor(u), globals, depth, tapes);
            &&& t.data.len() == 1 ==> gives(max_t, ValueView::Float(t.data[0]), tapes) && gives(
                min_t,
                ValueView::Float(t.data[0]),
                tapes,
            )
            &&& t.data.len() > 1 && u.data == t.data.drop_last() ==> {
                &&& max_u.0 matches Ok(ValueView::Float(x))
                &&& min_u.0 matches Ok(ValueView::Float(y))
                &&& gives(
                    max_t,
                    ValueView::Float(bin(m, BinaryOp::Max, x, t.data.last())),
                    tapes,
                )
                &&& gives(
                    min_t,
                    ValueView::Float(bin(m, BinaryOp::Min, y, t.data.last())),
                    tapes,
                )
            }
            &&& t.data.len() == 0 ==> {
                &&& fails(max_t, EvalErrorView::InvalidArgument("max: 空のテンソル"@), tapes)
                &&& fails(min_t, EvalErrorView::InvalidArgument("min: 空のテンソル"@), tapes)
            }
        }),
{
}

/// Whether an argument denotes a shape: an integer denotes one dimension, a
/// tensor one for each element.
pub open spec fn denotes_shape(m: Arith, v: ValueView, shape: Seq<usize>) -> bool {
    match v {
        ValueView::Int(n) => 0 <= n <= usize::MAX && shape == seq![n as usize],
        ValueView::Tensor(s) => shape.len() == s.data.len() && forall|i: int|
            0 <= i < shape.len() ==> #[trigger] shape[i] == to_size(m, s.data[i]),
        _ => false,
    }
}

/// `zeros` and `ones` give a tensor of the shape that they are told, with all
/// its elements zero or one.
pub proof fn law_zeros_and_ones(
    m: Arith,
    v: ValueView,
    shape: Seq<usize>,
    globals: GlobalsView,
    depth: nat,
    tapes: TapesView,
)
    requires
        denotes_shape(m, v, shape),
    ensures
        ({
            let zeros = apply_model(
                m,
                ValueView::Builtin(BuiltinFn::Zeros),
                v,
                globals,
                depth,
                tapes,
            );
            let ones = apply_model(
                m,
                ValueView::Builtin(BuiltinFn::Ones),
                v,
                globals,
                depth,
                tapes,
            );
            &&& is_shape(shape) ==> {
                &&& zeros.0 matches Ok(ValueView::Tensor(a))
                &&& zeros.1 == tapes
                &&& a.shape == shape
                &&& a.data.len() == product(shape)
                &&& forall|i: int| 0 <= i < a.data.len() ==> #[trigger] a.data[i] == 0
                &&& ones.0 matches Ok(ValueView::Tensor(b))
                &&& ones.1 == tapes
                &&& b.shape == shape
                &&& b.data.len() == product(shape)
                &&& forall|i: int|
                    0 <= i < b.data.len() ==> #[trigger] b.data[i] == 0x3FF0_0000_0000_0000
            }
            &&& !is_shape(shape) ==> {
                let e = EvalErrorView::InvalidArgument("shape が大きすぎます"@);
                fails(zeros, e, tapes) && fails(ones, e, tapes)
            }
        }),
{
    if let ValueView::Tensor(s) = v {
        assert(shape =~= Seq::new(s.data.len(), |i: int| to_size(m, s.data[i])));
    }
}

/// `reshape` keeps the elements in their order and gives them another shape of
/// the same size; `flatten` makes the elements of a matrix a vector; `concat`
/// puts the elements of one vector behind those of another.
pub proof fn law_layout_of_elements(
    m: Arith,
    t: TensorView,
    u: TensorView,
    v: ValueView,
    shape: Seq<usize>,
    globals: GlobalsView,
    depth: nat,
    tapes: TapesView,
)
    requires
        denotes_shape(m, v, shape),
    ensures
        ({
            let partial = ValueView::PartialBuiltin(BuiltinFn::Reshape, seq![ValueView::Tensor(t)]);
            let r = apply_model(m, partial, v, globals, depth, tapes);
            &&& is_shape(shape) && product(shape) == t.data.len() ==> gives(
                r,
                ValueView::Tensor(TensorView { shape, data: t.data }),
                tapes,
            )
            &&& !(is_shape(shape) && product(shape) == t.data.len()) ==> fails(
                r,
                EvalErrorView::TensorShapeMismatch { op: "reshape"@, a: t.shape, b: shape },
                tapes,
            )
        }),
        ({
            let r = apply_model(
                m,
                ValueView::Builtin(BuiltinFn::Flatten),
                ValueView::Tensor(t),
                globals,
                depth,
                tapes,
            );
            &&& t.shape.len() == 2 && t.data.len() <= usize::MAX ==> gives(
                r,
                ValueView::Tensor(
                    TensorView { shape: seq![t.data.len() as usize], data: t.data },
                ),
                tapes,
            )
            &&& t.shape.len() != 2 ==> fails(
                r,
                EvalErrorView::TensorWrongRank {
                    op: "flatten"@,
                    expected: 2,
                    got: t.shape.len() as usize,
                },
                tapes,
            )
        }),
        ({
            let partial = ValueView::PartialBuiltin(BuiltinFn::Concat, seq![ValueView::Tensor(t)]);
            let r = apply_model(m, partial, ValueView::Tensor(u), globals, depth, tapes);
            let n = t.data.len() + u.data.len();
            &&& t.shape.len() == 1 && u.shape.len() == 1 && n <= usize::MAX ==> {
                &&& r.0 matches Ok(ValueView::Tensor(c))
                &&& r.1 == tapes
                &&& c.shape == seq![n as usize]
                &&& c.data.len() == n
                &&& forall|i: int| 0 <= i < t.data.len() ==> #[trigger] c.data[i] == t.data[i]
                &&& forall|i: int|
                    t.data.len() <= i < n ==> #[trigger] c.data[i] == u.data[i - t.data.len()]
            }
            &&& t.shape.len() == 1 && u.shape.len() == 1 && n > usize::MAX ==> fails(
                r,
                EvalErrorView::InvalidArgument("shape が大きすぎます"@),
                tapes,
            )
            &&& t.shape.len() != 1 ==> fails(
                r,
                EvalErrorView::TensorWrongRank {
                    op: "concat"@,
                    expected: 1,
                    got: t.shape.len() as usize,
                },
                tapes,
            )
            &&& t.shape.len() == 1 && u.shape.len() != 1 ==> fails(
                r,
                EvalErrorView::TensorWrongRank {
                    op: "concat"@,
                    expected: 1,
                    got: u.shape.len() as usize,
                },
                tapes,
            )
        }),
{
    if let ValueView::Tensor(s) = v {
        assert(shape =~= Seq::new(s.data.len(), |i: int| to_size(m, s.data[i])));
    }
    assert(seq![ValueView::Tensor(t)].push(v)[0] == ValueView::Tensor(t));
    assert(seq![ValueView::Tensor(t)].push(v)[1] == v);
    assert(seq![ValueView::Tensor(t)].push(ValueView::Tensor(u))[0] == ValueView::Tensor(t));
    assert(seq![ValueView::Tensor(t)].push(ValueView::Tensor(u))[1] == ValueView::Tensor(u));
}

/// `clip lo hi x` is `x`, raised to `lo` where it is less and then lowered to
/// `hi` where it is more; of a tensor, that of each element.
pub proof fn law_clipping(
    m: Arith,
    lo: ValueView,
    hi: ValueView,
    v: ValueView,
    low: u64,
    high: u64,
    x: u64,
    t: TensorView,
    globals: GlobalsView,
    depth: nat,
    tapes: TapesView,
)
    requires
        reads_as(m, lo, low),
        reads_as(m, hi, high),
        reads_as(m, v, x),
    ensures
        ({
            let partial = ValueView::PartialBuiltin(BuiltinFn::Clip, seq![lo, hi]);
            let r = apply_model(m, partial, ValueView::Tensor(t), globals, depth, tapes);
            &&& gives(
                apply_model(m, partial, v, globals, depth, tapes),
                ValueView::Float(bin(m, BinaryOp::Min, bin(m, BinaryOp::Max, x, low), high)),
                tapes,
            )
            &&& r.0 matches Ok(ValueView::Tensor(c))
            &&& r.1 == tapes
            &&& c.shape == t.shape
            &&& c.data.len() == t.data.len()
            &&& forall|i: int|
                0 <= i < t.data.len() ==> #[trigger] c.data[i] == bin(
                    m,
                    BinaryOp::Min,
                    bin(m, BinaryOp::Max, t.data[i], low),
                    high,
                )
        }),
{
    assert(seq![lo, hi].push(v) =~= seq![lo, hi, v]);
    assert(seq![lo, hi].push(ValueView::Tensor(t)) =~= seq![lo, hi, ValueView::Tensor(t)]);
}

/// `softmax` gives each exponential over the sum of all exponentials; of a
/// node, it records the exponentials, their sum and the quotients.
pub proof fn law_softmax(
    m: Arith,
    t: TensorView,
    id: usize,
    globals: GlobalsView,
    depth: nat,
    tapes: TapesView,
)
    ensures
        ({
            let r = apply_model(
                m,
                ValueView::Builtin(BuiltinFn::Softmax),
                ValueView::Tensor(t),
                globals,
                depth,
                tapes,
            );
            let e = Seq::new(t.data.len(), |i: int| un(m, UnaryOp::Exp, t.data[i]));
            &&& r.0 matches Ok(ValueView::Tensor(c))
            &&& r.1 == tapes
            &&& c.shape == t.shape
            &&& c.data.len() == t.data.len()
            &&& forall|i: int|
                0 <= i < t.data.len() ==> #[trigger] c.data[i] == bin(
                    m,
                    BinaryOp::Div,
                    e[i],
                    total(m, e),
                )
        }),
        tapes.len() > 0 && id < tapes.last().len() && tapes.last().len() + 3 <= usize::MAX
            && tapes.last()[id as int].value.ok() ==> {
            let x = tapes.last()[id as int].value;
            let n = tapes.last().len();
            let r = apply_model(
                m,
                ValueView::Builtin(BuiltinFn::Softmax),
                ValueView::Traced(id),
                globals,
                depth,
                tapes,
            );
            let e = Seq::new(x.data.len(), |i: int| un(m, UnaryOp::Exp, x.data[i]));
            let q = Seq::new(x.data.len(), |i: int| bin(m, BinaryOp::Div, e[i], total(m, e)));
            let exps = NodeView {
                value: TensorView { shape: x.shape, data: e },
                op: Op::Exp(id),
            };
            let sum = NodeView {
                value: TensorView { shape: Seq::empty(), data: seq![total(m, e)] },
                op: Op::Sum(n as usize),
            };
            let quotients = NodeView {
                value: TensorView { shape: x.shape, data: q },
                op: Op::Div(n as usize, (n + 1) as usize),
            };
            &&& r.0 == Ok::<ValueView, EvalErrorView>(ValueView::Traced((n + 2) as usize))
            &&& r.1 == tapes.drop_last().push(
                tapes.last().push(exps).push(sum).push(quotients),
            )
        },
{
    let e = crate::tensor::map_elements(m, UnaryOp::Exp, t);
    assert(e.data =~= Seq::new(t.data.len(), |i: int| un(m, UnaryOp::Exp, t.data[i])));
    if tapes.len() > 0 && id < tapes.last().len() && tapes.last().len() + 3 <= usize::MAX
        && tapes.last()[id as int].value.ok() {
        let x = tapes.last()[id as int].value;
        crate::tensor::lemma_product_empty();
        if x.shape.len() == 0 {
            assert(x.shape =~= Seq::<usize>::empty());
        }
        let n = tapes.last().len();
        let e = Seq::new(x.data.len(), |i: int| un(m, UnaryOp::Exp, x.data[i]));
        let q = Seq::new(x.data.len(), |i: int| bin(m, BinaryOp::Div, e[i], total(m, e)));
        let exps = NodeView { value: TensorView { shape: x.shape, data: e }, op: Op::Exp(id) };
        let sum = NodeView {
            value: TensorView { shape: Seq::empty(), data: seq![total(m, e)] },
            op: Op::Sum(n as usize),
        };
        let quotients = NodeView {
            value: TensorView { shape: x.shape, data: q },
            op: Op::Div(n as usize, (n + 1) as usize),
        };
        let t1 = recorded(tapes, exps);
        let t2 = recorded(t1, sum);
        let t3 = recorded(t2, quotients);
        assert(t1.drop_last() =~= tapes.drop_last());
        assert(t2.drop_last() =~= tapes.drop_last());
        assert(t2.last() == tapes.last().push(exps).push(sum));
        assert(t2.last()[n as int] == exps);
        assert(t2.last()[n as int + 1] == sum);
        assert(crate::tensor::map_elements(m, UnaryOp::Exp, x) == exps.value);
        assert(crate::autodiff::combined(m, BinaryOp::Div, exps.value, sum.value).data =~= q);
        assert(t3 =~= tapes.drop_last().push(tapes.last().push(exps).push(sum).push(quotients)));
    }
}

/// `reshape`, `grad` and `concat` wait for a second argument, `iterate` and
/// `clip` for a third, and keep the ones that they have in their order.
pub proof fn law_arguments_are_awaited(
    m: Arith,
    b: BuiltinFn,
    x: ValueView,
    y: ValueView,
    globals: GlobalsView,
    depth: nat,
    tapes: TapesView,
)
    ensures
        b == BuiltinFn::Reshape || b == BuiltinFn::Grad || b == BuiltinFn::Concat || b
            == BuiltinFn::Iterate || b == BuiltinFn::Clip ==> gives(
            apply_model(m, ValueView::Builtin(b), x, globals, depth, tapes),
            ValueView::PartialBuiltin(b, seq![x]),
            tapes,
        ),
        b == BuiltinFn::Iterate || b == BuiltinFn::Clip ==> gives(
            apply_model(
                m,
                ValueView::PartialBuiltin(b, seq![x]),
                y,
                globals,
                depth,
                tapes,
            ),
            ValueView::PartialBuiltin(b, seq![x, y]),
            tapes,
        ),
        apply_model(
            m,
            ValueView::PartialBuiltin(BuiltinFn::Grad, seq![x]),
            y,
            globals,
            depth,
            tapes,
        ) == grad_model(m, x, y, globals, depth, tapes),
{
    assert(seq![x].push(y) =~= seq![x, y]);
}

/// `iterate v n step` is `v` where `n` is not positive, and else `step` of what
/// one step less gives.
pub proof fn law_iteration_is_repeated_application(
    m: Arith,
    v: ValueView,
    n: i64,
    step: ValueView,
    globals: GlobalsView,
    depth: nat,
    tapes: TapesView,
)
    requires
        depth > 0,
    ensures
        ({
            let r = apply_model(
                m,
                ValueView::PartialBuiltin(BuiltinFn::Iterate, seq![v, ValueView::Int(n)]),
                step,
                globals,
                depth,
                tapes,
            );
            let before = apply_model(
                m,
                ValueView::PartialBuiltin(
                    BuiltinFn::Iterate,
                    seq![v, ValueView::Int((n - 1) as i64)],
                ),
                step,
                globals,
                depth,
                tapes,
            );
            &&& n <= 0 ==> gives(r, v, tapes)
            &&& n > 0 ==> match before.0 {
                Err(e) => r == before,
                Ok(u) => r == apply_model(m, step, u, globals, (depth - 1) as nat, before.1),
            }
        }),
{
    assert(seq![v, ValueView::Int(n)].push(step) =~= seq![v, ValueView::Int(n), step]);
    if n > 0 {
        let k = (n - 1) as i64;
        assert(seq![v, ValueView::Int(k)].push(step) =~= seq![v, ValueView::Int(k), step]);
        let d = (depth - 1) as nat;
        let (u, after) = iterate_model(m, step, v, k as nat, globals, d, tapes);
        assert(iterate_model(m, step, v, n as nat, globals, d, tapes) == match u {
            Err(e) => (Err(e), after),
            Ok(u) => apply_model(m, step, u, globals, d, after),
        });
    }
    reveal_with_fuel(iterate_model, 2);
    reveal_with_fuel(apply_model, 2);
    reveal_with_fuel(builtin_many, 2);
}

/// What an argument of the wrong kind is answered.
pub proof fn law_arguments_of_the_wrong_kind(
    m: Arith,
    b: BuiltinFn,
    v: ValueView,
    globals: GlobalsView,
    depth: nat,
    tapes: TapesView,
)
    ensures
        !(v is Tensor) && (b == BuiltinFn::MaxVal || b == BuiltinFn::MinVal || b == BuiltinFn::Norm
            || b == BuiltinFn::Transpose || b == BuiltinFn::Flatten) ==> fails(
            apply_model(m, ValueView::Builtin(b), v, globals, depth, tapes),
            EvalErrorView::TypeMismatch { expected: "Tensor"@, got: v.kind_name() },
            tapes,
        ),
        !(v is Tensor) && !(v is Traced) && (b == BuiltinFn::Sum || b == BuiltinFn::Mean || b
            == BuiltinFn::Softmax) ==> fails(
            apply_model(m, ValueView::Builtin(b), v, globals, depth, tapes),
            EvalErrorView::TypeMismatch { expected: "Tensor"@, got: v.kind_name() },
            tapes,
        ),
        !(v is Int || v is Float || v is Tensor) ==> fails(
            apply_model(m, ValueView::Builtin(BuiltinFn::Abs), v, globals, depth, tapes),
            EvalErrorView::TypeMismatch { expected: "数値またはテンソル"@, got: v.kind_name() },
            tapes,
        ),
        !(v is Int || v is Tensor) && (b == BuiltinFn::Zeros || b == BuiltinFn::Ones) ==> fails(
            apply_model(m, ValueView::Builtin(b), v, globals, depth, tapes),
            EvalErrorView::InvalidArgument(
                "shape は Int またはテンソルである必要があります、got: "@ + str_debug(
                    v.kind_name(),
                ),
            ),
            tapes,
        ),
        v is Int || v is Float || v is Bool || v is Tensor || v is Traced ==> fails(
            apply_model(m, v, v, globals, depth, tapes),
            EvalErrorView::TypeMismatch { expected: "関数"@, got: v.kind_name() },
            tapes,
        ),
{
}

/// How messages call each kind of value.
pub proof fn law_kinds_have_names(v: ValueView)
    ensures
        v is Int ==> v.kind_name() == "Int"@,
        v is Float ==> v.kind_name() == "Float"@,
        v is Bool ==> v.kind_name() == "Bool"@,
        v is Tensor ==> v.kind_name() == "Tensor"@,
        v is Closure ==> v.kind_name() == "Closure"@,
        v is Builtin || v is PartialBuiltin ==> v.kind_name() == "Builtin"@,
        v is Traced ==> v.kind_name() == "Tracked"@,
{
}

// ---------------------------------------------------------------------------
// Expressions
// ---------------------------------------------------------------------------

/// A literal is what it says; a floating-point one is what the arithmetic reads
/// in its text.
pub proof fn law_literals(
    m: Arith,
    n: i64,
    b: bool,
    text: Seq<char>,
    env: EnvView,
    depth: nat,
    tapes: TapesView,
)
    ensures
        gives(
            eval_model(m, ExprView::Lit(LiteralView::Int(n)), env, depth, tapes),
            ValueView::Int(n),
            tapes,
        ),
        gives(
            eval_model(m, ExprView::Lit(LiteralView::Bool(b)), env, depth, tapes),
            ValueView::Bool(b),
            tapes,
        ),
        gives(
            eval_model(m, ExprView::Lit(LiteralView::Float(text)), env, depth, tapes),
            ValueView::Float(word(m(QueryView::Parse(text)), 0)),
            tapes,
        ),
{
}

/// A name is the nearest thing bound to it: a local binding before a top-level
/// one, and of local bindings the newest. A name that nothing is bound to is an
/// error.
pub proof fn law_names_are_looked_up(
    m: Arith,
    name: Seq<char>,
    other: Seq<char>,
    v: ValueView,
    env: EnvView,
    depth: nat,
    tapes: TapesView,
)
    ensures
        gives(eval_model(m, ExprView::Var(name), env.bind(name, v), depth, tapes), v, tapes),
        other != name ==> eval_model(m, ExprView::Var(other), env.bind(name, v), depth, tapes)
            == eval_model(m, ExprView::Var(other), env, depth, tapes),
        env.locals is Empty && env.globals.contains_key(name) ==> gives(
            eval_model(m, ExprView::Var(name), env, depth, tapes),
            env.globals[name],
            tapes,
        ),
        env.locals is Empty && !env.globals.contains_key(name) ==> fails(
            eval_model(m, ExprView::Var(name), env, depth, tapes),
            EvalErrorView::UnboundVariable(name),
            tapes,
        ),
{
}

/// An operator works on what its operands evaluate to, the left one first, and
/// the first error ends it.
pub proof fn law_operands_are_evaluated(
    m: Arith,
    op: BinOpKind,
    left: ExprView,
    right: ExprView,
    env: EnvView,
    depth: nat,
    tapes: TapesView,
)
    ensures
        ({
            let whole = eval_model(
                m,
                ExprView::BinOp { op, left: Box::new(left), right: Box::new(right) },
                env,
                depth,
                tapes,
            );
            let sign = eval_model(m, ExprView::UnaryMinus(Box::new(left)), env, depth, tapes);
            let (l, t1) = eval_model(m, left, env, depth, tapes);
            let (r, t2) = eval_model(m, right, env, depth, t1);
            &&& l matches Err(e) ==> fails(whole, e, t1) && fails(sign, e, t1)
            &&& l is Ok && r is Err ==> fails(whole, r->Err_0, t2)
            &&& l is Ok && r is Ok ==> whole == binop_model(m, op, l->Ok_0, r->Ok_0, t2)
            &&& l is Ok ==> sign == negated(m, l->Ok_0, t1)
        }),
{
}

/// `f a` applies what `f` evaluates to, to what `a` evaluates to.
pub proof fn law_functions_are_applied(
    m: Arith,
    func: ExprView,
    arg: ExprView,
    env: EnvView,
    depth: nat,
    tapes: TapesView,
)
    ensures
        ({
            let whole = eval_model(
                m,
                ExprView::App(Box::new(func), Box::new(arg)),
                env,
                depth,
                tapes,
            );
            let (f, t1) = eval_model(m, func, env, depth, tapes);
            let (a, t2) = eval_model(m, arg, env, depth, t1);
            &&& f matches Err(e) ==> fails(whole, e, t1)
            &&& f is Ok && a is Err ==> fails(whole, a->Err_0, t2)
            &&& f is Ok && a is Ok ==> whole == apply_model(
                m,
                f->Ok_0,
                a->Ok_0,
                env.globals,
                depth,
                t2,
            )
        }),
{
}

/// A call has the value of the body with the parameter bound to the argument,
/// in the local scope that the function was made in and the top-level scope of
/// the caller. One call fewer may nest in it.
pub proof fn law_calls(
    m: Arith,
    param: Seq<char>,
    body: ExprView,
    env: EnvView,
    a: ValueView,
    globals: GlobalsView,
    depth: nat,
    tapes: TapesView,
)
    ensures
        gives(
            eval_model(m, ExprView::Lambda { param, body: Box::new(body) }, env, depth, tapes),
            ValueView::Closure { param, body, env: env.locals },
            tapes,
        ),
        ({
            let f = ValueView::Closure { param, body, env: env.locals };
            let inner = EnvView {
                locals: LocalsView::Bound {
                    name: param,
                    value: Box::new(a),
                    parent: Box::new(env.locals),
                },
                globals,
            };
            &&& apply_model(m, f, a, globals, depth + 1, tapes) == eval_model(
                m,
                body,
                inner,
                depth,
                tapes,
            )
            &&& fails(apply_model(m, f, a, globals, 0, tapes), EvalErrorView::CallDepth, tapes)
        }),
{
}

/// `let x = v in b` is `b` with `x` bound to what `v` evaluates to.
pub proof fn law_let_binds(
    m: Arith,
    name: Seq<char>,
    value: ExprView,
    body: ExprView,
    env: EnvView,
    depth: nat,
    tapes: TapesView,
)
    ensures
        ({
            let whole = eval_model(
                m,
                ExprView::Let {
                    name,
                    params: Seq::empty(),
                    value: Box::new(value),
                    body: Box::new(body),
                },
                env,
                depth,
                tapes,
            );
            let (v, t1) = eval_model(m, value, env, depth, tapes);
            &&& v matches Err(e) ==> fails(whole, e, t1)
            &&& v matches Ok(v) ==> whole == eval_model(
                m,
                body,
                EnvView {
                    locals: LocalsView::Bound {
                        name,
                        value: Box::new(v),
                        parent: Box::new(env.locals),
                    },
                    globals: env.globals,
                },
                depth,
                t1,
            )
        }),
{
}

/// `let f x = v in b` is `b` with `f` bound to the function of `x` that `v` is;
/// with more parameters, to the function of the first that gives the function of
/// the others.
pub proof fn law_let_defines_functions(
    m: Arith,
    name: Seq<char>,
    param: Seq<char>,
    rest: Seq<Seq<char>>,
    value: ExprView,
    body: ExprView,
    env: EnvView,
    a: ValueView,
    globals: GlobalsView,
    depth: nat,
    tapes: TapesView,
)
    ensures
        ({
            let f = eval_model(
                m,
                ExprView::Let {
                    name,
                    params: seq![param] + rest,
                    value: Box::new(value),
                    body: Box::new(ExprView::Var(name)),
                },
                env,
                depth,
                tapes,
            );
            let inner = EnvView {
                locals: LocalsView::Bound {
                    name: param,
                    value: Box::new(a),
                    parent: Box::new(env.locals),
                },
                globals,
            };
            &&& f.0 matches Ok(v)
            &&& f.1 == tapes
            &&& eval_model(
                m,
                ExprView::Let {
                    name,
                    params: seq![param] + rest,
                    value: Box::new(value),
                    body: Box::new(body),
                },
                env,
                depth,
                tapes,
            ) == eval_model(m, body, env.bind(name, v), depth, tapes)
            &&& rest.len() == 0 ==> apply_model(m, v, a, globals, depth + 1, tapes) == eval_model(
                m,
                value,
                inner,
                depth,
                tapes,
            )
            &&& rest.len() > 0 ==> apply_model(m, v, a, globals, depth + 1, tapes) == eval_model(
                m,
                ExprView::Let {
                    name,
                    params: rest,
                    value: Box::new(value),
                    body: Box::new(ExprView::Var(name)),
                },
                inner,
                depth,
                tapes,
            )
        }),
{
    let params = seq![param] + rest;
    assert(params.subrange(1, params.len() as int) =~= rest);
    let v = function_value(params, value, env.locals);
    assert(env.bind(name, v).find(name) == Some(v));
    reveal_with_fuel(eval_model, 3);
    reveal_with_fuel(curried, 2);
    if rest.len() > 0 {
        let inner = (EnvView { locals: env.locals, globals }).bind(param, a);
        let w = function_value(rest, value, inner.locals);
        assert(inner.bind(name, w).find(name) == Some(w));
    }
}

/// `if c then a else b` is `a` where `c` is true and `b` where it is false, and
/// of the two only that is evaluated. What is no truth value is no condition.
pub proof fn law_conditions_choose(
    m: Arith,
    cond: ExprView,
    then: ExprView,
    else_: ExprView,
    env: EnvView,
    depth: nat,
    tapes: TapesView,
)
    ensures
        ({
            let whole = eval_model(
                m,
                ExprView::If {
                    cond: Box::new(cond),
                    then: Box::new(then),
                    else_: Box::new(else_),
                },
                env,
                depth,
                tapes,
            );
            let (c, t1) = eval_model(m, cond, env, depth, tapes);
            match c {
                Err(e) => fails(whole, e, t1),
                Ok(ValueView::Bool(b)) => whole == eval_model(
                    m,
                    if b {
                        then
                    } else {
                        else_
                    },
                    env,
                    depth,
                    t1,
                ),
                Ok(v) => fails(
                    whole,
                    EvalErrorView::TypeMismatch { expected: "Bool"@, got: v.kind_name() },
                    t1,
                ),
            }
        }),
{
}

proof fn lemma_row_elements(
    m: Arith,
    row: Seq<ExprView>,
    n: nat,
    x: spec_fn(int) -> u64,
    env: EnvView,
    depth: nat,
    tapes: TapesView,
)
    requires
        n <= row.len(),
        forall|j: int|
            0 <= j < row.len() ==> {
                let (v, after) = eval_model(m, #[trigger] row[j], env, depth, tapes);
                v is Ok && reads_as(m, v->Ok_0, x(j)) && after == tapes
            },
    ensures
        eval_row(m, row, n, env, depth, tapes) == (
            Ok::<Seq<u64>, EvalErrorView>(Seq::new(n, |j: int| x(j))),
            tapes,
        ),
    decreases n,
{
    if n == 0 {
        assert(Seq::new(n, |j: int| x(j)) =~= Seq::empty());
    } else {
        lemma_row_elements(m, row, (n - 1) as nat, x, env, depth, tapes);
        assert(eval_model(m, row[n - 1], env, depth, tapes).0 is Ok);
        assert(Seq::new((n - 1) as nat, |j: int| x(j)).push(x(n - 1)) =~= Seq::new(
            n,
            |j: int| x(j),
        ));
    }
}

proof fn lemma_rows_elements(
    m: Arith,
    rows: Seq<Seq<ExprView>>,
    n: nat,
    cols: nat,
    x: spec_fn(int, int) -> u64,
    env: EnvView,
    depth: nat,
    tapes: TapesView,
)
    requires
        n <= rows.len(),
        forall|i: int| 0 <= i < rows.len() ==> (#[trigger] rows[i]).len() == cols,
        forall|i: int, j: int|
            0 <= i < rows.len() && 0 <= j < rows[i].len() ==> {
                let (v, after) = eval_model(m, #[trigger] rows[i][j], env, depth, tapes);
                v is Ok && reads_as(m, v->Ok_0, x(i, j)) && after == tapes
            },
    ensures
        eval_rows(m, rows, n, env, depth, tapes).0 is Ok,
        eval_rows(m, rows, n, env, depth, tapes).1 == tapes,
        eval_rows(m, rows, n, env, depth, tapes).0->Ok_0.len() == n * cols,
        forall|i: int, j: int|
            0 <= i < n && 0 <= j < cols ==> #[trigger] eval_rows(
                m,
                rows,
                n,
                env,
                depth,
                tapes,
            ).0->Ok_0[i * cols + j] == x(i, j),
    decreases n,
{
    if n > 0 {
        lemma_rows_elements(m, rows, (n - 1) as nat, cols, x, env, depth, tapes);
        let row = rows[n - 1];
        let last = |j: int| x(n - 1, j);
        assert forall|j: int| 0 <= j < row.len() implies {
            let (v, after) = eval_model(m, #[trigger] row[j], env, depth, tapes);
            v is Ok && reads_as(m, v->Ok_0, last(j)) && after == tapes
        } by {
            assert(eval_model(m, rows[n - 1][j], env, depth, tapes).0 is Ok);
        }
        lemma_row_elements(m, row, row.len(), last, env, depth, tapes);
        let front = eval_rows(m, rows, (n - 1) as nat, env, depth, tapes).0->Ok_0;
        let all = eval_rows(m, rows, n, env, depth, tapes).0->Ok_0;
        assert(all == front + Seq::new(row.len(), |j: int| last(j)));
        assert((n - 1) * cols + cols == n * cols) by (nonlinear_arith);
        assert forall|i: int, j: int| 0 <= i < n && 0 <= j < cols implies #[trigger] all[i * cols
            + j] == x(i, j) by {
            if i < n - 1 {
                assert(i * cols + j < (n - 1) * cols) by (nonlinear_arith)
                    requires
                        0 <= i < n - 1,
                        0 <= j < cols,
                ;
                assert(0 <= i * cols) by (nonlinear_arith)
                    requires
                        0 <= i,
                        0 <= cols,
                ;
                assert(front[i * cols + j] == x(i, j));
            }
        }
    } else {
        assert(0 * cols == 0);
    }
}

/// A tensor literal holds its elements row by row, as floating-point numbers:
/// one row is a vector, several of one length are a matrix.
pub proof fn law_tensor_literals_hold_their_elements(
    m: Arith,
    rows: Seq<Seq<ExprView>>,
    cols: nat,
    x: spec_fn(int, int) -> u64,
    env: EnvView,
    depth: nat,
    tapes: TapesView,
)
    requires
        rows.len() > 0,
        rows.len() <= usize::MAX,
        0 < cols <= usize::MAX,
        forall|i: int| 0 <= i < rows.len() ==> (#[trigger] rows[i]).len() == cols,
        forall|i: int, j: int|
            0 <= i < rows.len() && 0 <= j < rows[i].len() ==> {
                let (v, after) = eval_model(m, #[trigger] rows[i][j], env, depth, tapes);
                v is Ok && reads_as(m, v->Ok_0, x(i, j)) && after == tapes
            },
    ensures
        ({
            let r = eval_model(m, ExprView::TensorLit(rows), env, depth, tapes);
            &&& r.0 matches Ok(ValueView::Tensor(t))
            &&& r.1 == tapes
            &&& rows.len() == 1 ==> t.shape == seq![cols as usize]
            &&& rows.len() > 1 ==> t.shape == seq![rows.len() as usize, cols as usize]
            &&& t.data.len() == rows.len() * cols
            &&& forall|i: int, j: int|
                0 <= i < rows.len() && 0 <= j < cols ==> #[trigger] t.data[i * cols + j] == x(i, j)
        }),
{
    lemma_rows_elements(m, rows, rows.len(), cols, x, env, depth, tapes);
    assert(rows[0].len() == cols);
}

/// A tensor literal without elements is a vector without elements; an element
/// has to be a number.
pub proof fn law_tensor_literals_of_nothing(
    m: Arith,
    e: ExprView,
    env: EnvView,
    depth: nat,
    tapes: TapesView,
)
    ensures
        gives(
            eval_model(m, ExprView::TensorLit(Seq::empty()), env, depth, tapes),
            ValueView::Tensor(TensorView { shape: seq![0], data: Seq::empty() }),
            tapes,
        ),
        ({
            let (v, after) = eval_model(m, e, env, depth, tapes);
            let r = eval_model(m, ExprView::TensorLit(seq![seq![e]]), env, depth, tapes);
            &&& v matches Err(error) ==> fails(r, error, after)
            &&& v matches Ok(v) ==> !(v is Int || v is Float) ==> fails(
                r,
                EvalErrorView::TypeMismatch { expected: "Float または Int"@, got: v.kind_name() },
                after,
            )
        }),
{
    let rows = seq![seq![e]];
    reveal_with_fuel(eval_rows, 3);
    reveal_with_fuel(eval_row, 3);
    assert(rows[0].len() == 1);
    assert(rows[0][0] == e);
    assert(eval_row(m, rows[0], 0, env, depth, tapes) == (
        Ok::<Seq<u64>, EvalErrorView>(Seq::empty()),
        tapes,
    ));
    assert(eval_rows(m, rows, 0, env, depth, tapes) == (
        Ok::<Seq<u64>, EvalErrorView>(Seq::empty()),
        tapes,
    ));
    let cells = eval_row(m, rows[0], 1, env, depth, tapes);
    assert(cells.0 is Err ==> eval_rows(m, rows, 1, env, depth, tapes) == cells);
}

// ---------------------------------------------------------------------------
// Programs
// ---------------------------------------------------------------------------

/// The names of the built-in functions are all different.
pub proof fn lemma_names_apart()
    ensures
        "sum"@.len() == 3,
        "mean"@.len() == 4,
        "exp"@.len() == 3,
        "log"@.len() == 3,
        "tanh"@.len() == 4,
        "sqrt"@.len() == 4,
        "zeros"@.len() == 5,
        "ones"@.len() == 4,
        "transpose"@.len() == 9,
        "reshape"@.len() == 7,
        "grad"@.len() == 4,
        "iterate"@.len() == 7,
        "abs"@.len() == 3,
        "max"@.len() == 3,
        "min"@.len() == 3,
        "concat"@.len() == 6,
        "flatten"@.len() == 7,
        "norm"@.len() == 4,
        "clip"@.len() == 4,
        "softmax"@.len() == 7,
        "sum"@ != "exp"@,
        "sum"@ != "log"@,
        "sum"@ != "abs"@,
        "sum"@ != "max"@,
        "sum"@ != "min"@,
        "exp"@ != "log"@,
        "exp"@ != "abs"@,
        "exp"@ != "max"@,
        "exp"@ != "min"@,
        "log"@ != "abs"@,
        "log"@ != "max"@,
        "log"@ != "min"@,
        "abs"@ != "max"@,
        "abs"@ != "min"@,
        "max"@ != "min"@,
        "mean"@ != "tanh"@,
        "mean"@ != "sqrt"@,
        "mean"@ != "ones"@,
        "mean"@ != "grad"@,
        "mean"@ != "norm"@,
        "mean"@ != "clip"@,
        "tanh"@ != "sqrt"@,
        "tanh"@ != "ones"@,
        "tanh"@ != "grad"@,
        "tanh"@ != "norm"@,
        "tanh"@ != "clip"@,
        "sqrt"@ != "ones"@,
        "sqrt"@ != "grad"@,
        "sqrt"@ != "norm"@,
        "sqrt"@ != "clip"@,
        "ones"@ != "grad"@,
        "ones"@ != "norm"@,
        "ones"@ != "clip"@,
        "grad"@ != "norm"@,
        "grad"@ != "clip"@,
        "norm"@ != "clip"@,
        "reshape"@ != "iterate"@,
        "reshape"@ != "flatten"@,
        "reshape"@ != "softmax"@,
        "iterate"@ != "flatten"@,
        "iterate"@ != "softmax"@,
        "flatten"@ != "softmax"@,
{
    reveal_strlit("sum");
    reveal_strlit("mean");
    reveal_strlit("exp");
    reveal_strlit("log");
    reveal_strlit("tanh");
    reveal_strlit("sqrt");
    reveal_strlit("zeros");
    reveal_strlit("ones");
    reveal_strlit("transpose");
    reveal_strlit("reshape");
    reveal_strlit("grad");
    reveal_strlit("iterate");
    reveal_strlit("abs");
    reveal_strlit("max");
    reveal_strlit("min");
    reveal_strlit("concat");
    reveal_strlit("flatten");
    reveal_strlit("norm");
    reveal_strlit("clip");
    reveal_strlit("softmax");
    assert("sum"@ != "exp"@) by {
        assert("sum"@[0] != "exp"@[0]);
    }
    assert("sum"@ != "log"@) by {
        assert("sum"@[0] != "log"@[0]);
    }
    assert("sum"@ != "abs"@) by {
        assert("sum"@[0] != "abs"@[0]);
    }
    assert("sum"@ != "max"@) by {
        assert("sum"@[0] != "max"@[0]);
    }
    assert("sum"@ != "min"@) by {
        assert("sum"@[0] != "min"@[0]);
    }
    assert("exp"@ != "log"@) by {
        assert("exp"@[0] != "log"@[0]);
    }
    assert("exp"@ != "abs"@) by {
        assert("exp"@[0] != "abs"@[0]);
    }
    assert("exp"@ != "max"@) by {
        assert("exp"@[0] != "max"@[0]);
    }
    assert("exp"@ != "min"@) by {
        assert("exp"@[0] != "min"@[0]);
    }
    assert("log"@ != "abs"@) by {
        assert("log"@[0] != "abs"@[0]);
    }
    assert("log"@ != "max"@) by {
        assert("log"@[0] != "max"@[0]);
    }
    assert("log"@ != "min"@) by {
        assert("log"@[0] != "min"@[0]);
    }
    assert("abs"@ != "max"@) by {
        assert("abs"@[0] != "max"@[0]);
    }
    assert("abs"@ != "min"@) by {
        assert("abs"@[0] != "min"@[0]);
    }
    assert("max"@ != "min"@) by {
        assert("max"@[1] != "min"@[1]);
    }
    assert("mean"@ != "tanh"@) by {
        assert("mean"@[0] != "tanh"@[0]);
    }
    assert("mean"@ != "sqrt"@) by {
        assert("mean"@[0] != "sqrt"@[0]);
    }
    assert("mean"@ != "ones"@) by {
        assert("mean"@[0] != "ones"@[0]);
    }
    assert("mean"@ != "grad"@) by {
        assert("mean"@[0] != "grad"@[0]);
    }
    assert("mean"@ != "norm"@) by {
        assert("mean"@[0] != "norm"@[0]);
    }
    assert("mean"@ != "clip"@) by {
        assert("mean"@[0] != "clip"@[0]);
    }
    assert("tanh"@ != "sqrt"@) by {
        assert("tanh"@[0] != "sqrt"@[0]);
    }
    assert("tanh"@ != "ones"@) by {
        assert("tanh"@[0] != "ones"@[0]);
    }
    assert("tanh"@ != "grad"@) by {
        assert("tanh"@[0] != "grad"@[0]);
    }
    assert("tanh"@ != "norm"@) by {
        assert("tanh"@[0] != "norm"@[0]);
    }
    assert("tanh"@ != "clip"@) by {
        assert("tanh"@[0] != "clip"@[0]);
    }
    assert("sqrt"@ != "ones"@) by {
        assert("sqrt"@[0] != "ones"@[0]);
    }
    assert("sqrt"@ != "grad"@) by {
        assert("sqrt"@[0] != "grad"@[0]);
    }
    assert("sqrt"@ != "norm"@) by {
        assert("sqrt"@[0] != "norm"@[0]);
    }
    assert("sqrt"@ != "clip"@) by {
        assert("sqrt"@[0] != "clip"@[0]);
    }
    assert("ones"@ != "grad"@) by {
        assert("ones"@[0] != "grad"@[0]);
    }
    assert("ones"@ != "norm"@) by {
        assert("ones"@[0] != "norm"@[0]);
    }
    assert("ones"@ != "clip"@) by {
        assert("ones"@[0] != "clip"@[0]);
    }
    assert("grad"@ != "norm"@) by {
        assert("grad"@[0] != "norm"@[0]);
    }
    assert("grad"@ != "clip"@) by {
        assert("grad"@[0] != "clip"@[0]);
    }
    assert("norm"@ != "clip"@) by {
        assert("norm"@[0] != "clip"@[0]);
    }
    assert("reshape"@ != "iterate"@) by {
        assert("reshape"@[0] != "iterate"@[0]);
    }
    assert("reshape"@ != "flatten"@) by {
        assert("reshape"@[0] != "flatten"@[0]);
    }
    assert("reshape"@ != "softmax"@) by {
        assert("reshape"@[0] != "softmax"@[0]);
    }
    assert("iterate"@ != "flatten"@) by {
        assert("iterate"@[0] != "flatten"@[0]);
    }
    assert("iterate"@ != "softmax"@) by {
        assert("iterate"@[0] != "softmax"@[0]);
    }
    assert("flatten"@ != "softmax"@) by {
        assert("flatten"@[0] != "softmax"@[0]);
    }
}

/// What the built-in functions are called.
pub proof fn law_names_of_built_in_functions(name: Seq<char>)
    ensures
        ({
            let g = with_builtins(Map::empty());
            &&& g["sum"@] == ValueView::Builtin(BuiltinFn::Sum)
            &&& g["mean"@] == ValueView::Builtin(BuiltinFn::Mean)
            &&& g["exp"@] == ValueView::Builtin(BuiltinFn::Exp)
            &&& g["log"@] == ValueView::Builtin(BuiltinFn::Log)
            &&& g["tanh"@] == ValueView::Builtin(BuiltinFn::Tanh)
            &&& g["sqrt"@] == ValueView::Builtin(BuiltinFn::Sqrt)
            &&& g["zeros"@] == ValueView::Builtin(BuiltinFn::Zeros)
            &&& g["ones"@] == ValueView::Builtin(BuiltinFn::Ones)
            &&& g["transpose"@] == ValueView::Builtin(BuiltinFn::Transpose)
            &&& g["reshape"@] == ValueView::Builtin(BuiltinFn::Reshape)
            &&& g["grad"@] == ValueView::Builtin(BuiltinFn::Grad)
            &&& g["iterate"@] == ValueView::Builtin(BuiltinFn::Iterate)
            &&& g["abs"@] == ValueView::Builtin(BuiltinFn::Abs)
            &&& g["max"@] == ValueView::Builtin(BuiltinFn::MaxVal)
            &&& g["min"@] == ValueView::Builtin(BuiltinFn::MinVal)
            &&& g["concat"@] == ValueView::Builtin(BuiltinFn::Concat)
            &&& g["flatten"@] == ValueView::Builtin(BuiltinFn::Flatten)
            &&& g["norm"@] == ValueView::Builtin(BuiltinFn::Norm)
            &&& g["clip"@] == ValueView::Builtin(BuiltinFn::Clip)
            &&& g["softmax"@] == ValueView::Builtin(BuiltinFn::Softmax)
            &&& g.contains_key(name) ==> {
                ||| name == "sum"@ || name == "mean"@ || name == "exp"@ || name == "log"@
                ||| name == "tanh"@ || name == "sqrt"@ || name == "zeros"@ || name == "ones"@
                ||| name == "transpose"@ || name == "reshape"@ || name == "grad"@
                ||| name == "iterate"@ || name == "abs"@ || name == "max"@ || name == "min"@
                ||| name == "concat"@ || name == "flatten"@ || name == "norm"@ || name == "clip"@
                ||| name == "softmax"@
            }
        }),
{
    lemma_names_apart();
}

proof fn lemma_functions_of_prefix(
    items: Seq<TopLevelView>,
    item: TopLevelView,
    n: nat,
    globals: GlobalsView,
)
    requires
        n <= items.len(),
    ensures
        functions_defined(items.push(item), n, globals) == functions_defined(items, n, globals),
    decreases n,
{
    if n > 0 {
        lemma_functions_of_prefix(items, item, (n - 1) as nat, globals);
        assert(items.push(item)[n - 1] == items[n - 1]);
    }
}

proof fn lemma_values_of_prefix(
    m: Arith,
    items: Seq<TopLevelView>,
    item: TopLevelView,
    n: nat,
    globals: GlobalsView,
    depth: nat,
)
    requires
        n <= items.len(),
    ensures
        values_defined(m, items.push(item), n, globals, depth) == values_defined(
            m,
            items,
            n,
            globals,
            depth,
        ),
    decreases n,
{
    if n > 0 {
        lemma_values_of_prefix(m, items, item, (n - 1) as nat, globals, depth);
        assert(items.push(item)[n - 1] == items[n - 1]);
    }
}

/// A value that is defined last is what its body evaluates to behind everything
/// that is defined before it, whatever its name meant there; if that fails, so
/// does the program.
pub proof fn law_last_value_is_evaluated_last(
    m: Arith,
    items: Seq<TopLevelView>,
    name: Seq<char>,
    body: ExprView,
    depth: nat,
)
    ensures
        ({
            let longer = items.push(
                TopLevelView::Binding { name, params: Seq::empty(), body },
            );
            let all = program_globals(m, longer, depth);
            match program_globals(m, items, depth) {
                Err(e) => all == Err::<GlobalsView, EvalErrorView>(e),
                Ok(globals) => {
                    let env = EnvView { locals: LocalsView::Empty, globals };
                    match eval_model(m, body, env, depth, Seq::empty()).0 {
                        Err(e) => all == Err::<GlobalsView, EvalErrorView>(e),
                        Ok(v) => all == Ok::<GlobalsView, EvalErrorView>(globals.insert(name, v)),
                    }
                },
            }
        }),
{
    let item = TopLevelView::Binding { name, params: Seq::empty(), body };
    let longer = items.push(item);
    let base = with_builtins(Map::empty());
    lemma_functions_of_prefix(items, item, items.len(), base);
    assert(longer[items.len() as int] == item);
    let functions = functions_defined(items, items.len(), base);
    assert(functions_defined(longer, longer.len(), base) == functions);
    lemma_values_of_prefix(m, items, item, items.len(), functions, depth);
}

/// A program of values alone starts from the built-in functions, and the value
/// of a program is that of `main`, which it has to have.
pub proof fn law_value_of_a_program(m: Arith, items: Seq<TopLevelView>, depth: nat)
    ensures
        program_globals(m, Seq::empty(), depth) == Ok::<GlobalsView, EvalErrorView>(
            with_builtins(Map::empty()),
        ),
        match program_globals(m, items, depth) {
            Err(e) => program_value(m, items, depth) == Err::<ValueView, EvalErrorView>(e),
            Ok(globals) => program_value(m, items, depth) == if globals.contains_key("main"@) {
                Ok::<ValueView, EvalErrorView>(globals["main"@])
            } else {
                Err(EvalErrorView::NoMain)
            },
        },
{
}

// ---------------------------------------------------------------------------
// What is refused under differentiation
// ---------------------------------------------------------------------------

/// What is no number and no tensor cannot stand beside a node, and a node that
/// is not on the innermost tape has no operators.
pub proof fn law_what_cannot_be_recorded(
    m: Arith,
    op: BinOpKind,
    a: usize,
    v: ValueView,
    tapes: TapesView,
)
    ensures
        ({
            let on = tapes.len() > 0 && a < tapes.last().len();
            let known = v is Int || v is Float || v is Tensor || v is Traced;
            let off = EvalErrorView::InvalidArgument("微分の対象でない追跡値です"@);
            let kind = EvalErrorView::TypeMismatch {
                expected: "数値またはテンソル"@,
                got: v.kind_name(),
            };
            &&& on && !known ==> fails(
                binop_model(m, op, ValueView::Traced(a), v, tapes),
                kind,
                tapes,
            )
            &&& !known ==> fails(binop_model(m, op, v, ValueView::Traced(a), tapes), kind, tapes)
            &&& !on ==> fails(binop_model(m, op, ValueView::Traced(a), v, tapes), off, tapes)
            &&& !on ==> fails(negated(m, ValueView::Traced(a), tapes), off, tapes)
        }),
{
}

/// `grad` takes only numbers and tensors to differentiate at, needs room for one
/// more call, and refuses a function that gives neither a number nor a tensor.
pub proof fn law_what_grad_refuses(
    m: Arith,
    f: ValueView,
    x: ValueView,
    globals: GlobalsView,
    depth: nat,
    tapes: TapesView,
)
    ensures
        !(x is Int || x is Float || x is Tensor) ==> fails(
            grad_model(m, f, x, globals, depth, tapes),
            EvalErrorView::TypeMismatch { expected: "数値またはテンソル"@, got: x.kind_name() },
            tapes,
        ),
        x is Int || x is Float || x is Tensor ==> fails(
            grad_model(m, f, x, globals, 0, tapes),
            EvalErrorView::CallDepth,
            tapes,
        ),
        x matches ValueView::Tensor(t) ==> {
            let start = tapes.push(seq![NodeView { value: t, op: Op::Leaf }]);
            let y = apply_model(m, f, ValueView::Traced(0), globals, depth, start).0;
            y matches Ok(v) ==> !(v is Int || v is Float || v is Tensor || v is Traced)
                ==> grad_model(m, f, x, globals, depth + 1, tapes).0 == Err::<
                ValueView,
                EvalErrorView,
            >(EvalErrorView::TypeMismatch {
                expected: "数値またはテンソル"@,
                got: v.kind_name(),
            })
        },
{
    if let ValueView::Tensor(t) = x {
        let leaf = NodeView { value: t, op: Op::Leaf };
        let pushed = tapes.push(Seq::<NodeView>::empty());
        assert(pushed.drop_last() =~= tapes);
        assert(pushed.last().push(leaf) =~= seq![leaf]);
        assert(recorded(pushed, leaf) =~= tapes.push(seq![leaf]));
    }
}

/// What `iterate`, `clip`, `reshape` and `concat` are answered where an argument
/// is of the wrong kind. Iterating needs room for one more call.
pub proof fn law_several_arguments_of_the_wrong_kind(
    m: Arith,
    a: ValueView,
    b: ValueView,
    c: ValueView,
    globals: GlobalsView,
    depth: nat,
    tapes: TapesView,
)
    ensures
        ({
            let iterate = ValueView::PartialBuiltin(BuiltinFn::Iterate, seq![a, b]);
            let clip = ValueView::PartialBuiltin(BuiltinFn::Clip, seq![a, b]);
            let reshape = ValueView::PartialBuiltin(BuiltinFn::Reshape, seq![a]);
            let concat = ValueView::PartialBuiltin(BuiltinFn::Concat, seq![a]);
            let number = "Float または Int"@;
            &&& !(b is Int) ==> fails(
                apply_model(m, iterate, c, globals, depth, tapes),
                EvalErrorView::TypeMismatch { expected: "Int"@, got: b.kind_name() },
                tapes,
            )
            &&& b is Int ==> fails(
                apply_model(m, iterate, c, globals, 0, tapes),
                EvalErrorView::CallDepth,
                tapes,
            )
            &&& !(a is Int || a is Float) ==> fails(
                apply_model(m, clip, c, globals, depth, tapes),
                EvalErrorView::TypeMismatch { expected: number, got: a.kind_name() },
                tapes,
            )
            &&& (a is Int || a is Float) && !(b is Int || b is Float) ==> fails(
                apply_model(m, clip, c, globals, depth, tapes),
                EvalErrorView::TypeMismatch { expected: number, got: b.kind_name() },
                tapes,
            )
            &&& (a is Int || a is Float) && (b is Int || b is Float) && !(c is Int || c is Float
                || c is Tensor) ==> fails(
                apply_model(m, clip, c, globals, depth, tapes),
                EvalErrorView::TypeMismatch {
                    expected: "数値またはテンソル"@,
                    got: c.kind_name(),
                },
                tapes,
            )
            &&& !(a is Tensor) ==> fails(
                apply_model(m, reshape, b, globals, depth, tapes),
                EvalErrorView::TypeMismatch { expected: "Tensor"@, got: a.kind_name() },
                tapes,
            )
            &&& a is Tensor && !(b is Int || b is Tensor) ==> fails(
                apply_model(m, reshape, b, globals, depth, tapes),
                EvalErrorView::InvalidArgument(
                    "shape は Int またはテンソルである必要があります、got: "@ + str_debug(
                        b.kind_name(),
                    ),
                ),
                tapes,
            )
            &&& !(a is Tensor) ==> fails(
                apply_model(m, concat, b, globals, depth, tapes),
                EvalErrorView::TypeMismatch { expected: "Tensor"@, got: a.kind_name() },
                tapes,
            )
            &&& a matches ValueView::Tensor(t) ==> t.shape.len() == 1 && !(b is Tensor) ==> fails(
                apply_model(m, concat, b, globals, depth, tapes),
                EvalErrorView::TypeMismatch { expected: "Tensor"@, got: b.kind_name() },
                tapes,
            )
        }),
{
    assert(seq![a, b].push(c) =~= seq![a, b, c]);
    assert(seq![a].push(b) =~= seq![a, b]);
}

/// A function that is defined last is the function of its parameters that its
/// body is, in place of an earlier one of its name; a value is no function.
pub proof fn law_last_function_is_defined(
    items: Seq<TopLevelView>,
    name: Seq<char>,
    params: Seq<Seq<char>>,
    body: ExprView,
    globals: GlobalsView,
)
    ensures
        ({
            let longer = items.push(TopLevelView::Binding { name, params, body });
            let before = functions_defined(items, items.len(), globals);
            let after = functions_defined(longer, longer.len(), globals);
            &&& params.len() == 0 ==> after == before
            &&& params.len() == 1 ==> after == before.insert(
                name,
                ValueView::Closure { param: params[0], body, env: LocalsView::Empty },
            )
            &&& params.len() == 2 ==> after == before.insert(
                name,
                ValueView::Closure {
                    param: params[0],
                    body: ExprView::Lambda { param: params[1], body: Box::new(body) },
                    env: LocalsView::Empty,
                },
            )
        }),
{
    let item = TopLevelView::Binding { name, params, body };
    let longer = items.push(item);
    lemma_functions_of_prefix(items, item, items.len(), globals);
    assert(longer[items.len() as int] == item);
    if params.len() == 1 {
        assert(params.subrange(1, 1) =~= Seq::<Seq<char>>::empty());
    }
    if params.len() == 2 {
        let rest = params.subrange(1, 2);
        assert(rest[0] == params[1]);
        assert(rest.subrange(1, 1) =~= Seq::<Seq<char>>::empty());
        reveal_with_fuel(curried, 3);
    }
}

proof fn lemma_row_fails(
    m: Arith,
    row: Seq<ExprView>,
    j: nat,
    n: nat,
    e: EvalErrorView,
    env: EnvView,
    depth: nat,
    tapes: TapesView,
)
    requires
        j < n <= row.len(),
        forall|k: int| 0 <= k < j ==> is_element(m, #[trigger] row[k], env, depth, tapes),
        element_fails(m, row[j as int], e, env, depth, tapes),
    ensures
        eval_row(m, row, n, env, depth, tapes) == (Err::<Seq<u64>, EvalErrorView>(e), tapes),
    decreases n,
{
    if n == j + 1 {
        lemma_row_succeeds(m, row, j, env, depth, tapes);
    } else {
        lemma_row_fails(m, row, j, (n - 1) as nat, e, env, depth, tapes);
    }
}

proof fn lemma_row_succeeds(
    m: Arith,
    row: Seq<ExprView>,
    n: nat,
    env: EnvView,
    depth: nat,
    tapes: TapesView,
)
    requires
        n <= row.len(),
        forall|k: int| 0 <= k < n ==> is_element(m, #[trigger] row[k], env, depth, tapes),
    ensures
        eval_row(m, row, n, env, depth, tapes).0 is Ok,
        eval_row(m, row, n, env, depth, tapes).1 == tapes,
    decreases n,
{
    if n > 0 {
        lemma_row_succeeds(m, row, (n - 1) as nat, env, depth, tapes);
        assert(is_element(m, row[n - 1], env, depth, tapes));
    }
}

proof fn lemma_rows_fail(
    m: Arith,
    rows: Seq<Seq<ExprView>>,
    i: nat,
    j: nat,
    n: nat,
    e: EvalErrorView,
    env: EnvView,
    depth: nat,
    tapes: TapesView,
)
    requires
        n <= rows.len(),
        i < rows.len(),
        j < rows[i as int].len(),
        forall|a: int, b: int|
            0 <= a < rows.len() && 0 <= b < rows[a].len() && (a < i || (a == i && b < j))
                ==> is_element(m, #[trigger] rows[a][b], env, depth, tapes),
        element_fails(m, rows[i as int][j as int], e, env, depth, tapes),
    ensures
        n <= i ==> eval_rows(m, rows, n, env, depth, tapes).0 is Ok && eval_rows(
            m,
            rows,
            n,
            env,
            depth,
            tapes,
        ).1 == tapes,
        n > i ==> eval_rows(m, rows, n, env, depth, tapes) == (
            Err::<Seq<u64>, EvalErrorView>(e),
            tapes,
        ),
    decreases n,
{
    if n > 0 {
        lemma_rows_fail(m, rows, i, j, (n - 1) as nat, e, env, depth, tapes);
        let row = rows[n - 1];
        if n - 1 < i {
            assert forall|k: int| 0 <= k < row.len() implies is_element(
                m,
                #[trigger] row[k],
                env,
                depth,
                tapes,
            ) by {
                assert(is_element(m, rows[n - 1][k], env, depth, tapes));
            }
            lemma_row_succeeds(m, row, row.len(), env, depth, tapes);
        } else if n - 1 == i {
            assert forall|k: int| 0 <= k < j implies is_element(
                m,
                #[trigger] row[k],
                env,
                depth,
                tapes,
            ) by {
                assert(is_element(m, rows[i as int][k], env, depth, tapes));
            }
            lemma_row_fails(m, row, j, row.len(), e, env, depth, tapes);
        }
    }
}

/// Whether an expression evaluates to a number and leaves the tapes.
pub open spec fn is_element(
    m: Arith,
    e: ExprView,
    env: EnvView,
    depth: nat,
    tapes: TapesView,
) -> bool {
    let (v, after) = eval_model(m, e, env, depth, tapes);
    v is Ok && (v->Ok_0 is Int || v->Ok_0 is Float) && after == tapes
}

/// Whether an expression fails as an element of a literal and leaves the tapes: by
/// itself, or for being no number.
pub open spec fn element_fails(
    m: Arith,
    e: ExprView,
    error: EvalErrorView,
    env: EnvView,
    depth: nat,
    tapes: TapesView,
) -> bool {
    let (v, after) = eval_model(m, e, env, depth, tapes);
    after == tapes && match v {
        Err(own) => error == own,
        Ok(v) => !(v is Int || v is Float) && error == (EvalErrorView::TypeMismatch {
            expected: "Float または Int"@,
            got: v.kind_name(),
        }),
    }
}

/// A tensor literal fails for the first of its elements that fails, row by row,
/// before its rows are compared in length.
pub proof fn law_first_element_that_fails(
    m: Arith,
    rows: Seq<Seq<ExprView>>,
    i: nat,
    j: nat,
    e: EvalErrorView,
    env: EnvView,
    depth: nat,
    tapes: TapesView,
)
    requires
        i < rows.len(),
        j < rows[i as int].len(),
        forall|a: int, b: int|
            0 <= a < rows.len() && 0 <= b < rows[a].len() && (a < i || (a == i && b < j))
                ==> is_element(m, #[trigger] rows[a][b], env, depth, tapes),
        element_fails(m, rows[i as int][j as int], e, env, depth, tapes),
    ensures
        fails(eval_model(m, ExprView::TensorLit(rows), env, depth, tapes), e, tapes),
{
    lemma_rows_fail(m, rows, i, j, rows.len(), e, env, depth, tapes);
}

/// Which operators go element by element, what the arithmetic calls them and how
/// they are written.
pub proof fn law_operators_by_element(k: BinaryOp, symbol: Seq<char>)
    ensures
        goes_by_element(BinOpKind::Add, k, symbol) <==> k == BinaryOp::Add && symbol == "+"@,
        goes_by_element(BinOpKind::Sub, k, symbol) <==> k == BinaryOp::Sub && symbol == "-"@,
        goes_by_element(BinOpKind::Mul, k, symbol) <==> k == BinaryOp::Mul && symbol == "*"@,
        goes_by_element(BinOpKind::Div, k, symbol) <==> k == BinaryOp::Div && symbol == "/"@,
        goes_by_element(BinOpKind::Pow, k, symbol) <==> k == BinaryOp::Pow && symbol == "^"@,
        !goes_by_element(BinOpKind::MatMul, k, symbol),
        !goes_by_element(BinOpKind::Eq, k, symbol),
        !goes_by_element(BinOpKind::Lt, k, symbol),
{
}

// ---------------------------------------------------------------------------
// What results stand for
// ---------------------------------------------------------------------------

/// A result agrees with a meaning only where it gives that value and leaves those
/// tapes, or fails with that error and leaves those tapes.
pub proof fn law_results_agree_exactly(
    r: Result<Value, EvalError>,
    tapes: TapesView,
    v: ValueView,
    e: EvalErrorView,
    after: TapesView,
)
    ensures
        outcome_is(r, tapes, (Ok(v), after)) <==> tapes == after && r is Ok && r->Ok_0@ == v,
        outcome_is(r, tapes, (Err(e), after)) <==> tapes == after && r is Err && r->Err_0@ == e,
        result_is(r, Ok(v)) <==> r is Ok && r->Ok_0@ == v,
        result_is(r, Err(e)) <==> r is Err && r->Err_0@ == e,
{
}

/// The difference of two integers is exact; beside a floating-point number an
/// integer is one too; and what is no number has none.
pub proof fn law_differences(m: Arith, a: i64, b: i64, x: u64, y: u64, v: ValueView)
    ensures
        difference(m, ValueView::Int(a), ValueView::Int(b)) == Ok::<
            DifferenceView,
            EvalErrorView,
        >(DifferenceView::Whole(a - b)),
        difference(m, ValueView::Float(x), ValueView::Float(y)) == Ok::<
            DifferenceView,
            EvalErrorView,
        >(DifferenceView::Floats(x, y)),
        difference(m, ValueView::Int(a), ValueView::Float(y)) == Ok::<
            DifferenceView,
            EvalErrorView,
        >(DifferenceView::Floats(from_int(m, a), y)),
        difference(m, ValueView::Float(x), ValueView::Int(b)) == Ok::<
            DifferenceView,
            EvalErrorView,
        >(DifferenceView::Floats(x, from_int(m, b))),
        !(v is Int || v is Float) ==> {
            let e = EvalErrorView::TypeMismatch { expected: "数値"@, got: v.kind_name() };
            &&& difference(m, ValueView::Int(a), v) == Err::<DifferenceView, EvalErrorView>(e)
            &&& difference(m, v, ValueView::Float(y)) == Err::<DifferenceView, EvalErrorView>(e)
        },
{
}

/// A function of several parameters is a function of the first that gives the
/// function of the others; of no parameters, it is its body.
pub proof fn law_functions_of_several_parameters(
    param: Seq<char>,
    rest: Seq<Seq<char>>,
    body: ExprView,
)
    ensures
        curried(Seq::empty(), body) == body,
        curried(seq![param] + rest, body) == (ExprView::Lambda {
            param,
            body: Box::new(curried(rest, body)),
        }),
{
    let params = seq![param] + rest;
    assert(params.subrange(1, params.len() as int) =~= rest);
}

/// How many arguments the built-in functions take.
pub proof fn law_numbers_of_arguments(b: BuiltinFn)
    ensures
        arity(b) == 3 <==> b == BuiltinFn::Iterate || b == BuiltinFn::Clip,
        arity(b) == 2 <==> b == BuiltinFn::Reshape || b == BuiltinFn::Grad || b
            == BuiltinFn::Concat,
        1 <= arity(b) <= 3,
{
}

/// How operators are written in messages, and what the arithmetic calls them.
pub proof fn law_operators_in_messages(op: BinOpKind, k: BinaryOp)
    ensures
        crate::autodiff::elementwise(op) == Some(k) <==> goes_by_element(
            op,
            k,
            crate::autodiff::op_symbol(op),
        ),
        crate::autodiff::op_symbol(BinOpKind::MatMul) == "@"@,
        crate::autodiff::op_symbol(BinOpKind::Eq) == "=="@,
        crate::autodiff::op_symbol(BinOpKind::Ne) == "!="@,
        crate::autodiff::op_symbol(BinOpKind::Lt) == "<"@,
        crate::autodiff::op_symbol(BinOpKind::Le) == "<="@,
        crate::autodiff::op_symbol(BinOpKind::Gt) == ">"@,
        crate::autodiff::op_symbol(BinOpKind::Ge) == ">="@,
{
}

} // verus!
