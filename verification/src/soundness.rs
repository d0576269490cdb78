//! Shape checking beside evaluation: what is said of a shape holds of the
//! value, and an error is an error.

use crate::ast::{BinOpKind, ExprView, TopLevelView};
use crate::autodiff::{elementwise, pair_shape, recorded, NodeView, Op, TapesView};
use crate::eval_laws::{
    grown, law_derivative_has_shape_of_input, law_differentiation_leaves_no_trace,
    law_evaluation_only_adds_nodes,
};
use crate::interpreter::{
    apply_model, arity, binop_model, builtin_many, builtin_one, eval_model, eval_row, eval_rows,
    function_value, functions_defined, grad_input, grad_model, is_uniform, iterate_model,
    lemma_row_len, lifted, negated, on_tape, plain_binop, program_value, shape_argument,
    traced_binop, traced_value, values_defined, with_builtins,
};
use crate::num::{from_int, to_size, Arith};
use crate::shape_stage::{
    annotation_error, annotation_of, binop_shape, builtin_shape, dim_conflict, dims_clash,
    elementwise_from, find_local_shape, function_shape, functions_checked, functions_shaped,
    literal_application, literal_shape, literal_size, program_shape, shape_apply, shape_model,
    shape_row, shape_rows, type_shape, values_shaped, with_shape_builtins, DimConflict, DimView,
    ShapeEnvView, ShapeErrorView, ShapeGlobalsView, ShapeLocalsView, ShapeView, MAX_APPLY_DEPTH,
    MAX_APPLY_FUEL, MAX_EXACT,
};
use crate::tensor::{lemma_product_one, lemma_product_two, lemma_rank_one, lemma_rank_two};
use crate::value::{
    find_local, BuiltinFn, EnvView, EvalErrorView, GlobalsView, LocalsView, ValueView,
};
use vstd::prelude::*;

verus! {

// ---------------------------------------------------------------------------
// What shapes say of values
// ---------------------------------------------------------------------------

/// Whether sizes survive as floating-point numbers, as far as every integer
/// is one.
pub open spec fn keeps_sizes(m: Arith) -> bool {
    forall|n: i64|
        0 <= n <= MAX_EXACT && n <= usize::MAX ==> #[trigger] to_size(m, from_int(m, n)) == n
}

/// How closely shapes are held against values.
pub enum Rigor {
    /// What is said of a shape has to hold where anything is said.
    Loose,
    /// Besides, nothing that evaluates may be refused. A dimension variable
    /// says nothing of a size.
    Strict,
    /// Besides, a dimension variable stands for a size.
    Named(Map<Seq<char>, usize>),
}

impl Rigor {
    pub open spec fn strict(self) -> bool {
        !(self is Loose)
    }

    /// Variables of different names stand for different sizes.
    pub open spec fn ok(self) -> bool {
        self matches Rigor::Named(sizes) ==> forall|x: Seq<char>, y: Seq<char>|
            x != y && #[trigger] sizes.contains_key(x) && #[trigger] sizes.contains_key(y)
                ==> sizes[x] != sizes[y]
    }

    /// Whether a dimension can be a size.
    pub open spec fn allows(self, d: DimView, n: usize) -> bool {
        match d {
            DimView::Concrete(k) => n == k,
            DimView::Var(x) => self matches Rigor::Named(sizes) ==> sizes.contains_key(x)
                && sizes[x] == n,
            DimView::Unknown => true,
        }
    }
}

/// Whether dimensions are those of a shape, as far as they are known.
pub open spec fn dims_match(dims: Seq<DimView>, shape: Seq<usize>, rigor: Rigor) -> bool {
    &&& dims.len() == shape.len()
    &&& forall|i: int| 0 <= i < dims.len() ==> rigor.allows(#[trigger] dims[i], shape[i])
}

/// Whether two variables of different names meet where an operator needs one
/// size.
pub open spec fn names_meet(op: BinOpKind, l: ShapeView, r: ShapeView) -> bool {
    binop_shape(op, l, r) matches Err(e) && e is VarConflict
}

/// Whether an annotation names a dimension otherwise than the body does.
pub open spec fn names_differ(declared: ShapeView, inferred: ShapeView) -> bool {
    match (declared, inferred) {
        (ShapeView::Tensor(d), ShapeView::Tensor(i)) => exists|k: int|
            0 <= k < d.len() && k < i.len() && #[trigger] dim_conflict(d[k], i[k]) is VarMismatch,
        _ => false,
    }
}

/// Whether what is said of a shape holds of a value. A value that is being
/// differentiated stands for a node of the innermost tape; of it something is
/// said only under a strict rigor.
pub open spec fn describes(s: ShapeView, v: ValueView, tapes: TapesView, rigor: Rigor) -> bool
    decreases s,
{
    match s {
        ShapeView::Unknown => true,
        ShapeView::Scalar => match v {
            ValueView::Int(_) => true,
            ValueView::Float(_) => true,
            ValueView::Bool(_) => true,
            ValueView::Traced(id) => rigor.strict() ==> on_tape(tapes, id) && traced_value(
                tapes,
                id,
            ).rank() == 0,
            _ => false,
        },
        ShapeView::Tensor(dims) => match v {
            ValueView::Tensor(t) => t.ok() && t.data.len() <= usize::MAX && t.rank() > 0
                && dims_match(dims, t.shape, rigor),
            ValueView::Traced(id) => rigor.strict() ==> on_tape(tapes, id) && traced_value(
                tapes,
                id,
            ).rank() > 0 && dims_match(dims, traced_value(tapes, id).shape, rigor),
            _ => false,
        },
        ShapeView::Closure { param, body, env } => match v {
            ValueView::Closure { param: p, body: b, env: l } => param == p && body == b
                && describes_locals(env, l, tapes, rigor),
            _ => false,
        },
        ShapeView::Builtin(b) => v == ValueView::Builtin(b),
        ShapeView::PartialBuiltin(b, args) => match v {
            ValueView::PartialBuiltin(c, vals) => b == c && args.len() == vals.len() && (forall|
                i: int,
            |
                0 <= i < args.len() ==> describes(#[trigger] args[i], vals[i], tapes, rigor)),
            _ => false,
        },
    }
}

/// The same for local bindings, name by name.
pub open spec fn describes_locals(
    s: ShapeLocalsView,
    l: LocalsView,
    tapes: TapesView,
    rigor: Rigor,
) -> bool
    decreases s,
{
    match s {
        ShapeLocalsView::Empty => l is Empty,
        ShapeLocalsView::Bound { name, value, parent } => match l {
            LocalsView::Bound { name: n, value: v, parent: p } => name == n && describes(
                *value,
                *v,
                tapes,
                rigor,
            ) && describes_locals(*parent, *p, tapes, rigor),
            _ => false,
        },
    }
}

/// The same for top-level bindings, which stand for no nodes.
pub open spec fn describes_globals(s: ShapeGlobalsView, g: GlobalsView, rigor: Rigor) -> bool {
    forall|name: Seq<char>| #[trigger]
        s.contains_key(name) ==> g.contains_key(name) && describes(
            s[name],
            g[name],
            Seq::empty(),
            rigor,
        )
}

/// The same for scopes.
pub open spec fn describes_env(
    s: ShapeEnvView,
    env: EnvView,
    tapes: TapesView,
    rigor: Rigor,
) -> bool {
    describes_locals(s.locals, env.locals, tapes, rigor) && describes_globals(
        s.globals,
        env.globals,
        rigor,
    )
}

// ---------------------------------------------------------------------------
// Runs that shapes can follow
// ---------------------------------------------------------------------------

/// Whether a machine word counts the nodes of the innermost tape.
pub open spec fn fits(tapes: TapesView) -> bool {
    tapes.len() > 0 ==> tapes.last().len() <= usize::MAX
}

/// Whether evaluation of an expression is one that shapes can follow. Each
/// `iterate` ends with a value of the shape that it starts from. Under a strict
/// rigor, what is checked but not run is not refused: the other branch of an
/// `if`, and the step of an `iterate` that makes none; and a function that is
/// differentiated inside another differentiation holds no value of the outer
/// one. Where variables do not stand for sizes, no two of different names meet.
/// Tensor literals and tapes are no larger than a machine word counts.
pub open spec fn followed(
    m: Arith,
    e: ExprView,
    env: EnvView,
    depth: nat,
    tapes: TapesView,
    senv: ShapeEnvView,
    room: nat,
    fuel: nat,
    rigor: Rigor,
) -> bool
    decreases depth, 3int, e, 0nat,
{
    &&& rigor.strict() ==> fits(eval_model(m, e, env, depth, tapes).1)
    &&& match e {
        ExprView::Lit(_) => true,
        ExprView::Var(_) => true,
        ExprView::Lambda { .. } => true,
        ExprView::UnaryMinus(x) => followed(m, *x, env, depth, tapes, senv, room, fuel, rigor),
        ExprView::BinOp { op, left, right } => {
            let t1 = eval_model(m, *left, env, depth, tapes).1;
            let (sl, f1) = shape_model(*left, senv, room, fuel);
            &&& followed(m, *left, env, depth, tapes, senv, room, fuel, rigor)
            &&& followed(m, *right, env, depth, t1, senv, room, f1, rigor)
            &&& match (sl, shape_model(*right, senv, room, f1).0) {
                (Ok(sl), Ok(sr)) => rigor is Strict ==> !names_meet(op, sl, sr),
                _ => true,
            }
        },
        ExprView::App(func, arg) => {
            let (f, t1) = eval_model(m, *func, env, depth, tapes);
            let (sf, f1) = shape_model(*func, senv, room, fuel);
            let (a, t2) = eval_model(m, *arg, env, depth, t1);
            let (sa, f2) = shape_model(*arg, senv, room, f1);
            &&& followed(m, *func, env, depth, tapes, senv, room, fuel, rigor)
            &&& followed(m, *arg, env, depth, t1, senv, room, f1, rigor)
            &&& match (f, a, sf, sa) {
                (Ok(f), Ok(a), Ok(sf), Ok(sa)) => followed_apply(
                    m,
                    f,
                    a,
                    env.globals,
                    depth,
                    t2,
                    sf,
                    sa,
                    senv.globals,
                    room,
                    f2,
                    rigor,
                ),
                _ => true,
            }
        },
        ExprView::Pipe(arg, func) => {
            let (a, t1) = eval_model(m, *arg, env, depth, tapes);
            let (sa, f1) = shape_model(*arg, senv, room, fuel);
            let (f, t2) = eval_model(m, *func, env, depth, t1);
            let (sf, f2) = shape_model(*func, senv, room, f1);
            &&& followed(m, *arg, env, depth, tapes, senv, room, fuel, rigor)
            &&& followed(m, *func, env, depth, t1, senv, room, f1, rigor)
            &&& match (f, a, sf, sa) {
                (Ok(f), Ok(a), Ok(sf), Ok(sa)) => followed_apply(
                    m,
                    f,
                    a,
                    env.globals,
                    depth,
                    t2,
                    sf,
                    sa,
                    senv.globals,
                    room,
                    f2,
                    rigor,
                ),
                _ => true,
            }
        },
        ExprView::Let { name, params, value, body } => if params.len() == 0 {
            let (v, t1) = eval_model(m, *value, env, depth, tapes);
            let (s, f1) = shape_model(*value, senv, room, fuel);
            &&& followed(m, *value, env, depth, tapes, senv, room, fuel, rigor)
            &&& match (v, s) {
                (Ok(v), Ok(s)) => followed(
                    m,
                    *body,
                    env.bind(name, v),
                    depth,
                    t1,
                    senv.bind(name, s),
                    room,
                    f1,
                    rigor,
                ),
                _ => true,
            }
        } else {
            followed(
                m,
                *body,
                env.bind(name, function_value(params, *value, env.locals)),
                depth,
                tapes,
                senv.bind(name, function_shape(params, *value, senv.locals)),
                room,
                fuel,
                rigor,
            )
        },
        ExprView::If { cond, then, else_ } => {
            let (c, t1) = eval_model(m, *cond, env, depth, tapes);
            let f1 = shape_model(*cond, senv, room, fuel).1;
            let (st, f2) = shape_model(*then, senv, room, f1);
            &&& followed(m, *cond, env, depth, tapes, senv, room, fuel, rigor)
            &&& match c {
                Ok(ValueView::Bool(true)) => {
                    &&& followed(m, *then, env, depth, t1, senv, room, f1, rigor)
                    &&& rigor.strict() ==> shape_model(*else_, senv, room, f2).0 is Ok
                },
                Ok(ValueView::Bool(false)) => {
                    &&& followed(m, *else_, env, depth, t1, senv, room, f2, rigor)
                    &&& rigor.strict() ==> st is Ok
                },
                _ => true,
            }
        },
        ExprView::TensorLit(rows) => {
            &&& rows.len() > 0 ==> rows.len() <= usize::MAX && rows[0].len() <= usize::MAX
                && rows.len() * rows[0].len() <= usize::MAX
            &&& followed_rows(m, rows, rows.len(), env, depth, tapes, senv, room, fuel, rigor)
        },
    }
}

/// The same for the first `n` rows of a tensor literal.
pub open spec fn followed_rows(
    m: Arith,
    rows: Seq<Seq<ExprView>>,
    n: nat,
    env: EnvView,
    depth: nat,
    tapes: TapesView,
    senv: ShapeEnvView,
    room: nat,
    fuel: nat,
    rigor: Rigor,
) -> bool
    decreases depth, 3int, rows, n,
{
    if n == 0 || n > rows.len() {
        true
    } else {
        let t1 = eval_rows(m, rows, (n - 1) as nat, env, depth, tapes).1;
        let f1 = shape_rows(rows, (n - 1) as nat, senv, room, fuel).1;
        let row = rows[n - 1];
        &&& followed_rows(m, rows, (n - 1) as nat, env, depth, tapes, senv, room, fuel, rigor)
        &&& followed_row(m, row, row.len(), env, depth, t1, senv, room, f1, rigor)
    }
}

/// The same for the first `n` elements of a row.
pub open spec fn followed_row(
    m: Arith,
    row: Seq<ExprView>,
    n: nat,
    env: EnvView,
    depth: nat,
    tapes: TapesView,
    senv: ShapeEnvView,
    room: nat,
    fuel: nat,
    rigor: Rigor,
) -> bool
    decreases depth, 3int, row, n,
{
    if n == 0 || n > row.len() {
        true
    } else {
        let t1 = eval_row(m, row, (n - 1) as nat, env, depth, tapes).1;
        let f1 = shape_row(row, (n - 1) as nat, senv, room, fuel).1;
        &&& followed_row(m, row, (n - 1) as nat, env, depth, tapes, senv, room, fuel, rigor)
        &&& followed(m, row[n - 1], env, depth, t1, senv, room, f1, rigor)
    }
}

/// The same for a function on an argument.
pub open spec fn followed_apply(
    m: Arith,
    f: ValueView,
    a: ValueView,
    globals: GlobalsView,
    depth: nat,
    tapes: TapesView,
    sf: ShapeView,
    sa: ShapeView,
    sglobals: ShapeGlobalsView,
    room: nat,
    fuel: nat,
    rigor: Rigor,
) -> bool
    decreases depth, 2int, f, 0nat,
{
    &&& rigor.strict() ==> fits(apply_model(m, f, a, globals, depth, tapes).1)
    &&& match (f, sf) {
        (
            ValueView::Closure { param, body, env },
            ShapeView::Closure { param: _, body: _, env: senv },
        ) => depth > 0 && room > 0 && fuel > 0 ==> followed(
            m,
            body,
            (EnvView { locals: env, globals }).bind(param, a),
            (depth - 1) as nat,
            tapes,
            (ShapeEnvView { locals: senv, globals: sglobals }).bind(param, sa),
            (room - 1) as nat,
            (fuel - 1) as nat,
            rigor,
        ),
        (
            ValueView::PartialBuiltin(BuiltinFn::Grad, vals),
            ShapeView::PartialBuiltin(_, args),
        ) => match grad_input(m, a) {
            Ok(input) => rigor.strict() && vals.len() == 1 && depth > 0 ==> {
                let start = recorded(
                    tapes.push(Seq::empty()),
                    NodeView { value: input, op: Op::Leaf },
                );
                &&& describes(args[0], vals[0], Seq::empty(), rigor)
                &&& followed_apply(
                    m,
                    vals[0],
                    ValueView::Traced(0),
                    globals,
                    (depth - 1) as nat,
                    start,
                    args[0],
                    sa,
                    sglobals,
                    room,
                    fuel,
                    rigor,
                )
            },
            Err(_) => true,
        },
        (
            ValueView::PartialBuiltin(BuiltinFn::Iterate, vals),
            ShapeView::PartialBuiltin(_, args),
        ) => match vals[1] {
            ValueView::Int(n) => vals.len() == 2 && depth > 0 ==> {
                let steps: nat = if n > 0 {
                    n as nat
                } else {
                    0
                };
                let (v, end) = iterate_model(
                    m,
                    a,
                    vals[0],
                    steps,
                    globals,
                    (depth - 1) as nat,
                    tapes,
                );
                &&& v matches Ok(v) ==> describes(args[0], v, end, rigor)
                &&& rigor.strict() ==> if steps > 0 {
                    followed_apply(
                        m,
                        a,
                        vals[0],
                        globals,
                        (depth - 1) as nat,
                        tapes,
                        sa,
                        args[0],
                        sglobals,
                        room,
                        fuel,
                        rigor,
                    )
                } else {
                    shape_apply(sa, args[0], sglobals, room, fuel).0 is Ok
                }
            },
            _ => true,
        },
        _ => true,
    }
}

// ---------------------------------------------------------------------------
// Descriptions on other tapes
// ---------------------------------------------------------------------------

/// Whether what stands for a node on some tapes stands for one of the same
/// shape on others.
spec fn reads_same(before: TapesView, after: TapesView) -> bool {
    forall|id: usize| #[trigger]
        on_tape(before, id) ==> on_tape(after, id) && traced_value(after, id).shape
            == traced_value(before, id).shape
}

proof fn lemma_grown_reads_same(before: TapesView, after: TapesView)
    requires
        grown(before, after),
    ensures
        reads_same(before, after),
{
    assert forall|id: usize| #[trigger] on_tape(before, id) implies on_tape(after, id)
        && traced_value(after, id).shape == traced_value(before, id).shape by {
        assert(after.last()[id as int] == before.last()[id as int]);
    }
}

proof fn lemma_describes_moved(
    s: ShapeView,
    v: ValueView,
    before: TapesView,
    after: TapesView,
    rigor: Rigor,
)
    requires
        describes(s, v, before, rigor),
        reads_same(before, after),
    ensures
        describes(s, v, after, rigor),
    decreases s,
{
    match s {
        ShapeView::Closure { param, body, env } => {
            lemma_locals_moved(env, v->Closure_env, before, after, rigor);
        },
        ShapeView::PartialBuiltin(b, args) => {
            let vals = v->PartialBuiltin_1;
            assert forall|i: int| 0 <= i < args.len() implies describes(
                #[trigger] args[i],
                vals[i],
                after,
                rigor,
            ) by {
                lemma_describes_moved(args[i], vals[i], before, after, rigor);
            }
        },
        _ => {
            if let ValueView::Traced(id) = v {
                if rigor.strict() {
                    assert(s is Unknown || on_tape(before, id));
                }
            }
        },
    }
}

proof fn lemma_locals_moved(
    s: ShapeLocalsView,
    l: LocalsView,
    before: TapesView,
    after: TapesView,
    rigor: Rigor,
)
    requires
        describes_locals(s, l, before, rigor),
        reads_same(before, after),
    ensures
        describes_locals(s, l, after, rigor),
    decreases s,
{
    if let (
        ShapeLocalsView::Bound { name, value, parent },
        LocalsView::Bound { name: _, value: v, parent: p },
    ) = (s, l) {
        lemma_describes_moved(*value, *v, before, after, rigor);
        lemma_locals_moved(*parent, *p, before, after, rigor);
    }
}

proof fn lemma_env_moved(
    s: ShapeEnvView,
    env: EnvView,
    before: TapesView,
    after: TapesView,
    rigor: Rigor,
)
    requires
        describes_env(s, env, before, rigor),
        grown(before, after),
    ensures
        describes_env(s, env, after, rigor),
{
    lemma_grown_reads_same(before, after);
    lemma_locals_moved(s.locals, env.locals, before, after, rigor);
}

proof fn lemma_find_local(
    s: ShapeLocalsView,
    l: LocalsView,
    name: Seq<char>,
    tapes: TapesView,
    rigor: Rigor,
)
    requires
        describes_locals(s, l, tapes, rigor),
    ensures
        match (find_local_shape(s, name), find_local(l, name)) {
            (Some(x), Some(v)) => describes(x, v, tapes, rigor),
            (None, None) => true,
            _ => false,
        },
    decreases s,
{
    if let (
        ShapeLocalsView::Bound { name: n, value, parent },
        LocalsView::Bound { name: _, value: v, parent: p },
    ) = (s, l) {
        if n != name {
            lemma_find_local(*parent, *p, name, tapes, rigor);
        }
    }
}

// ---------------------------------------------------------------------------
// Operators
// ---------------------------------------------------------------------------

/// Whether a checked result goes with an evaluated one: it is no error, under a
/// strict rigor, and what it says holds.
pub open spec fn agrees_with(
    s: Result<ShapeView, ShapeErrorView>,
    v: ValueView,
    tapes: TapesView,
    rigor: Rigor,
) -> bool {
    &&& rigor.strict() ==> s is Ok
    &&& s matches Ok(s) ==> describes(s, v, tapes, rigor)
}

/// Dimensions that match one size conflict only where two variables do not
/// stand for sizes.
proof fn lemma_same_size(
    a: Seq<DimView>,
    b: Seq<DimView>,
    i: int,
    shape: Seq<usize>,
    rigor: Rigor,
)
    requires
        rigor.ok(),
        dims_match(a, shape, rigor),
        dims_match(b, shape, rigor),
        0 <= i < shape.len(),
    ensures
        dim_conflict(a[i], b[i]) != DimConflict::ConcreteMismatch,
        rigor is Named ==> dim_conflict(a[i], b[i]) == DimConflict::Agree,
{
    if let Rigor::Named(sizes) = rigor {
        if let (DimView::Var(x), DimView::Var(y)) = (a[i], b[i]) {
            assert(sizes[x] == sizes[y]);
        }
    }
}

proof fn lemma_elementwise_from(
    op: Seq<char>,
    a: Seq<DimView>,
    b: Seq<DimView>,
    i: int,
    shape: Seq<usize>,
    rigor: Rigor,
)
    requires
        rigor.strict(),
        rigor.ok(),
        dims_match(a, shape, rigor),
        dims_match(b, shape, rigor),
        0 <= i <= a.len(),
        rigor is Strict ==> !(elementwise_from(op, a, b, i) matches Err(e) && e is VarConflict),
    ensures
        elementwise_from(op, a, b, i) == Ok::<ShapeView, ShapeErrorView>(ShapeView::Tensor(a)),
    decreases a.len() - i,
{
    if i < a.len() {
        lemma_same_size(a, b, i, shape, rigor);
        lemma_elementwise_from(op, a, b, i + 1, shape, rigor);
    }
}

/// The same for the inner dimensions of a matrix product.
proof fn lemma_inner_sizes(
    a: Seq<DimView>,
    b: Seq<DimView>,
    x: Seq<usize>,
    y: Seq<usize>,
    rigor: Rigor,
)
    requires
        rigor.ok(),
        dims_match(a, x, rigor),
        dims_match(b, y, rigor),
        x.len() == 2,
        y.len() > 0,
        x[1] == y[0],
    ensures
        dim_conflict(a[1], b[0]) != DimConflict::ConcreteMismatch,
        rigor is Named ==> dim_conflict(a[1], b[0]) == DimConflict::Agree,
{
    if let Rigor::Named(sizes) = rigor {
        if let (DimView::Var(n), DimView::Var(k)) = (a[1], b[0]) {
            assert(sizes[n] == sizes[k]);
        }
    }
}

proof fn lemma_elementwise_result(op: Seq<char>, a: Seq<DimView>, b: Seq<DimView>, i: int)
    ensures
        elementwise_from(op, a, b, i) matches Ok(s) ==> s == ShapeView::Tensor(a),
    decreases a.len() - i,
{
    if 0 <= i < a.len() {
        lemma_elementwise_result(op, a, b, i + 1);
    }
}

proof fn lemma_plain_binop(
    m: Arith,
    op: BinOpKind,
    l: ValueView,
    r: ValueView,
    tapes: TapesView,
    sl: ShapeView,
    sr: ShapeView,
    rigor: Rigor,
)
    requires
        describes(sl, l, tapes, rigor),
        describes(sr, r, tapes, rigor),
        rigor.ok(),
        rigor is Strict ==> !names_meet(op, sl, sr),
        !(l is Traced),
        !(r is Traced),
        plain_binop(m, op, l, r) is Ok,
    ensures
        agrees_with(binop_shape(op, sl, sr), plain_binop(m, op, l, r)->Ok_0, tapes, rigor),
{
    if let (ShapeView::Tensor(a), ShapeView::Tensor(b)) = (sl, sr) {
        let x = l->Tensor_0;
        let y = r->Tensor_0;
        if elementwise(op) is Some {
            lemma_elementwise_result(crate::autodiff::op_symbol(op), a, b, 0);
            if rigor.strict() {
                lemma_elementwise_from(crate::autodiff::op_symbol(op), a, b, 0, x.shape, rigor);
            }
        } else if op == BinOpKind::MatMul {
            if rigor.strict() {
                lemma_inner_sizes(a, b, x.shape, y.shape, rigor);
            }
            if y.rank() == 2 {
                lemma_product_two(x.shape[0], y.shape[1]);
                crate::tensor::lemma_nonzero_product(seq![x.shape[0], y.shape[1]], 0);
            } else {
                lemma_product_one(x.shape[0]);
            }
        }
    }
}

/// The shape of an operand that becomes a node.
spec fn operand_shape(v: ValueView, tapes: TapesView) -> Seq<usize> {
    match v {
        ValueView::Traced(id) => traced_value(tapes, id).shape,
        ValueView::Tensor(t) => t.shape,
        _ => Seq::empty(),
    }
}

proof fn lemma_lifted(m: Arith, v: ValueView, tapes: TapesView)
    requires
        lifted(m, v, tapes).0 is Ok,
        lifted(m, v, tapes).1.last().len() <= usize::MAX,
    ensures
        tapes.len() > 0,
        lifted(m, v, tapes).1.len() == tapes.len(),
        on_tape(lifted(m, v, tapes).1, lifted(m, v, tapes).0->Ok_0),
        traced_value(lifted(m, v, tapes).1, lifted(m, v, tapes).0->Ok_0).shape == operand_shape(
            v,
            tapes,
        ),
        reads_same(tapes, lifted(m, v, tapes).1),
        tapes.last().len() <= lifted(m, v, tapes).1.last().len(),
{
    let after = lifted(m, v, tapes).1;
    assert forall|id: usize| #[trigger] on_tape(tapes, id) implies on_tape(after, id)
        && traced_value(after, id).shape == traced_value(tapes, id).shape by {}
}

proof fn lemma_traced_binop(
    m: Arith,
    op: BinOpKind,
    l: ValueView,
    r: ValueView,
    tapes: TapesView,
    sl: ShapeView,
    sr: ShapeView,
    rigor: Rigor,
)
    requires
        rigor.strict(),
        rigor.ok(),
        rigor is Strict ==> !names_meet(op, sl, sr),
        describes(sl, l, tapes, rigor),
        describes(sr, r, tapes, rigor),
        traced_binop(m, op, l, r, tapes).0 is Ok,
        fits(traced_binop(m, op, l, r, tapes).1),
    ensures
        agrees_with(
            binop_shape(op, sl, sr),
            traced_binop(m, op, l, r, tapes).0->Ok_0,
            traced_binop(m, op, l, r, tapes).1,
            rigor,
        ),
{
    let (a, t1) = lifted(m, l, tapes);
    let a = a->Ok_0;
    let (b, t2) = lifted(m, r, t1);
    let b = b->Ok_0;
    let node = crate::autodiff::binop_node(m, op, t2.last(), a, b)->Ok_0;
    assert(recorded(t2, node).last() == t2.last().push(node));
    assert(t1.len() > 0 && t2.len() > 0);
    lemma_lifted(m, r, t1);
    lemma_lifted(m, l, tapes);
    assert(on_tape(t1, a));
    let x = traced_value(t2, a).shape;
    let y = traced_value(t2, b).shape;
    assert(x == operand_shape(l, tapes));
    if let ValueView::Traced(id) = r {
        assert(sr is Unknown || on_tape(tapes, id));
    }
    assert(sr is Unknown || y == operand_shape(r, tapes));
    if elementwise(op) is Some {
        assert(pair_shape(x, y) == Some(node.value.shape));
        if let (ShapeView::Tensor(d), ShapeView::Tensor(e)) = (sl, sr) {
            lemma_elementwise_from(crate::autodiff::op_symbol(op), d, e, 0, x, rigor);
        }
    } else if op == BinOpKind::MatMul {
        if let (ShapeView::Tensor(d), ShapeView::Tensor(e)) = (sl, sr) {
            lemma_inner_sizes(d, e, x, y, rigor);
        }
    }
}

proof fn lemma_binop(
    m: Arith,
    op: BinOpKind,
    l: ValueView,
    r: ValueView,
    tapes: TapesView,
    sl: ShapeView,
    sr: ShapeView,
    rigor: Rigor,
)
    requires
        describes(sl, l, tapes, rigor),
        describes(sr, r, tapes, rigor),
        rigor.ok(),
        rigor is Strict ==> !names_meet(op, sl, sr),
        rigor.strict() ==> fits(binop_model(m, op, l, r, tapes).1),
        binop_model(m, op, l, r, tapes).0 is Ok,
    ensures
        agrees_with(
            binop_shape(op, sl, sr),
            binop_model(m, op, l, r, tapes).0->Ok_0,
            binop_model(m, op, l, r, tapes).1,
            rigor,
        ),
{
    if l is Traced || r is Traced {
        if rigor.strict() {
            lemma_traced_binop(m, op, l, r, tapes, sl, sr, rigor);
        } else if let (ShapeView::Tensor(a), ShapeView::Tensor(b)) = (sl, sr) {
            lemma_elementwise_result(crate::autodiff::op_symbol(op), a, b, 0);
        }
    } else {
        lemma_plain_binop(m, op, l, r, tapes, sl, sr, rigor);
    }
}

proof fn lemma_negated(m: Arith, v: ValueView, tapes: TapesView, s: ShapeView, rigor: Rigor)
    requires
        describes(s, v, tapes, rigor),
        rigor.strict() ==> fits(negated(m, v, tapes).1),
        negated(m, v, tapes).0 is Ok,
    ensures
        describes(s, negated(m, v, tapes).0->Ok_0, negated(m, v, tapes).1, rigor),
{
}

// ---------------------------------------------------------------------------
// Built-in functions
// ---------------------------------------------------------------------------

proof fn lemma_builtin_one(
    m: Arith,
    b: BuiltinFn,
    v: ValueView,
    tapes: TapesView,
    s: ShapeView,
    rigor: Rigor,
)
    requires
        describes(s, v, tapes, rigor),
        rigor.strict() ==> fits(builtin_one(m, b, v, tapes).1),
        arity(b) == 1,
        builtin_one(m, b, v, tapes).0 is Ok,
    ensures
        describes(
            builtin_shape(b, seq![s]),
            builtin_one(m, b, v, tapes).0->Ok_0,
            builtin_one(m, b, v, tapes).1,
            rigor,
        ),
{
    if let (ShapeView::Tensor(d), ValueView::Tensor(t)) = (s, v) {
        if b == BuiltinFn::Transpose {
            lemma_rank_two(t.shape);
            lemma_product_two(t.shape[1], t.shape[0]);
            vstd::arithmetic::mul::lemma_mul_is_commutative(t.shape[0] as int, t.shape[1] as int);
        }
        if b == BuiltinFn::Flatten {
            lemma_rank_two(t.shape);
            lemma_product_one(t.data.len() as usize);
        }
    }
}

proof fn lemma_builtin_many(
    m: Arith,
    b: BuiltinFn,
    vals: Seq<ValueView>,
    globals: GlobalsView,
    depth: nat,
    tapes: TapesView,
    args: Seq<ShapeView>,
    rigor: Rigor,
)
    requires
        b != BuiltinFn::Iterate,
        b != BuiltinFn::Grad,
        arity(b) > 1,
        args.len() == arity(b),
        vals.len() == args.len(),
        forall|i: int|
            0 <= i < args.len() ==> describes(#[trigger] args[i], vals[i], tapes, rigor),
        builtin_many(m, b, vals, globals, depth, tapes).0 is Ok,
    ensures
        describes(
            builtin_shape(b, args),
            builtin_many(m, b, vals, globals, depth, tapes).0->Ok_0,
            tapes,
            rigor,
        ),
{
    assert(describes(args[0], vals[0], tapes, rigor));
    assert(describes(args[1], vals[1], tapes, rigor));
    if b == BuiltinFn::Clip {
        assert(describes(args[2], vals[2], tapes, rigor));
    }
    if b == BuiltinFn::Concat {
        if let (
            ShapeView::Tensor(d),
            ShapeView::Tensor(e),
            ValueView::Tensor(x),
            ValueView::Tensor(y),
        ) = (args[0], args[1], vals[0], vals[1]) {
            if d.len() == 1 && e.len() == 1 {
                lemma_rank_one(x.shape);
                lemma_rank_one(y.shape);
                lemma_product_one((x.data.len() + y.data.len()) as usize);
            }
        }
    }
}

proof fn lemma_grad(
    m: Arith,
    f: ValueView,
    x: ValueView,
    globals: GlobalsView,
    depth: nat,
    tapes: TapesView,
    sx: ShapeView,
    rigor: Rigor,
)
    requires
        describes(sx, x, tapes, rigor),
        grad_model(m, f, x, globals, depth, tapes).0 is Ok,
    ensures
        describes(sx, grad_model(m, f, x, globals, depth, tapes).0->Ok_0, tapes, rigor),
{
    if let ValueView::Tensor(t) = x {
        law_derivative_has_shape_of_input(m, f, t, globals, depth, tapes);
    }
}

/// Steps that have all been made began with the first.
proof fn lemma_first_step(
    m: Arith,
    step: ValueView,
    v: ValueView,
    n: nat,
    globals: GlobalsView,
    depth: nat,
    tapes: TapesView,
)
    requires
        n > 0,
        iterate_model(m, step, v, n, globals, depth, tapes).0 is Ok,
    ensures
        apply_model(m, step, v, globals, depth, tapes).0 is Ok,
    decreases n,
{
    if n > 1 {
        lemma_first_step(m, step, v, (n - 1) as nat, globals, depth, tapes);
    } else {
        assert(iterate_model(m, step, v, 0, globals, depth, tapes).0 == Ok::<
            ValueView,
            EvalErrorView,
        >(v));
    }
}

// ---------------------------------------------------------------------------
// Literal shapes
// ---------------------------------------------------------------------------

proof fn lemma_literal_row(
    m: Arith,
    row: Seq<ExprView>,
    n: nat,
    env: EnvView,
    depth: nat,
    tapes: TapesView,
)
    requires
        n <= row.len(),
        forall|i: int| 0 <= i < row.len() ==> literal_size(#[trigger] row[i]) is Some,
    ensures
        eval_row(m, row, n, env, depth, tapes).0 matches Ok(cells) ==> cells.len() == n
            && forall|i: int|
            0 <= i < n ==> #[trigger] cells[i] == from_int(m, literal_size(row[i])->0 as i64),
    decreases n,
{
    if n > 0 {
        lemma_literal_row(m, row, (n - 1) as nat, env, depth, tapes);
        let e = row[n - 1];
        assert(literal_size(e) is Some);
        let k = e->Lit_0->Int_0;
        let (front, t1) = eval_row(m, row, (n - 1) as nat, env, depth, tapes);
        assert(literal_size(e)->0 as i64 == k);
        assert(eval_model(m, e, env, depth, t1).0 == Ok::<ValueView, EvalErrorView>(
            ValueView::Int(k),
        ));
        if let Ok(front) = front {
            let cells = front.push(from_int(m, k));
            assert(eval_row(m, row, n, env, depth, tapes).0 == Ok::<
                Seq<u64>,
                EvalErrorView,
            >(cells));
        }
    }
}

/// A literal shape is the one that its value denotes.
proof fn lemma_literal_shape(
    m: Arith,
    arg: ExprView,
    env: EnvView,
    depth: nat,
    tapes: TapesView,
    shape: Seq<usize>,
)
    requires
        keeps_sizes(m),
        literal_shape(arg) is Some,
        eval_model(m, arg, env, depth, tapes).0 matches Ok(v) && shape_argument(m, v) == Ok::<
            Seq<usize>,
            EvalErrorView,
        >(shape),
    ensures
        literal_shape(arg)->0.len() > 0,
        forall|i: int|
            0 <= i < shape.len() ==> #[trigger] literal_shape(arg)->0[i] == DimView::Concrete(shape[i]),
        literal_shape(arg)->0.len() == shape.len(),
{
    match arg {
        ExprView::TensorLit(rows) => {
            let row = rows[0];
            let after = eval_rows(m, rows, 0, env, depth, tapes);
            assert(after == (Ok::<Seq<u64>, EvalErrorView>(Seq::empty()), tapes));
            lemma_literal_row(m, row, row.len(), env, depth, tapes);
            let (cells, t1) = eval_row(m, row, row.len(), env, depth, tapes);
            let (data, t2) = eval_rows(m, rows, 1, env, depth, tapes);
            if let Ok(cells) = cells {
                assert(Seq::<u64>::empty() + cells =~= cells);
                assert(data == Ok::<Seq<u64>, EvalErrorView>(cells));
                assert forall|i: int| 0 <= i < row.len() implies shape[i] == literal_size(
                    #[trigger] row[i],
                )->0 by {
                    let n = literal_size(row[i])->0 as i64;
                    assert(cells[i] == from_int(m, n));
                    assert(to_size(m, from_int(m, n)) == n);
                }
            }
        },
        _ => {},
    }
}

/// `zeros` or `ones` of a literal shape has that shape.
proof fn lemma_literal_application(
    m: Arith,
    f: ValueView,
    a: ValueView,
    globals: GlobalsView,
    depth: nat,
    tapes: TapesView,
    sf: ShapeView,
    arg: ExprView,
    env: EnvView,
    at: TapesView,
    rigor: Rigor,
)
    requires
        keeps_sizes(m),
        rigor.ok(),
        describes(sf, f, tapes, rigor),
        literal_application(sf, arg) is Some,
        eval_model(m, arg, env, depth, at).0 == Ok::<ValueView, EvalErrorView>(a),
        apply_model(m, f, a, globals, depth, tapes).0 is Ok,
    ensures
        describes(
            ShapeView::Tensor(literal_application(sf, arg)->0),
            apply_model(m, f, a, globals, depth, tapes).0->Ok_0,
            apply_model(m, f, a, globals, depth, tapes).1,
            rigor,
        ),
{
    if let Ok(shape) = shape_argument(m, a) {
        lemma_literal_shape(m, arg, env, depth, at, shape);
        crate::tensor::lemma_nonzero_product(shape, 0);
        let dims = literal_shape(arg)->0;
        assert(dims_match(dims, shape, rigor)) by {
            assert forall|i: int| 0 <= i < dims.len() implies #[trigger] dims[i]
                == DimView::Concrete(shape[i]) by {}
        }
    }
}

// ---------------------------------------------------------------------------
// Evaluation
// ---------------------------------------------------------------------------

proof fn lemma_agrees_eval(
    m: Arith,
    e: ExprView,
    env: EnvView,
    depth: nat,
    tapes: TapesView,
    senv: ShapeEnvView,
    room: nat,
    fuel: nat,
    rigor: Rigor,
)
    requires
        keeps_sizes(m),
        rigor.ok(),
        describes_env(senv, env, tapes, rigor),
        followed(m, e, env, depth, tapes, senv, room, fuel, rigor),
    ensures
        eval_model(m, e, env, depth, tapes).0 matches Ok(v) ==> agrees_with(
            shape_model(e, senv, room, fuel).0,
            v,
            eval_model(m, e, env, depth, tapes).1,
            rigor,
        ),
    decreases depth, 3int, e, 1nat,
{
    match e {
        ExprView::Lit(_) => {},
        ExprView::Var(name) => {
            lemma_find_local(senv.locals, env.locals, name, tapes, rigor);
            if senv.globals.contains_key(name) {
                assert(env.globals.contains_key(name));
                lemma_describes_moved(
                    senv.globals[name],
                    env.globals[name],
                    Seq::empty(),
                    tapes,
                    rigor,
                );
            }
        },
        ExprView::UnaryMinus(x) => {
            lemma_agrees_eval(m, *x, env, depth, tapes, senv, room, fuel, rigor);
            let (v, t1) = eval_model(m, *x, env, depth, tapes);
            let s = shape_model(*x, senv, room, fuel).0;
            if let (Ok(v), Ok(s)) = (v, s) {
                if negated(m, v, t1).0 is Ok {
                    lemma_negated(m, v, t1, s, rigor);
                }
            }
        },
        ExprView::BinOp { op, left, right } => {
            lemma_agrees_eval(m, *left, env, depth, tapes, senv, room, fuel, rigor);
            law_evaluation_only_adds_nodes(m, *left, env, depth, tapes);
            let (l, t1) = eval_model(m, *left, env, depth, tapes);
            let (sl, f1) = shape_model(*left, senv, room, fuel);
            lemma_env_moved(senv, env, tapes, t1, rigor);
            lemma_agrees_eval(m, *right, env, depth, t1, senv, room, f1, rigor);
            law_evaluation_only_adds_nodes(m, *right, env, depth, t1);
            let (r, t2) = eval_model(m, *right, env, depth, t1);
            let (sr, f2) = shape_model(*right, senv, room, f1);
            if let (Ok(l), Ok(r), Ok(sl), Ok(sr)) = (l, r, sl, sr) {
                lemma_grown_reads_same(t1, t2);
                lemma_describes_moved(sl, l, t1, t2, rigor);
                if binop_model(m, op, l, r, t2).0 is Ok {
                    lemma_binop(m, op, l, r, t2, sl, sr, rigor);
                }
            }
        },
        ExprView::App(func, arg) => {
            lemma_agrees_app(m, e, env, depth, tapes, senv, room, fuel, rigor);
        },
        ExprView::Pipe(arg, func) => {
            lemma_agrees_pipe(m, e, env, depth, tapes, senv, room, fuel, rigor);
        },
        ExprView::Lambda { param, body } => {},
        ExprView::Let { name, params, value, body } => {
            if params.len() == 0 {
                lemma_agrees_eval(m, *value, env, depth, tapes, senv, room, fuel, rigor);
                law_evaluation_only_adds_nodes(m, *value, env, depth, tapes);
                let (v, t1) = eval_model(m, *value, env, depth, tapes);
                let (s, f1) = shape_model(*value, senv, room, fuel);
                if let (Ok(v), Ok(s)) = (v, s) {
                    lemma_env_moved(senv, env, tapes, t1, rigor);
                    lemma_agrees_eval(
                        m,
                        *body,
                        env.bind(name, v),
                        depth,
                        t1,
                        senv.bind(name, s),
                        room,
                        f1,
                        rigor,
                    );
                }
            } else {
                let v = function_value(params, *value, env.locals);
                let s = function_shape(params, *value, senv.locals);
                assert(describes(s, v, tapes, rigor));
                lemma_agrees_eval(
                    m,
                    *body,
                    env.bind(name, v),
                    depth,
                    tapes,
                    senv.bind(name, s),
                    room,
                    fuel,
                    rigor,
                );
            }
        },
        ExprView::If { cond, then, else_ } => {
            lemma_agrees_eval(m, *cond, env, depth, tapes, senv, room, fuel, rigor);
            law_evaluation_only_adds_nodes(m, *cond, env, depth, tapes);
            let (c, t1) = eval_model(m, *cond, env, depth, tapes);
            let (sc, f1) = shape_model(*cond, senv, room, fuel);
            let (st, f2) = shape_model(*then, senv, room, f1);
            lemma_env_moved(senv, env, tapes, t1, rigor);
            if c == Ok::<ValueView, EvalErrorView>(ValueView::Bool(true)) {
                lemma_agrees_eval(m, *then, env, depth, t1, senv, room, f1, rigor);
            } else if c == Ok::<ValueView, EvalErrorView>(ValueView::Bool(false)) {
                lemma_agrees_eval(m, *else_, env, depth, t1, senv, room, f2, rigor);
            }
        },
        ExprView::TensorLit(rows) => {
            if rows.len() == 0 || (rows.len() == 1 && rows[0].len() == 0) {
                lemma_product_one(0);
            } else {
                lemma_agrees_rows(
                    m,
                    rows,
                    rows.len(),
                    env,
                    depth,
                    tapes,
                    senv,
                    room,
                    fuel,
                    rigor,
                );
                let (data, t1) = eval_rows(m, rows, rows.len(), env, depth, tapes);
                if let Ok(data) = data {
                    if is_uniform(rows) {
                        lemma_rows_len(m, rows, rows.len(), env, depth, tapes);
                        lemma_product_one(rows[0].len() as usize);
                        lemma_product_two(rows.len() as usize, rows[0].len() as usize);
                        assert(1 * rows[0].len() == rows[0].len()) by (nonlinear_arith);
                    }
                }
            }
        },
    }
}

proof fn lemma_agrees_app(
    m: Arith,
    e: ExprView,
    env: EnvView,
    depth: nat,
    tapes: TapesView,
    senv: ShapeEnvView,
    room: nat,
    fuel: nat,
    rigor: Rigor,
)
    requires
        keeps_sizes(m),
        rigor.ok(),
        describes_env(senv, env, tapes, rigor),
        followed(m, e, env, depth, tapes, senv, room, fuel, rigor),
        e is App,
    ensures
        eval_model(m, e, env, depth, tapes).0 matches Ok(v) ==> agrees_with(
            shape_model(e, senv, room, fuel).0,
            v,
            eval_model(m, e, env, depth, tapes).1,
            rigor,
        ),
    decreases depth, 3int, e, 0nat,
{
    let func = e->App_0;
    let arg = e->App_1;
    lemma_agrees_eval(m, *func, env, depth, tapes, senv, room, fuel, rigor);
    law_evaluation_only_adds_nodes(m, *func, env, depth, tapes);
    let (f, t1) = eval_model(m, *func, env, depth, tapes);
    let (sf, f1) = shape_model(*func, senv, room, fuel);
    lemma_env_moved(senv, env, tapes, t1, rigor);
    lemma_agrees_eval(m, *arg, env, depth, t1, senv, room, f1, rigor);
    law_evaluation_only_adds_nodes(m, *arg, env, depth, t1);
    let (a, t2) = eval_model(m, *arg, env, depth, t1);
    let (sa, f2) = shape_model(*arg, senv, room, f1);
    if let (Ok(f), Ok(a), Ok(sf), Ok(sa)) = (f, a, sf, sa) {
        lemma_grown_reads_same(t1, t2);
        lemma_describes_moved(sf, f, t1, t2, rigor);
        lemma_agrees_apply(
            m,
            f,
            a,
            env.globals,
            depth,
            t2,
            sf,
            sa,
            senv.globals,
            room,
            f2,
            rigor,
        );
        if literal_application(sf, *arg) is Some {
            if apply_model(m, f, a, env.globals, depth, t2).0 is Ok {
                lemma_literal_application(
                    m,
                    f,
                    a,
                    env.globals,
                    depth,
                    t2,
                    sf,
                    *arg,
                    env,
                    t1,
                    rigor,
                );
            }
        }
    }
}

proof fn lemma_agrees_pipe(
    m: Arith,
    e: ExprView,
    env: EnvView,
    depth: nat,
    tapes: TapesView,
    senv: ShapeEnvView,
    room: nat,
    fuel: nat,
    rigor: Rigor,
)
    requires
        keeps_sizes(m),
        rigor.ok(),
        describes_env(senv, env, tapes, rigor),
        followed(m, e, env, depth, tapes, senv, room, fuel, rigor),
        e is Pipe,
    ensures
        eval_model(m, e, env, depth, tapes).0 matches Ok(v) ==> agrees_with(
            shape_model(e, senv, room, fuel).0,
            v,
            eval_model(m, e, env, depth, tapes).1,
            rigor,
        ),
    decreases depth, 3int, e, 0nat,
{
    let func = e->Pipe_1;
    let arg = e->Pipe_0;
    lemma_agrees_eval(m, *arg, env, depth, tapes, senv, room, fuel, rigor);
    law_evaluation_only_adds_nodes(m, *arg, env, depth, tapes);
    let (a, t1) = eval_model(m, *arg, env, depth, tapes);
    let (sa, f1) = shape_model(*arg, senv, room, fuel);
    lemma_env_moved(senv, env, tapes, t1, rigor);
    lemma_agrees_eval(m, *func, env, depth, t1, senv, room, f1, rigor);
    law_evaluation_only_adds_nodes(m, *func, env, depth, t1);
    let (f, t2) = eval_model(m, *func, env, depth, t1);
    let (sf, f2) = shape_model(*func, senv, room, f1);
    if let (Ok(f), Ok(a), Ok(sf), Ok(sa)) = (f, a, sf, sa) {
        lemma_grown_reads_same(t1, t2);
        lemma_describes_moved(sa, a, t1, t2, rigor);
        lemma_agrees_apply(
            m,
            f,
            a,
            env.globals,
            depth,
            t2,
            sf,
            sa,
            senv.globals,
            room,
            f2,
            rigor,
        );
        if literal_application(sf, *arg) is Some {
            if apply_model(m, f, a, env.globals, depth, t2).0 is Ok {
                lemma_literal_application(
                    m,
                    f,
                    a,
                    env.globals,
                    depth,
                    t2,
                    sf,
                    *arg,
                    env,
                    tapes,
                    rigor,
                );
            }
        }
    }
}

proof fn lemma_rows_len(
    m: Arith,
    rows: Seq<Seq<ExprView>>,
    n: nat,
    env: EnvView,
    depth: nat,
    tapes: TapesView,
)
    requires
        n <= rows.len(),
        is_uniform(rows),
    ensures
        eval_rows(m, rows, n, env, depth, tapes).0 matches Ok(data) ==> data.len() == n
            * rows[0].len(),
    decreases n,
{
    if n > 0 {
        lemma_rows_len(m, rows, (n - 1) as nat, env, depth, tapes);
        let (front, t1) = eval_rows(m, rows, (n - 1) as nat, env, depth, tapes);
        let row = rows[n - 1];
        assert(row.len() == rows[0].len());
        lemma_row_len(m, row, row.len(), env, depth, t1);
        let c = rows[0].len() as int;
        assert((n - 1) * c + c == n * c) by (nonlinear_arith);
    } else {
        assert(0 * rows[0].len() == 0) by (nonlinear_arith);
    }
}

proof fn lemma_agrees_rows(
    m: Arith,
    rows: Seq<Seq<ExprView>>,
    n: nat,
    env: EnvView,
    depth: nat,
    tapes: TapesView,
    senv: ShapeEnvView,
    room: nat,
    fuel: nat,
    rigor: Rigor,
)
    requires
        keeps_sizes(m),
        rigor.ok(),
        describes_env(senv, env, tapes, rigor),
        followed_rows(m, rows, n, env, depth, tapes, senv, room, fuel, rigor),
    ensures
        rigor.strict() && is_uniform(rows) && eval_rows(m, rows, n, env, depth, tapes).0 is Ok
            ==> shape_rows(rows, n, senv, room, fuel).0 is Ok,
    decreases depth, 3int, rows, n,
{
    if 0 < n <= rows.len() {
        lemma_agrees_rows(m, rows, (n - 1) as nat, env, depth, tapes, senv, room, fuel, rigor);
        crate::eval_laws::lemma_rows_grown(m, rows, (n - 1) as nat, env, depth, tapes);
        let (front, t1) = eval_rows(m, rows, (n - 1) as nat, env, depth, tapes);
        let (sfront, f1) = shape_rows(rows, (n - 1) as nat, senv, room, fuel);
        let row = rows[n - 1];
        if is_uniform(rows) {
            assert(row.len() == rows[0].len());
        }
        lemma_env_moved(senv, env, tapes, t1, rigor);
        lemma_agrees_row(m, row, row.len(), env, depth, t1, senv, room, f1, rigor);
    }
}

proof fn lemma_agrees_row(
    m: Arith,
    row: Seq<ExprView>,
    n: nat,
    env: EnvView,
    depth: nat,
    tapes: TapesView,
    senv: ShapeEnvView,
    room: nat,
    fuel: nat,
    rigor: Rigor,
)
    requires
        keeps_sizes(m),
        rigor.ok(),
        describes_env(senv, env, tapes, rigor),
        followed_row(m, row, n, env, depth, tapes, senv, room, fuel, rigor),
    ensures
        rigor.strict() && eval_row(m, row, n, env, depth, tapes).0 is Ok ==> shape_row(
            row,
            n,
            senv,
            room,
            fuel,
        ).0 is Ok,
    decreases depth, 3int, row, n,
{
    if 0 < n <= row.len() {
        lemma_agrees_row(m, row, (n - 1) as nat, env, depth, tapes, senv, room, fuel, rigor);
        crate::eval_laws::lemma_row_grown(m, row, (n - 1) as nat, env, depth, tapes);
        let (front, t1) = eval_row(m, row, (n - 1) as nat, env, depth, tapes);
        let (sfront, f1) = shape_row(row, (n - 1) as nat, senv, room, fuel);
        lemma_env_moved(senv, env, tapes, t1, rigor);
        lemma_agrees_eval(m, row[n - 1], env, depth, t1, senv, room, f1, rigor);
    }
}

proof fn lemma_agrees_apply(
    m: Arith,
    f: ValueView,
    a: ValueView,
    globals: GlobalsView,
    depth: nat,
    tapes: TapesView,
    sf: ShapeView,
    sa: ShapeView,
    sglobals: ShapeGlobalsView,
    room: nat,
    fuel: nat,
    rigor: Rigor,
)
    requires
        keeps_sizes(m),
        rigor.ok(),
        describes(sf, f, tapes, rigor),
        describes(sa, a, tapes, rigor),
        describes_globals(sglobals, globals, rigor),
        followed_apply(m, f, a, globals, depth, tapes, sf, sa, sglobals, room, fuel, rigor),
    ensures
        apply_model(m, f, a, globals, depth, tapes).0 matches Ok(v) ==> agrees_with(
            shape_apply(sf, sa, sglobals, room, fuel).0,
            v,
            apply_model(m, f, a, globals, depth, tapes).1,
            rigor,
        ),
    decreases depth, 2int, f, 0nat,
{
    match sf {
        ShapeView::Closure { param, body, env } => {
            if depth > 0 && room > 0 && fuel > 0 {
                let l = f->Closure_env;
                lemma_agrees_eval(
                    m,
                    body,
                    (EnvView { locals: l, globals }).bind(param, a),
                    (depth - 1) as nat,
                    tapes,
                    (ShapeEnvView { locals: env, globals: sglobals }).bind(param, sa),
                    (room - 1) as nat,
                    (fuel - 1) as nat,
                    rigor,
                );
            }
        },
        ShapeView::Builtin(b) => {
            if arity(b) == 1 {
                if builtin_one(m, b, a, tapes).0 is Ok {
                    lemma_builtin_one(m, b, a, tapes, sa, rigor);
                }
            }
        },
        ShapeView::PartialBuiltin(b, args) => {
            let vals = f->PartialBuiltin_1;
            let all = args.push(sa);
            let vall = vals.push(a);
            assert forall|i: int| 0 <= i < all.len() implies describes(
                #[trigger] all[i],
                vall[i],
                tapes,
                rigor,
            ) by {
                if i < args.len() {
                    assert(describes(args[i], vals[i], tapes, rigor));
                }
            }
            if args.len() + 1 == arity(b) {
                if builtin_many(m, b, vall, globals, depth, tapes).0 is Ok {
                    if b == BuiltinFn::Grad {
                        lemma_agrees_grad(
                            m,
                            f,
                            a,
                            globals,
                            depth,
                            tapes,
                            sf,
                            sa,
                            sglobals,
                            room,
                            fuel,
                            rigor,
                        );
                    } else if b == BuiltinFn::Iterate {
                        lemma_agrees_iterate(
                            m,
                            f,
                            a,
                            globals,
                            depth,
                            tapes,
                            sf,
                            sa,
                            sglobals,
                            room,
                            fuel,
                            rigor,
                        );
                    } else {
                        lemma_builtin_many(m, b, vall, globals, depth, tapes, all, rigor);
                    }
                }
            }
        },
        _ => {},
    }
}

proof fn lemma_agrees_grad(
    m: Arith,
    f: ValueView,
    a: ValueView,
    globals: GlobalsView,
    depth: nat,
    tapes: TapesView,
    sf: ShapeView,
    sa: ShapeView,
    sglobals: ShapeGlobalsView,
    room: nat,
    fuel: nat,
    rigor: Rigor,
)
    requires
        keeps_sizes(m),
        rigor.ok(),
        describes(sf, f, tapes, rigor),
        describes(sa, a, tapes, rigor),
        describes_globals(sglobals, globals, rigor),
        followed_apply(m, f, a, globals, depth, tapes, sf, sa, sglobals, room, fuel, rigor),
        sf matches ShapeView::PartialBuiltin(BuiltinFn::Grad, args) && args.len() == 1,
        apply_model(m, f, a, globals, depth, tapes).0 is Ok,
    ensures
        agrees_with(
            shape_apply(sf, sa, sglobals, room, fuel).0,
            apply_model(m, f, a, globals, depth, tapes).0->Ok_0,
            apply_model(m, f, a, globals, depth, tapes).1,
            rigor,
        ),
    decreases depth, 1int, f, 0nat,
{
    let args = sf->PartialBuiltin_1;
    let vals = f->PartialBuiltin_1;
    let g = vals[0];
    assert(vals.push(a)[0] == g && vals.push(a)[1] == a);
    assert(describes(args[0], g, tapes, rigor));
    lemma_grad(m, g, a, globals, depth, tapes, sa, rigor);
    law_differentiation_leaves_no_trace(m, g, a, globals, depth, tapes);
    if rigor.strict() {
        let input = grad_input(m, a)->Ok_0;
        let start = recorded(
            tapes.push(Seq::empty()),
            NodeView { value: input, op: Op::Leaf },
        );
        assert(start.last() == Seq::<NodeView>::empty().push(
            NodeView { value: input, op: Op::Leaf },
        ));
        lemma_describes_moved(args[0], g, Seq::empty(), start, rigor);
        assert(on_tape(start, 0) && traced_value(start, 0) == input);
        assert(describes(sa, ValueView::Traced(0), start, rigor));
        lemma_agrees_apply(
            m,
            g,
            ValueView::Traced(0),
            globals,
            (depth - 1) as nat,
            start,
            args[0],
            sa,
            sglobals,
            room,
            fuel,
            rigor,
        );
    }
}

proof fn lemma_agrees_iterate(
    m: Arith,
    f: ValueView,
    a: ValueView,
    globals: GlobalsView,
    depth: nat,
    tapes: TapesView,
    sf: ShapeView,
    sa: ShapeView,
    sglobals: ShapeGlobalsView,
    room: nat,
    fuel: nat,
    rigor: Rigor,
)
    requires
        keeps_sizes(m),
        rigor.ok(),
        describes(sf, f, tapes, rigor),
        describes(sa, a, tapes, rigor),
        describes_globals(sglobals, globals, rigor),
        followed_apply(m, f, a, globals, depth, tapes, sf, sa, sglobals, room, fuel, rigor),
        sf matches ShapeView::PartialBuiltin(BuiltinFn::Iterate, args) && args.len() == 2,
        apply_model(m, f, a, globals, depth, tapes).0 is Ok,
    ensures
        agrees_with(
            shape_apply(sf, sa, sglobals, room, fuel).0,
            apply_model(m, f, a, globals, depth, tapes).0->Ok_0,
            apply_model(m, f, a, globals, depth, tapes).1,
            rigor,
        ),
    decreases depth, 1int, f, 0nat,
{
    let args = sf->PartialBuiltin_1;
    let vals = f->PartialBuiltin_1;
    let all = vals.push(a);
    assert(all[0] == vals[0] && all[1] == vals[1] && all[2] == a);
    assert(describes(args[0], vals[0], tapes, rigor));
    if let ValueView::Int(n) = vals[1] {
        if rigor.strict() && n > 0 {
            lemma_first_step(m, a, vals[0], n as nat, globals, (depth - 1) as nat, tapes);
            lemma_agrees_apply(
                m,
                a,
                vals[0],
                globals,
                (depth - 1) as nat,
                tapes,
                sa,
                args[0],
                sglobals,
                room,
                fuel,
                rigor,
            );
        }
    }
}

// ---------------------------------------------------------------------------
// Programs
// ---------------------------------------------------------------------------

/// Whether the evaluation of the first `n` items is one that shapes can
/// follow, and annotations say of values what is true.
pub open spec fn followed_values(
    m: Arith,
    items: Seq<TopLevelView>,
    n: nat,
    globals: GlobalsView,
    depth: nat,
    sglobals: ShapeGlobalsView,
    fuel: nat,
    rigor: Rigor,
) -> bool
    decreases n,
{
    if n == 0 || n > items.len() {
        true
    } else {
        let before = values_defined(m, items, (n - 1) as nat, globals, depth);
        let (shapes, f1) = values_shaped(items, (n - 1) as nat, sglobals, fuel);
        &&& followed_values(
            m,
            items,
            (n - 1) as nat,
            globals,
            depth,
            sglobals,
            fuel,
            rigor,
        )
        &&& match (before, shapes, items[n - 1]) {
            (Ok(g), Ok(s), TopLevelView::Binding { name, params, body }) => params.len() == 0
                ==> {
                let env = EnvView { locals: LocalsView::Empty, globals: g };
                let senv = ShapeEnvView { locals: ShapeLocalsView::Empty, globals: s };
                &&& followed(
                    m,
                    body,
                    env,
                    depth,
                    Seq::empty(),
                    senv,
                    MAX_APPLY_DEPTH as nat,
                    f1,
                    rigor,
                )
                &&& match (
                    annotation_of(items, items.len(), name),
                    eval_model(m, body, env, depth, Seq::empty()).0,
                ) {
                    (Some(ty), Ok(v)) => type_shape(ty) is Tensor ==> {
                        let inferred = shape_model(body, senv, MAX_APPLY_DEPTH as nat, f1).0;
                        &&& describes(type_shape(ty), v, Seq::empty(), rigor)
                        &&& rigor is Strict ==> (inferred matches Ok(s) ==> !names_differ(
                            type_shape(ty),
                            s,
                        ))
                    },
                    _ => true,
                }
            },
            _ => true,
        }
    }
}

/// Whether the run of a program is one that shapes can follow. Under a strict
/// rigor, the functions that have annotations pass the check against them.
pub open spec fn followed_program(
    m: Arith,
    items: Seq<TopLevelView>,
    depth: nat,
    rigor: Rigor,
) -> bool {
    let functions = functions_defined(items, items.len(), with_builtins(Map::empty()));
    let shapes = functions_shaped(items, items.len(), with_shape_builtins(Map::empty()));
    let (globals, fuel) = values_shaped(items, items.len(), shapes, MAX_APPLY_FUEL as nat);
    &&& followed_values(
        m,
        items,
        items.len(),
        functions,
        depth,
        shapes,
        MAX_APPLY_FUEL as nat,
        rigor,
    )
    &&& rigor.strict() ==> (globals matches Ok(g) ==> functions_checked(
        items,
        items.len(),
        g,
        fuel,
    ).0 is Ok)
}

proof fn lemma_builtins_described(rigor: Rigor)
    ensures
        describes_globals(
            with_shape_builtins(Map::empty()),
            with_builtins(Map::empty()),
            rigor,
        ),
{
    let s = with_shape_builtins(Map::empty());
    let g = with_builtins(Map::empty());
    assert forall|name: Seq<char>| #[trigger] s.contains_key(name) implies g.contains_key(name)
        && describes(s[name], g[name], Seq::empty(), rigor) by {
        assert(s[name] is Builtin);
        assert(g[name] == ValueView::Builtin(s[name]->Builtin_0));
    }
}

proof fn lemma_functions_described(items: Seq<TopLevelView>, n: nat, rigor: Rigor)
    requires
        n <= items.len(),
    ensures
        describes_globals(
            functions_shaped(items, n, with_shape_builtins(Map::empty())),
            functions_defined(items, n, with_builtins(Map::empty())),
            rigor,
        ),
    decreases n,
{
    if n == 0 {
        lemma_builtins_described(rigor);
    } else {
        lemma_functions_described(items, (n - 1) as nat, rigor);
        if let TopLevelView::Binding { name, params, body } = items[n - 1] {
            if params.len() > 0 {
                assert(describes_locals(
                    ShapeLocalsView::Empty,
                    LocalsView::Empty,
                    Seq::empty(),
                    rigor,
                ));
                assert(describes(
                    function_shape(params, body, ShapeLocalsView::Empty),
                    function_value(params, body, LocalsView::Empty),
                    Seq::empty(),
                    rigor,
                ));
            }
        }
    }
}

/// Two shapes that are both true of a value do not clash.
proof fn lemma_true_annotation(
    name: Seq<char>,
    declared: ShapeView,
    inferred: ShapeView,
    v: ValueView,
    rigor: Rigor,
)
    requires
        rigor.strict(),
        rigor.ok(),
        describes(declared, v, Seq::empty(), rigor),
        describes(inferred, v, Seq::empty(), rigor),
        rigor is Strict ==> !names_differ(declared, inferred),
    ensures
        annotation_error(name, declared, inferred) is None,
{
    if let (ShapeView::Tensor(d), ShapeView::Tensor(i)) = (declared, inferred) {
        assert forall|k: int| 0 <= k < d.len() implies !(#[trigger] dims_clash(d[k], i[k])) by {
            lemma_same_size(d, i, k, v->Tensor_0.shape, rigor);
            assert(rigor is Strict ==> !(dim_conflict(d[k], i[k]) is VarMismatch));
        }
    }
}

proof fn lemma_values_described(
    m: Arith,
    items: Seq<TopLevelView>,
    n: nat,
    globals: GlobalsView,
    depth: nat,
    sglobals: ShapeGlobalsView,
    fuel: nat,
    rigor: Rigor,
)
    requires
        keeps_sizes(m),
        rigor.ok(),
        followed_values(m, items, n, globals, depth, sglobals, fuel, rigor),
        n <= items.len(),
        describes_globals(sglobals, globals, rigor),
    ensures
        values_defined(m, items, n, globals, depth) matches Ok(g) ==> {
            let s = values_shaped(items, n, sglobals, fuel).0;
            &&& rigor.strict() ==> s is Ok
            &&& s matches Ok(s) ==> describes_globals(s, g, rigor)
        },
    decreases n,
{
    if n > 0 {
        lemma_values_described(m, items, (n - 1) as nat, globals, depth, sglobals, fuel, rigor);
        let before = values_defined(m, items, (n - 1) as nat, globals, depth);
        let (shapes, f1) = values_shaped(items, (n - 1) as nat, sglobals, fuel);
        if let (Ok(g), Ok(s), TopLevelView::Binding { name, params, body }) = (
            before,
            shapes,
            items[n - 1],
        ) {
            if params.len() == 0 {
                let env = EnvView { locals: LocalsView::Empty, globals: g };
                let senv = ShapeEnvView { locals: ShapeLocalsView::Empty, globals: s };
                lemma_agrees_eval(
                    m,
                    body,
                    env,
                    depth,
                    Seq::empty(),
                    senv,
                    MAX_APPLY_DEPTH as nat,
                    f1,
                    rigor,
                );
                let (v, end) = eval_model(m, body, env, depth, Seq::empty());
                law_evaluation_only_adds_nodes(m, body, env, depth, Seq::empty());
                assert(end =~= Seq::empty());
                let inferred = shape_model(body, senv, MAX_APPLY_DEPTH as nat, f1).0;
                if let (Ok(v), Ok(inferred), Some(ty)) = (
                    v,
                    inferred,
                    annotation_of(items, items.len(), name),
                ) {
                    if rigor.strict() && type_shape(ty) is Tensor {
                        lemma_true_annotation(name, type_shape(ty), inferred, v, rigor);
                    }
                }
            }
        }
    }
}

proof fn lemma_program(m: Arith, items: Seq<TopLevelView>, depth: nat, rigor: Rigor)
    requires
        keeps_sizes(m),
        rigor.ok(),
        followed_program(m, items, depth, rigor),
    ensures
        program_value(m, items, depth) matches Ok(v) ==> agrees_with(
            program_shape(items),
            v,
            Seq::empty(),
            rigor,
        ),
{
    lemma_functions_described(items, items.len(), rigor);
    lemma_values_described(
        m,
        items,
        items.len(),
        functions_defined(items, items.len(), with_builtins(Map::empty())),
        depth,
        functions_shaped(items, items.len(), with_shape_builtins(Map::empty())),
        MAX_APPLY_FUEL as nat,
        rigor,
    );
}

/// Operands are refused only where evaluation could not combine them: no two
/// values of those shapes, plain or under differentiation, have a result. Two
/// variables of different names are refused because nothing makes them equal;
/// so they have to stand for different sizes, or not to be what is refused.
pub proof fn law_refused_operands_do_not_combine(
    m: Arith,
    op: BinOpKind,
    l: ValueView,
    r: ValueView,
    tapes: TapesView,
    sl: ShapeView,
    sr: ShapeView,
    rigor: Rigor,
)
    requires
        rigor.strict(),
        rigor.ok(),
        describes(sl, l, tapes, rigor),
        describes(sr, r, tapes, rigor),
        fits(binop_model(m, op, l, r, tapes).1),
        binop_shape(op, sl, sr) is Err,
        rigor is Strict ==> !names_meet(op, sl, sr),
    ensures
        binop_model(m, op, l, r, tapes).0 is Err,
{
    if binop_model(m, op, l, r, tapes).0 is Ok {
        lemma_binop(m, op, l, r, tapes, sl, sr, rigor);
    }
}

/// What is said of the shape of a value still holds after any number of steps,
/// if it holds after one step of whatever it holds of.
pub proof fn law_steps_keep_a_shape(
    m: Arith,
    step: ValueView,
    v: ValueView,
    n: nat,
    globals: GlobalsView,
    depth: nat,
    tapes: TapesView,
    s: ShapeView,
    rigor: Rigor,
)
    requires
        describes(s, v, tapes, rigor),
        forall|x: ValueView, at: TapesView|
            #![trigger apply_model(m, step, x, globals, depth, at)]
            describes(s, x, at, rigor) ==> (apply_model(
                m,
                step,
                x,
                globals,
                depth,
                at,
            ).0 matches Ok(y) ==> describes(
                s,
                y,
                apply_model(m, step, x, globals, depth, at).1,
                rigor,
            )),
    ensures
        iterate_model(m, step, v, n, globals, depth, tapes).0 matches Ok(y) ==> describes(
            s,
            y,
            iterate_model(m, step, v, n, globals, depth, tapes).1,
            rigor,
        ),
    decreases n,
{
    if n > 0 {
        law_steps_keep_a_shape(m, step, v, (n - 1) as nat, globals, depth, tapes, s, rigor);
        let (before, at) = iterate_model(m, step, v, (n - 1) as nat, globals, depth, tapes);
        if let Ok(before) = before {
            assert(iterate_model(m, step, v, n, globals, depth, tapes) == apply_model(
                m,
                step,
                before,
                globals,
                depth,
                at,
            ));
        }
    }
}

/// What is said of the shape of a program holds of its value: a scalar is a
/// number or truth value, and a tensor has the dimensions that are known. Left
/// out are programs that say something false themselves, by the annotation of
/// a value or by an `iterate` whose steps change a shape.
pub proof fn law_shapes_hold_of_values(m: Arith, items: Seq<TopLevelView>, depth: nat)
    requires
        keeps_sizes(m),
        followed_program(m, items, depth, Rigor::Loose),
    ensures
        (program_shape(items), program_value(m, items, depth)) matches (Ok(s), Ok(v))
            ==> describes(s, v, Seq::empty(), Rigor::Loose),
{
    lemma_program(m, items, depth, Rigor::Loose);
}

/// No program that has a value is rejected for its shapes, and what is said of
/// its shape holds. Left out are these:
/// programs that are rejected for what they do not run, or run on another tape;
/// programs that say something false themselves, by the annotation of a value
/// or by an `iterate` whose steps change a shape;
/// programs with a function whose body does not pass against its annotation;
/// and programs in which two dimension variables of different names, from the
/// annotations of values, meet where one size is needed. They are rejected
/// even if both stand for one size.
pub proof fn law_no_good_program_is_rejected(m: Arith, items: Seq<TopLevelView>, depth: nat)
    requires
        keeps_sizes(m),
        followed_program(m, items, depth, Rigor::Strict),
        program_value(m, items, depth) is Ok,
    ensures
        program_shape(items) is Ok,
        describes(
            program_shape(items)->Ok_0,
            program_value(m, items, depth)->Ok_0,
            Seq::empty(),
            Rigor::Strict,
        ),
{
    lemma_program(m, items, depth, Rigor::Strict);
}

/// No program that has a value is rejected for its shapes where every dimension
/// variable in the annotations of values stands for a size, one name for one
/// size and different names for different sizes: where two names meet, there is
/// no value. What is said of the shape by a variable holds too. Otherwise the
/// same programs are left out as in `law_no_good_program_is_rejected`.
pub proof fn law_variables_for_sizes_are_not_rejected(
    m: Arith,
    items: Seq<TopLevelView>,
    depth: nat,
    sizes: Map<Seq<char>, usize>,
)
    requires
        keeps_sizes(m),
        Rigor::Named(sizes).ok(),
        followed_program(m, items, depth, Rigor::Named(sizes)),
        program_value(m, items, depth) is Ok,
    ensures
        program_shape(items) is Ok,
        describes(
            program_shape(items)->Ok_0,
            program_value(m, items, depth)->Ok_0,
            Seq::empty(),
            Rigor::Named(sizes),
        ),
{
    lemma_program(m, items, depth, Rigor::Named(sizes));
}

} // verus!
