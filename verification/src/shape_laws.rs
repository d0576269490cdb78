//! What holds of shape checking, by itself and beside evaluation.

use crate::ast::{BinOpKind, ExprView, LiteralView, TopLevelView, TypeDimView, TypeExprView};
use crate::autodiff::TapesView;
use crate::eval_laws::{goes_by_element, lemma_names_apart};
use crate::interpreter::{arity, eval_model, eval_row, eval_rows, is_uniform};
use crate::num::{Arith, BinaryOp};
use crate::shape_stage::{
    annotation_of, binop_shape, builtin_shape, conflict_of, dim_conflict, dims_of,
    find_local_shape, function_shape, functions_checked, functions_shaped, lemma_weights,
    literal_application, program_shape, shape_apply, shape_is, shape_model, shape_row,
    shape_rows, shape_scope, shaped_is, values_shaped, weight, with_shape_builtins, Budget,
    DimConflict, DimConflictKind, DimVal, DimView, ShapeEnvView, ShapeError, ShapeErrorView,
    ShapeGlobalsView, ShapeLocalsView, ShapeType, ShapeView, Shaped,
};
use crate::value::{BuiltinFn, EnvView, EvalErrorView, ValueView};
use vstd::prelude::*;

verus! {

// ---------------------------------------------------------------------------
// Scopes and dimensions
// ---------------------------------------------------------------------------

/// A top-level definition is known to every scope, whenever that was made: it
/// is found wherever no local binding hides it, the nearest local binding is
/// found where one does, and other names are as before.
pub proof fn law_shape_definition_is_found(
    locals: ShapeLocalsView,
    globals: ShapeGlobalsView,
    name: Seq<char>,
    s: ShapeView,
)
    ensures
        shape_scope(locals, globals.insert(name, s)).find(name) == match find_local_shape(
            locals,
            name,
        ) {
            Some(nearest) => Some(nearest),
            None => Some(s),
        },
        forall|other: Seq<char>|
            other != name ==> #[trigger] shape_scope(locals, globals.insert(name, s)).find(other)
                == shape_scope(locals, globals).find(other),
{
}

/// Dimensions conflict only where both are sizes or both are variables, and
/// differ. No dimension conflicts with itself or with one that is not known,
/// and it does not matter which of the two comes first, but for the order in
/// which variables are named.
pub proof fn law_conflicts_have_no_side(x: DimView, y: DimView)
    ensures
        dim_conflict(x, y) == DimConflict::ConcreteMismatch <==> x is Concrete && y is Concrete && x
            != y,
        dim_conflict(x, y) is VarMismatch <==> x is Var && y is Var && x != y,
        dim_conflict(x, y) matches DimConflict::VarMismatch(a, b) ==> x == DimView::Var(a) && y
            == DimView::Var(b),
        dim_conflict(x, x) == DimConflict::Agree,
        dim_conflict(x, DimView::Unknown) == DimConflict::Agree,
        dim_conflict(DimView::Unknown, y) == DimConflict::Agree,
        dim_conflict(y, x) == match dim_conflict(x, y) {
            DimConflict::VarMismatch(a, b) => DimConflict::VarMismatch(b, a),
            other => other,
        },
{
}

// ---------------------------------------------------------------------------
// Literals
// ---------------------------------------------------------------------------

/// Whether every element of a tensor literal is an integer or floating-point
/// literal.
pub open spec fn holds_numbers(rows: Seq<Seq<ExprView>>) -> bool {
    forall|i: int, j: int|
        0 <= i < rows.len() && 0 <= j < rows[i].len() ==> is_number(#[trigger] rows[i][j])
}

pub open spec fn is_number(e: ExprView) -> bool {
    e matches ExprView::Lit(l) && !(l is Bool)
}

proof fn lemma_number_row(
    m: Arith,
    row: Seq<ExprView>,
    n: nat,
    env: EnvView,
    depth: nat,
    tapes: TapesView,
    senv: ShapeEnvView,
    room: nat,
    fuel: nat,
)
    requires
        forall|j: int| 0 <= j < row.len() ==> is_number(#[trigger] row[j]),
    ensures
        eval_row(m, row, n, env, depth, tapes).0 is Ok,
        eval_row(m, row, n, env, depth, tapes).1 == tapes,
        shape_row(row, n, senv, room, fuel) == (Ok::<bool, ShapeErrorView>(true), fuel),
    decreases n,
{
    if 0 < n <= row.len() {
        lemma_number_row(m, row, (n - 1) as nat, env, depth, tapes, senv, room, fuel);
        let e = row[n - 1];
        assert(is_number(e));
        let (v, after) = eval_model(m, e, env, depth, tapes);
        assert(after == tapes && (v matches Ok(x) && (x is Int || x is Float)));
        assert(shape_model(e, senv, room, fuel) == (
            Ok::<ShapeView, ShapeErrorView>(ShapeView::Scalar),
            fuel,
        ));
    }
}

proof fn lemma_number_rows(
    m: Arith,
    rows: Seq<Seq<ExprView>>,
    n: nat,
    env: EnvView,
    depth: nat,
    tapes: TapesView,
    senv: ShapeEnvView,
    room: nat,
    fuel: nat,
)
    requires
        holds_numbers(rows),
        n <= rows.len(),
    ensures
        eval_rows(m, rows, n, env, depth, tapes).0 is Ok,
        eval_rows(m, rows, n, env, depth, tapes).1 == tapes,
        shape_rows(rows, n, senv, room, fuel) == (
            if is_uniform(rows.take(n as int)) {
                Ok::<bool, ShapeErrorView>(true)
            } else {
                Err(ShapeErrorView::NonUniformTensor)
            },
            fuel,
        ),
    decreases n,
{
    if n > 0 {
        lemma_number_rows(m, rows, (n - 1) as nat, env, depth, tapes, senv, room, fuel);
        let row = rows[n - 1];
        assert forall|j: int| 0 <= j < row.len() implies is_number(#[trigger] row[j]) by {
            assert(is_number(rows[n - 1][j]));
        }
        lemma_number_row(m, row, row.len(), env, depth, tapes, senv, room, fuel);
        let all = rows.take(n as int);
        let front = rows.take(n - 1);
        assert(is_uniform(all) <==> is_uniform(front) && row.len() == rows[0].len()) by {
            if is_uniform(all) {
                assert(all[n - 1].len() == all[0].len());
                assert forall|i: int| 0 <= i < front.len() implies (#[trigger] front[i]).len()
                    == front[0].len() by {
                    assert(all[i].len() == all[0].len());
                }
            }
            if is_uniform(front) && row.len() == rows[0].len() {
                assert forall|i: int| 0 <= i < all.len() implies (#[trigger] all[i]).len()
                    == all[0].len() by {
                    if i < n - 1 {
                        assert(front[i].len() == front[0].len());
                    }
                }
            }
        }
    }
}

/// The dimensions that are the sizes of a shape.
pub open spec fn concrete_dims(shape: Seq<usize>) -> Seq<DimView> {
    Seq::new(shape.len(), |i: int| DimView::Concrete(shape[i]))
}

/// The shape of a tensor literal of numbers is that of its value, and checking
/// refuses the literal where evaluation does: where its rows differ in length.
pub proof fn law_literals_have_the_shape_of_their_value(
    m: Arith,
    rows: Seq<Seq<ExprView>>,
    env: EnvView,
    depth: nat,
    tapes: TapesView,
    senv: ShapeEnvView,
    room: nat,
    fuel: nat,
)
    requires
        holds_numbers(rows),
    ensures
        ({
            let v = eval_model(m, ExprView::TensorLit(rows), env, depth, tapes).0;
            let s = shape_model(ExprView::TensorLit(rows), senv, room, fuel).0;
            if is_uniform(rows) {
                &&& v matches Ok(ValueView::Tensor(t))
                &&& s == Ok::<ShapeView, ShapeErrorView>(ShapeView::Tensor(concrete_dims(t.shape)))
            } else {
                &&& v == Err::<ValueView, EvalErrorView>(EvalErrorView::TensorNonUniform)
                &&& s == Err::<ShapeView, ShapeErrorView>(ShapeErrorView::NonUniformTensor)
            }
        }),
{
    let v = eval_model(m, ExprView::TensorLit(rows), env, depth, tapes).0;
    let s = shape_model(ExprView::TensorLit(rows), senv, room, fuel).0;
    lemma_number_rows(m, rows, rows.len(), env, depth, tapes, senv, room, fuel);
    assert(rows.take(rows.len() as int) =~= rows);
    if is_uniform(rows) {
        let t = v->Ok_0->Tensor_0;
        assert(s->Ok_0->Tensor_0 =~= concrete_dims(t.shape));
    }
}

// ---------------------------------------------------------------------------
// Knowing less
// ---------------------------------------------------------------------------

/// Whether `a` says no more than `b`: it is `b` but for parts that it leaves
/// unknown.
pub open spec fn vaguer(a: ShapeView, b: ShapeView) -> bool
    decreases a,
{
    match (a, b) {
        (ShapeView::Unknown, _) => true,
        (
            ShapeView::Closure { param, body, env },
            ShapeView::Closure { param: q, body: c, env: f },
        ) => param == q && body == c && vaguer_locals(env, f),
        (ShapeView::PartialBuiltin(x, args), ShapeView::PartialBuiltin(y, more)) => x == y
            && args.len() == more.len() && (forall|i: int|
            0 <= i < args.len() ==> vaguer(#[trigger] args[i], more[i])),
        _ => a == b,
    }
}

/// The same for local bindings, name by name.
pub open spec fn vaguer_locals(a: ShapeLocalsView, b: ShapeLocalsView) -> bool
    decreases a,
{
    match (a, b) {
        (ShapeLocalsView::Empty, ShapeLocalsView::Empty) => true,
        (
            ShapeLocalsView::Bound { name, value, parent },
            ShapeLocalsView::Bound { name: n, value: v, parent: p },
        ) => name == n && vaguer(*value, *v) && vaguer_locals(*parent, *p),
        _ => false,
    }
}

/// The same for top-level bindings.
pub open spec fn vaguer_globals(a: ShapeGlobalsView, b: ShapeGlobalsView) -> bool {
    &&& a.dom() == b.dom()
    &&& forall|name: Seq<char>| b.contains_key(name) ==> vaguer(#[trigger] a[name], b[name])
}

/// The same for scopes.
pub open spec fn vaguer_env(a: ShapeEnvView, b: ShapeEnvView) -> bool {
    vaguer_locals(a.locals, b.locals) && vaguer_globals(a.globals, b.globals)
}

proof fn lemma_vaguer_reflexive(a: ShapeView)
    ensures
        vaguer(a, a),
    decreases a,
{
    match a {
        ShapeView::Closure { param, body, env } => lemma_vaguer_locals_reflexive(env),
        ShapeView::PartialBuiltin(b, args) => {
            assert forall|i: int| 0 <= i < args.len() implies vaguer(#[trigger] args[i], args[i]) by {
                lemma_vaguer_reflexive(args[i]);
            }
        },
        _ => {},
    }
}

proof fn lemma_vaguer_locals_reflexive(a: ShapeLocalsView)
    ensures
        vaguer_locals(a, a),
    decreases a,
{
    if let ShapeLocalsView::Bound { name, value, parent } = a {
        lemma_vaguer_reflexive(*value);
        lemma_vaguer_locals_reflexive(*parent);
    }
}

proof fn lemma_vaguer_find_local(a: ShapeLocalsView, b: ShapeLocalsView, name: Seq<char>)
    requires
        vaguer_locals(a, b),
    ensures
        match (find_local_shape(a, name), find_local_shape(b, name)) {
            (Some(x), Some(y)) => vaguer(x, y),
            (None, None) => true,
            _ => false,
        },
    decreases a,
{
    if let (
        ShapeLocalsView::Bound { name: n, value, parent },
        ShapeLocalsView::Bound { name: _, value: v, parent: p },
    ) = (a, b) {
        if n != name {
            lemma_vaguer_find_local(*parent, *p, name);
        }
    }
}

proof fn lemma_vaguer_find(a: ShapeEnvView, b: ShapeEnvView, name: Seq<char>)
    requires
        vaguer_env(a, b),
    ensures
        match (a.find(name), b.find(name)) {
            (Some(x), Some(y)) => vaguer(x, y),
            (None, None) => true,
            _ => false,
        },
{
    lemma_vaguer_find_local(a.locals, b.locals, name);
    assert(a.globals.contains_key(name) == b.globals.contains_key(name));
    if b.globals.contains_key(name) {
        assert(vaguer(a.globals[name], b.globals[name]));
    }
}

proof fn lemma_vaguer_binop(
    op: BinOpKind,
    l: ShapeView,
    r: ShapeView,
    vl: ShapeView,
    vr: ShapeView,
)
    requires
        vaguer(vl, l),
        vaguer(vr, r),
        binop_shape(op, l, r) is Ok,
    ensures
        binop_shape(op, vl, vr) is Ok,
        vaguer(binop_shape(op, vl, vr)->Ok_0, binop_shape(op, l, r)->Ok_0),
{
    lemma_vaguer_reflexive(binop_shape(op, l, r)->Ok_0);
}

proof fn lemma_vaguer_builtin(b: BuiltinFn, args: Seq<ShapeView>, less: Seq<ShapeView>)
    requires
        args.len() == arity(b),
        less.len() == args.len(),
        forall|i: int| 0 <= i < args.len() ==> vaguer(#[trigger] less[i], args[i]),
    ensures
        vaguer(builtin_shape(b, less), builtin_shape(b, args)),
{
    assert(vaguer(less[0], args[0]));
    if args.len() > 1 {
        assert(vaguer(less[1], args[1]));
    }
    if args.len() > 2 {
        assert(vaguer(less[2], args[2]));
    }
    lemma_vaguer_reflexive(builtin_shape(b, args));
}

/// What a shape is worked out to with more known, more room and fuel enough,
/// is worked out to something vaguer, and to no error, with less.
proof fn lemma_vaguer_eval(
    e: ExprView,
    env: ShapeEnvView,
    room: nat,
    fuel: nat,
    less: ShapeEnvView,
    less_room: nat,
    less_fuel: nat,
)
    requires
        vaguer_env(less, env),
        less_room <= room,
        shape_model(e, env, room, fuel).0 is Ok,
        shape_model(e, env, room, fuel).1 > 0,
    ensures
        fuel > 0,
        shape_model(e, less, less_room, less_fuel).0 is Ok,
        vaguer(
            shape_model(e, less, less_room, less_fuel).0->Ok_0,
            shape_model(e, env, room, fuel).0->Ok_0,
        ),
    decreases room, 1int, 0nat, e, 0nat,
{
    match e {
        ExprView::Lit(_) => {},
        ExprView::Var(name) => {
            lemma_vaguer_find(less, env, name);
        },
        ExprView::UnaryMinus(x) => {
            lemma_vaguer_eval(*x, env, room, fuel, less, less_room, less_fuel);
        },
        ExprView::BinOp { op, left, right } => {
            let (l, f1) = shape_model(*left, env, room, fuel);
            let (r, f2) = shape_model(*right, env, room, f1);
            let (vl, g1) = shape_model(*left, less, less_room, less_fuel);
            lemma_vaguer_eval(*right, env, room, f1, less, less_room, g1);
            lemma_vaguer_eval(*left, env, room, fuel, less, less_room, less_fuel);
            let (vr, g2) = shape_model(*right, less, less_room, g1);
            lemma_vaguer_binop(op, l->Ok_0, r->Ok_0, vl->Ok_0, vr->Ok_0);
        },
        ExprView::App(func, arg) => {
            let (f, f1) = shape_model(*func, env, room, fuel);
            let (a, f2) = shape_model(*arg, env, room, f1);
            let (vf, g1) = shape_model(*func, less, less_room, less_fuel);
            let (va, g2) = shape_model(*arg, less, less_room, g1);
            if literal_application(f->Ok_0, *arg) is None {
                lemma_fuel_apply(f->Ok_0, a->Ok_0, env.globals, room, f2);
            }
            lemma_vaguer_eval(*arg, env, room, f1, less, less_room, g1);
            lemma_vaguer_eval(*func, env, room, fuel, less, less_room, less_fuel);
            lemma_vaguer_application(
                f->Ok_0,
                a->Ok_0,
                *arg,
                env.globals,
                room,
                f2,
                vf->Ok_0,
                va->Ok_0,
                less.globals,
                less_room,
                g2,
            );
        },
        ExprView::Pipe(arg, func) => {
            let (a, f1) = shape_model(*arg, env, room, fuel);
            let (f, f2) = shape_model(*func, env, room, f1);
            let (va, g1) = shape_model(*arg, less, less_room, less_fuel);
            let (vf, g2) = shape_model(*func, less, less_room, g1);
            if literal_application(f->Ok_0, *arg) is None {
                lemma_fuel_apply(f->Ok_0, a->Ok_0, env.globals, room, f2);
            }
            lemma_vaguer_eval(*func, env, room, f1, less, less_room, g1);
            lemma_vaguer_eval(*arg, env, room, fuel, less, less_room, less_fuel);
            lemma_vaguer_application(
                f->Ok_0,
                a->Ok_0,
                *arg,
                env.globals,
                room,
                f2,
                vf->Ok_0,
                va->Ok_0,
                less.globals,
                less_room,
                g2,
            );
        },
        ExprView::Lambda { param, body } => {},
        ExprView::Let { name, params, value, body } => {
            if params.len() == 0 {
                let (v, f1) = shape_model(*value, env, room, fuel);
                let (w, g1) = shape_model(*value, less, less_room, less_fuel);
                lemma_fuel_eval(*body, env.bind(name, v->Ok_0), room, f1);
                lemma_vaguer_eval(*value, env, room, fuel, less, less_room, less_fuel);
                lemma_vaguer_eval(
                    *body,
                    env.bind(name, v->Ok_0),
                    room,
                    f1,
                    less.bind(name, w->Ok_0),
                    less_room,
                    g1,
                );
            } else {
                let v = function_shape(params, *value, env.locals);
                let w = function_shape(params, *value, less.locals);
                assert(vaguer(w, v));
                lemma_vaguer_eval(
                    *body,
                    env.bind(name, v),
                    room,
                    fuel,
                    less.bind(name, w),
                    less_room,
                    less_fuel,
                );
            }
        },
        ExprView::If { cond, then, else_ } => {
            let (c, f1) = shape_model(*cond, env, room, fuel);
            let (t, f2) = shape_model(*then, env, room, f1);
            let (f, f3) = shape_model(*else_, env, room, f2);
            let (vc, g1) = shape_model(*cond, less, less_room, less_fuel);
            let (vt, g2) = shape_model(*then, less, less_room, g1);
            lemma_vaguer_eval(*else_, env, room, f2, less, less_room, g2);
            lemma_vaguer_eval(*then, env, room, f1, less, less_room, g1);
            lemma_vaguer_eval(*cond, env, room, fuel, less, less_room, less_fuel);
        },
        ExprView::TensorLit(rows) => {
            if !(rows.len() == 0 || (rows.len() == 1 && rows[0].len() == 0)) {
                lemma_vaguer_rows(rows, rows.len(), env, room, fuel, less, less_room, less_fuel);
            }
        },
    }
}

proof fn lemma_vaguer_rows(
    rows: Seq<Seq<ExprView>>,
    n: nat,
    env: ShapeEnvView,
    room: nat,
    fuel: nat,
    less: ShapeEnvView,
    less_room: nat,
    less_fuel: nat,
)
    requires
        vaguer_env(less, env),
        less_room <= room,
        shape_rows(rows, n, env, room, fuel).0 is Ok,
        shape_rows(rows, n, env, room, fuel).1 > 0,
    ensures
        fuel > 0,
        shape_rows(rows, n, less, less_room, less_fuel).0 is Ok,
        shape_rows(rows, n, less, less_room, less_fuel).0->Ok_0 ==> shape_rows(
            rows,
            n,
            env,
            room,
            fuel,
        ).0->Ok_0,
    decreases room, 1int, 0nat, rows, n,
{
    if 0 < n <= rows.len() {
        let (front, f1) = shape_rows(rows, (n - 1) as nat, env, room, fuel);
        let (vague, g1) = shape_rows(rows, (n - 1) as nat, less, less_room, less_fuel);
        let row = rows[n - 1];
        lemma_vaguer_row(row, row.len(), env, room, f1, less, less_room, g1);
        lemma_vaguer_rows(rows, (n - 1) as nat, env, room, fuel, less, less_room, less_fuel);
    }
}

proof fn lemma_vaguer_row(
    row: Seq<ExprView>,
    n: nat,
    env: ShapeEnvView,
    room: nat,
    fuel: nat,
    less: ShapeEnvView,
    less_room: nat,
    less_fuel: nat,
)
    requires
        vaguer_env(less, env),
        less_room <= room,
        shape_row(row, n, env, room, fuel).0 is Ok,
        shape_row(row, n, env, room, fuel).1 > 0,
    ensures
        fuel > 0,
        shape_row(row, n, less, less_room, less_fuel).0 is Ok,
        shape_row(row, n, less, less_room, less_fuel).0->Ok_0 ==> shape_row(
            row,
            n,
            env,
            room,
            fuel,
        ).0->Ok_0,
    decreases room, 1int, 0nat, row, n,
{
    if 0 < n <= row.len() {
        let (front, f1) = shape_row(row, (n - 1) as nat, env, room, fuel);
        let (vague, g1) = shape_row(row, (n - 1) as nat, less, less_room, less_fuel);
        lemma_vaguer_eval(row[n - 1], env, room, f1, less, less_room, g1);
        lemma_vaguer_row(row, (n - 1) as nat, env, room, fuel, less, less_room, less_fuel);
    }
}

/// Fuel is only ever used up.
proof fn lemma_fuel_eval(e: ExprView, env: ShapeEnvView, room: nat, fuel: nat)
    ensures
        shape_model(e, env, room, fuel).1 <= fuel,
    decreases room, 1int, 0nat, e, 0nat,
{
    match e {
        ExprView::UnaryMinus(x) => lemma_fuel_eval(*x, env, room, fuel),
        ExprView::BinOp { op, left, right } => {
            lemma_fuel_eval(*left, env, room, fuel);
            let (l, f1) = shape_model(*left, env, room, fuel);
            lemma_fuel_eval(*right, env, room, f1);
        },
        ExprView::App(func, arg) => {
            lemma_fuel_eval(*func, env, room, fuel);
            let (f, f1) = shape_model(*func, env, room, fuel);
            lemma_fuel_eval(*arg, env, room, f1);
            let (a, f2) = shape_model(*arg, env, room, f1);
            if let (Ok(f), Ok(a)) = (f, a) {
                lemma_fuel_apply(f, a, env.globals, room, f2);
            }
        },
        ExprView::Pipe(arg, func) => {
            lemma_fuel_eval(*arg, env, room, fuel);
            let (a, f1) = shape_model(*arg, env, room, fuel);
            lemma_fuel_eval(*func, env, room, f1);
            let (f, f2) = shape_model(*func, env, room, f1);
            if let (Ok(f), Ok(a)) = (f, a) {
                lemma_fuel_apply(f, a, env.globals, room, f2);
            }
        },
        ExprView::Let { name, params, value, body } => {
            if params.len() == 0 {
                lemma_fuel_eval(*value, env, room, fuel);
                let (v, f1) = shape_model(*value, env, room, fuel);
                if let Ok(v) = v {
                    lemma_fuel_eval(*body, env.bind(name, v), room, f1);
                }
            } else {
                let v = function_shape(params, *value, env.locals);
                lemma_fuel_eval(*body, env.bind(name, v), room, fuel);
            }
        },
        ExprView::If { cond, then, else_ } => {
            lemma_fuel_eval(*cond, env, room, fuel);
            let (c, f1) = shape_model(*cond, env, room, fuel);
            lemma_fuel_eval(*then, env, room, f1);
            let (t, f2) = shape_model(*then, env, room, f1);
            lemma_fuel_eval(*else_, env, room, f2);
        },
        ExprView::TensorLit(rows) => lemma_fuel_rows(rows, rows.len(), env, room, fuel),
        _ => {},
    }
}

proof fn lemma_fuel_rows(
    rows: Seq<Seq<ExprView>>,
    n: nat,
    env: ShapeEnvView,
    room: nat,
    fuel: nat,
)
    ensures
        shape_rows(rows, n, env, room, fuel).1 <= fuel,
    decreases room, 1int, 0nat, rows, n,
{
    if 0 < n <= rows.len() {
        lemma_fuel_rows(rows, (n - 1) as nat, env, room, fuel);
        let (front, f1) = shape_rows(rows, (n - 1) as nat, env, room, fuel);
        let row = rows[n - 1];
        lemma_fuel_row(row, row.len(), env, room, f1);
    }
}

proof fn lemma_fuel_row(row: Seq<ExprView>, n: nat, env: ShapeEnvView, room: nat, fuel: nat)
    ensures
        shape_row(row, n, env, room, fuel).1 <= fuel,
    decreases room, 1int, 0nat, row, n,
{
    if 0 < n <= row.len() {
        lemma_fuel_row(row, (n - 1) as nat, env, room, fuel);
        let (front, f1) = shape_row(row, (n - 1) as nat, env, room, fuel);
        lemma_fuel_eval(row[n - 1], env, room, f1);
    }
}

proof fn lemma_fuel_apply(
    f: ShapeView,
    a: ShapeView,
    globals: ShapeGlobalsView,
    room: nat,
    fuel: nat,
)
    ensures
        shape_apply(f, a, globals, room, fuel).1 <= fuel,
    decreases room, 0int, weight(f) + weight(a), f, 0nat,
{
    match f {
        ShapeView::Closure { param, body, env } => {
            if room > 0 && fuel > 0 {
                lemma_fuel_eval(
                    body,
                    (ShapeEnvView { locals: env, globals }).bind(param, a),
                    (room - 1) as nat,
                    (fuel - 1) as nat,
                );
            }
        },
        ShapeView::PartialBuiltin(b, args) => {
            if args.len() + 1 == arity(b) {
                if b == BuiltinFn::Grad {
                    lemma_weights(args, 0);
                    lemma_fuel_apply(args[0], a, globals, room, fuel);
                } else if b == BuiltinFn::Iterate {
                    lemma_weights(args, 0);
                    lemma_fuel_apply(a, args[0], globals, room, fuel);
                }
            }
        },
        _ => {},
    }
}

/// An application, by its argument's own text or else by the function.
spec fn application(
    f: ShapeView,
    a: ShapeView,
    arg: ExprView,
    globals: ShapeGlobalsView,
    room: nat,
    fuel: nat,
) -> (Result<ShapeView, ShapeErrorView>, nat) {
    match literal_application(f, arg) {
        Some(dims) => (Ok(ShapeView::Tensor(dims)), fuel),
        None => shape_apply(f, a, globals, room, fuel),
    }
}

proof fn lemma_vaguer_application(
    f: ShapeView,
    a: ShapeView,
    arg: ExprView,
    globals: ShapeGlobalsView,
    room: nat,
    fuel: nat,
    vf: ShapeView,
    va: ShapeView,
    less: ShapeGlobalsView,
    less_room: nat,
    less_fuel: nat,
)
    requires
        vaguer(vf, f),
        vaguer(va, a),
        vaguer_globals(less, globals),
        less_room <= room,
        application(f, a, arg, globals, room, fuel).0 is Ok,
        application(f, a, arg, globals, room, fuel).1 > 0,
    ensures
        application(vf, va, arg, less, less_room, less_fuel).0 is Ok,
        vaguer(
            application(vf, va, arg, less, less_room, less_fuel).0->Ok_0,
            application(f, a, arg, globals, room, fuel).0->Ok_0,
        ),
    decreases room, 0int, weight(f) + weight(a) + 1, f, 0nat,
{
    if literal_application(f, arg) is None {
        lemma_vaguer_apply(f, a, globals, room, fuel, vf, va, less, less_room, less_fuel);
    }
}

proof fn lemma_vaguer_apply(
    f: ShapeView,
    a: ShapeView,
    globals: ShapeGlobalsView,
    room: nat,
    fuel: nat,
    vf: ShapeView,
    va: ShapeView,
    less: ShapeGlobalsView,
    less_room: nat,
    less_fuel: nat,
)
    requires
        vaguer(vf, f),
        vaguer(va, a),
        vaguer_globals(less, globals),
        less_room <= room,
        shape_apply(f, a, globals, room, fuel).0 is Ok,
        shape_apply(f, a, globals, room, fuel).1 > 0,
    ensures
        shape_apply(vf, va, less, less_room, less_fuel).0 is Ok,
        vaguer(
            shape_apply(vf, va, less, less_room, less_fuel).0->Ok_0,
            shape_apply(f, a, globals, room, fuel).0->Ok_0,
        ),
    decreases room, 0int, weight(f) + weight(a), f, 0nat,
{
    match (vf, f) {
        (
            ShapeView::Closure { param, body, env: ve },
            ShapeView::Closure { param: _, body: _, env },
        ) => {
            lemma_fuel_apply(f, a, globals, room, fuel);
            if room > 0 && fuel > 0 && less_room > 0 && less_fuel > 0 {
                lemma_vaguer_eval(
                    body,
                    (ShapeEnvView { locals: env, globals }).bind(param, a),
                    (room - 1) as nat,
                    (fuel - 1) as nat,
                    (ShapeEnvView { locals: ve, globals: less }).bind(param, va),
                    (less_room - 1) as nat,
                    (less_fuel - 1) as nat,
                );
            }
        },
        (ShapeView::Builtin(b), ShapeView::Builtin(_)) => {
            if arity(b) == 1 {
                lemma_vaguer_builtin(b, seq![a], seq![va]);
            }
        },
        (ShapeView::PartialBuiltin(b, vargs), ShapeView::PartialBuiltin(_, args)) => {
            let all = args.push(a);
            let vall = vargs.push(va);
            assert forall|i: int| 0 <= i < all.len() implies vaguer(#[trigger] vall[i], all[i]) by {
                if i < args.len() {
                    assert(vaguer(vargs[i], args[i]));
                }
            }
            if args.len() + 1 == arity(b) {
                if b == BuiltinFn::Grad {
                    lemma_weights(args, 0);
                    lemma_vaguer_apply(
                        args[0],
                        a,
                        globals,
                        room,
                        fuel,
                        vargs[0],
                        va,
                        less,
                        less_room,
                        less_fuel,
                    );
                } else if b == BuiltinFn::Iterate {
                    lemma_weights(args, 0);
                    lemma_vaguer_apply(
                        a,
                        args[0],
                        globals,
                        room,
                        fuel,
                        va,
                        vargs[0],
                        less,
                        less_room,
                        less_fuel,
                    );
                } else {
                    lemma_vaguer_builtin(b, all, vall);
                }
            }
        },
        _ => {},
    }
}

/// Leaving a shape unknown, or cutting the work short, never makes an error:
/// what checks without running out of fuel still checks where less is known
/// of the scope, calls may nest less deep and fuel is whatever it is, and what
/// is then said of the shape is the same but for what is left unknown.
pub proof fn law_knowing_less_makes_no_error(
    e: ExprView,
    env: ShapeEnvView,
    room: nat,
    fuel: nat,
    less: ShapeEnvView,
    less_room: nat,
    less_fuel: nat,
)
    requires
        vaguer_env(less, env),
        less_room <= room,
        shape_model(e, env, room, fuel).0 is Ok,
        shape_model(e, env, room, fuel).1 > 0,
    ensures
        shape_model(e, less, less_room, less_fuel).0 is Ok,
        vaguer(
            shape_model(e, less, less_room, less_fuel).0->Ok_0,
            shape_model(e, env, room, fuel).0->Ok_0,
        ),
{
    lemma_vaguer_eval(e, env, room, fuel, less, less_room, less_fuel);
}

// ---------------------------------------------------------------------------
// What operators make of shapes
// ---------------------------------------------------------------------------

/// Whether two dimensions are certainly not the same: two sizes or two
/// variables that differ.
pub open spec fn cannot_be(x: DimView, y: DimView) -> bool {
    match (x, y) {
        (DimView::Concrete(a), DimView::Concrete(b)) => a != b,
        (DimView::Var(a), DimView::Var(b)) => a != b,
        _ => false,
    }
}

proof fn lemma_elementwise_before(
    op: Seq<char>,
    a: Seq<DimView>,
    b: Seq<DimView>,
    i: int,
    k: int,
)
    requires
        0 <= i <= k <= a.len(),
        forall|j: int| i <= j < k ==> !cannot_be(#[trigger] a[j], b[j]),
    ensures
        crate::shape_stage::elementwise_from(op, a, b, i) == crate::shape_stage::elementwise_from(
            op,
            a,
            b,
            k,
        ),
    decreases k - i,
{
    if i < k {
        assert(!cannot_be(a[i], b[i]));
        lemma_elementwise_before(op, a, b, i + 1, k);
    }
}

/// Tensors go together element by element only where they have as many
/// dimensions, and no dimension of the one cannot be that of the other: the
/// first that cannot be is the error. What comes of it has the shape of the
/// first.
pub proof fn law_shapes_of_elementwise_operators(
    op: BinOpKind,
    k: BinaryOp,
    symbol: Seq<char>,
    a: Seq<DimView>,
    b: Seq<DimView>,
    i: int,
)
    requires
        goes_by_element(op, k, symbol),
    ensures
        ({
            let r = binop_shape(op, ShapeView::Tensor(a), ShapeView::Tensor(b));
            let mismatch = ShapeErrorView::ElementwiseMismatch { op: symbol, a, b };
            &&& a.len() != b.len() ==> r == Err::<ShapeView, ShapeErrorView>(mismatch)
            &&& a.len() == b.len() && (forall|j: int|
                0 <= j < a.len() ==> !cannot_be(#[trigger] a[j], b[j])) ==> r == Ok::<
                ShapeView,
                ShapeErrorView,
            >(ShapeView::Tensor(a))
            &&& a.len() == b.len() && 0 <= i < a.len() && cannot_be(a[i], b[i]) && (forall|j: int|
                0 <= j < i ==> !cannot_be(#[trigger] a[j], b[j])) ==> r == Err::<
                ShapeView,
                ShapeErrorView,
            >(
                match (a[i], b[i]) {
                    (DimView::Var(x), DimView::Var(y)) => ShapeErrorView::VarConflict {
                        op: symbol,
                        var_a: x,
                        var_b: y,
                    },
                    _ => mismatch,
                },
            )
        }),
{
    if a.len() == b.len() {
        if forall|j: int| 0 <= j < a.len() ==> !cannot_be(#[trigger] a[j], b[j]) {
            lemma_elementwise_before(symbol, a, b, 0, a.len() as int);
        }
        if 0 <= i < a.len() && (forall|j: int| 0 <= j < i ==> !cannot_be(#[trigger] a[j], b[j])) {
            lemma_elementwise_before(symbol, a, b, 0, i);
        }
    }
}

/// A scalar goes with every shape, and scalars give a scalar; a comparison
/// gives one whatever it compares; of functions and of what is unknown nothing
/// is said.
pub proof fn law_shapes_beside_scalars(
    op: BinOpKind,
    k: BinaryOp,
    symbol: Seq<char>,
    a: Seq<DimView>,
    l: ShapeView,
    r: ShapeView,
)
    ensures
        goes_by_element(op, k, symbol) ==> {
            &&& binop_shape(op, ShapeView::Tensor(a), ShapeView::Scalar) == Ok::<
                ShapeView,
                ShapeErrorView,
            >(ShapeView::Tensor(a))
            &&& binop_shape(op, ShapeView::Scalar, ShapeView::Tensor(a)) == Ok::<
                ShapeView,
                ShapeErrorView,
            >(ShapeView::Tensor(a))
            &&& binop_shape(op, ShapeView::Scalar, ShapeView::Scalar) == Ok::<
                ShapeView,
                ShapeErrorView,
            >(ShapeView::Scalar)
            &&& !(l is Scalar || l is Tensor) || !(r is Scalar || r is Tensor) ==> binop_shape(
                op,
                l,
                r,
            ) == Ok::<ShapeView, ShapeErrorView>(ShapeView::Unknown)
        },
        op == BinOpKind::Eq || op == BinOpKind::Ne || op == BinOpKind::Lt || op == BinOpKind::Le
            || op == BinOpKind::Gt || op == BinOpKind::Ge ==> binop_shape(op, l, r) == Ok::<
            ShapeView,
            ShapeErrorView,
        >(ShapeView::Scalar),
        op == BinOpKind::MatMul && !(l is Tensor && r is Tensor) ==> binop_shape(op, l, r) == Ok::<
            ShapeView,
            ShapeErrorView,
        >(ShapeView::Unknown),
{
}

/// `[m, k] @ [k, n]` is `[m, n]` and `[m, k] @ [k]` is `[m]`; inner dimensions
/// that cannot be the same are refused, and of other ranks nothing is said.
pub proof fn law_shapes_of_matrix_products(a: Seq<DimView>, b: Seq<DimView>)
    ensures
        ({
            let r = binop_shape(BinOpKind::MatMul, ShapeView::Tensor(a), ShapeView::Tensor(b));
            let ranks = a.len() == 2 && (b.len() == 1 || b.len() == 2);
            &&& ranks && !cannot_be(a[1], b[0]) && b.len() == 2 ==> r == Ok::<
                ShapeView,
                ShapeErrorView,
            >(ShapeView::Tensor(seq![a[0], b[1]]))
            &&& ranks && !cannot_be(a[1], b[0]) && b.len() == 1 ==> r == Ok::<
                ShapeView,
                ShapeErrorView,
            >(ShapeView::Tensor(seq![a[0]]))
            &&& ranks && a[1] is Concrete && cannot_be(a[1], b[0]) ==> r == Err::<
                ShapeView,
                ShapeErrorView,
            >(ShapeErrorView::MatMulMismatch { a, b })
            &&& ranks && a[1] is Var && cannot_be(a[1], b[0]) ==> r == Err::<
                ShapeView,
                ShapeErrorView,
            >(
                ShapeErrorView::VarConflict {
                    op: "@"@,
                    var_a: a[1]->Var_0,
                    var_b: b[0]->Var_0,
                },
            )
            &&& !ranks ==> r == Ok::<ShapeView, ShapeErrorView>(ShapeView::Unknown)
        }),
{
}

// ---------------------------------------------------------------------------
// What functions make of shapes
// ---------------------------------------------------------------------------

/// Whether an application says a shape without a call.
pub open spec fn says(r: Shaped<ShapeView>, s: ShapeView, fuel: nat) -> bool {
    r.0 == Ok::<ShapeView, ShapeErrorView>(s) && r.1 == fuel
}

/// `sum`, `mean`, `max`, `min` and `norm` give a scalar; `exp`, `log`, `tanh`,
/// `sqrt`, `abs`, `softmax` and `clip` keep the shape; `transpose` swaps the
/// dimensions of a matrix. Of `zeros`, `ones` and `reshape` of anything nothing is
/// said.
pub proof fn law_shapes_of_built_in_functions(
    b: BuiltinFn,
    s: ShapeView,
    lo: ShapeView,
    hi: ShapeView,
    d: Seq<DimView>,
    globals: ShapeGlobalsView,
    room: nat,
    fuel: nat,
)
    ensures
        b == BuiltinFn::Sum || b == BuiltinFn::Mean || b == BuiltinFn::MaxVal || b
            == BuiltinFn::MinVal || b == BuiltinFn::Norm ==> says(
            shape_apply(ShapeView::Builtin(b), s, globals, room, fuel),
            ShapeView::Scalar,
            fuel,
        ),
        b == BuiltinFn::Exp || b == BuiltinFn::Log || b == BuiltinFn::Tanh || b == BuiltinFn::Sqrt
            || b == BuiltinFn::Abs || b == BuiltinFn::Softmax ==> says(
            shape_apply(ShapeView::Builtin(b), s, globals, room, fuel),
            s,
            fuel,
        ),
        says(
            shape_apply(
                ShapeView::PartialBuiltin(BuiltinFn::Clip, seq![lo, hi]),
                s,
                globals,
                room,
                fuel,
            ),
            s,
            fuel,
        ),
        says(
            shape_apply(
                ShapeView::Builtin(BuiltinFn::Transpose),
                ShapeView::Tensor(d),
                globals,
                room,
                fuel,
            ),
            if d.len() == 2 {
                ShapeView::Tensor(seq![d[1], d[0]])
            } else {
                ShapeView::Unknown
            },
            fuel,
        ),
        !(s is Tensor) ==> says(
            shape_apply(ShapeView::Builtin(BuiltinFn::Transpose), s, globals, room, fuel),
            ShapeView::Unknown,
            fuel,
        ),
        b == BuiltinFn::Zeros || b == BuiltinFn::Ones ==> says(
            shape_apply(ShapeView::Builtin(b), s, globals, room, fuel),
            ShapeView::Unknown,
            fuel,
        ),
        says(
            shape_apply(
                ShapeView::PartialBuiltin(BuiltinFn::Reshape, seq![lo]),
                s,
                globals,
                room,
                fuel,
            ),
            ShapeView::Unknown,
            fuel,
        ),
{
    assert(seq![lo, hi].push(s) =~= seq![lo, hi, s]);
    assert(arity(BuiltinFn::Clip) == 3);
}

/// `flatten` multiplies the sizes of a matrix and `concat` adds those of two
/// vectors, where they are known; otherwise there is one dimension, of which
/// nothing is said.
pub proof fn law_sizes_of_flatten_and_concat(
    a: Seq<DimView>,
    b: Seq<DimView>,
    globals: ShapeGlobalsView,
    room: nat,
    fuel: nat,
)
    ensures
        ({
            let r = shape_apply(
                ShapeView::Builtin(BuiltinFn::Flatten),
                ShapeView::Tensor(a),
                globals,
                room,
                fuel,
            );
            &&& r.1 == fuel
            &&& a.len() == 2 ==> match (a[0], a[1]) {
                (DimView::Concrete(x), DimView::Concrete(y)) => x * y <= usize::MAX ==> says(
                    r,
                    ShapeView::Tensor(seq![DimView::Concrete((x * y) as usize)]),
                    fuel,
                ),
                _ => says(r, ShapeView::Tensor(seq![DimView::Unknown]), fuel),
            }
            &&& a.len() != 2 ==> says(r, ShapeView::Unknown, fuel)
        }),
        ({
            let r = shape_apply(
                ShapeView::PartialBuiltin(BuiltinFn::Concat, seq![ShapeView::Tensor(a)]),
                ShapeView::Tensor(b),
                globals,
                room,
                fuel,
            );
            &&& r.1 == fuel
            &&& a.len() == 1 && b.len() == 1 ==> match (a[0], b[0]) {
                (DimView::Concrete(x), DimView::Concrete(y)) => x + y <= usize::MAX ==> says(
                    r,
                    ShapeView::Tensor(seq![DimView::Concrete((x + y) as usize)]),
                    fuel,
                ),
                _ => says(r, ShapeView::Tensor(seq![DimView::Unknown]), fuel),
            }
            &&& a.len() != 1 || b.len() != 1 ==> says(r, ShapeView::Unknown, fuel)
        }),
{
    let x = ShapeView::Tensor(a);
    let y = ShapeView::Tensor(b);
    assert(seq![x].push(y) =~= seq![x, y]);
    if a.len() == 2 {
        if let (DimView::Concrete(x), DimView::Concrete(y)) = (a[0], a[1]) {
            assert(x * y >= 0) by (nonlinear_arith)
                requires
                    x >= 0,
                    y >= 0,
            ;
        }
    }
}

/// A derivative has the shape of what it is by, and an iteration that of what it
/// starts from, where the function that they call is not refused.
pub proof fn law_shapes_of_grad_and_iterate(
    f: ShapeView,
    x: ShapeView,
    n: ShapeView,
    globals: ShapeGlobalsView,
    room: nat,
    fuel: nat,
)
    ensures
        ({
            let call = shape_apply(f, x, globals, room, fuel);
            let grad = shape_apply(
                ShapeView::PartialBuiltin(BuiltinFn::Grad, seq![f]),
                x,
                globals,
                room,
                fuel,
            );
            let iterate = shape_apply(
                ShapeView::PartialBuiltin(BuiltinFn::Iterate, seq![x, n]),
                f,
                globals,
                room,
                fuel,
            );
            &&& call.0 matches Err(e) ==> grad == call && iterate == call
            &&& call.0 is Ok ==> says(grad, x, call.1) && says(iterate, x, call.1)
        }),
{
    assert(seq![f].push(x) =~= seq![f, x]);
    assert(seq![x, n].push(f) =~= seq![x, n, f]);
    reveal_with_fuel(shape_apply, 2);
    assert(arity(BuiltinFn::Grad) == 2 && arity(BuiltinFn::Iterate) == 3);
    assert(seq![f][0] == f && seq![x, n][0] == x);
}

/// Built-in functions of several arguments wait for them, and what is no
/// function gives nothing that is known.
pub proof fn law_shapes_of_waiting_functions(
    b: BuiltinFn,
    x: ShapeView,
    y: ShapeView,
    globals: ShapeGlobalsView,
    room: nat,
    fuel: nat,
)
    ensures
        b == BuiltinFn::Reshape || b == BuiltinFn::Grad || b == BuiltinFn::Concat || b
            == BuiltinFn::Iterate || b == BuiltinFn::Clip ==> says(
            shape_apply(ShapeView::Builtin(b), x, globals, room, fuel),
            ShapeView::PartialBuiltin(b, seq![x]),
            fuel,
        ),
        b == BuiltinFn::Iterate || b == BuiltinFn::Clip ==> says(
            shape_apply(
                ShapeView::PartialBuiltin(b, seq![x]),
                y,
                globals,
                room,
                fuel,
            ),
            ShapeView::PartialBuiltin(b, seq![x, y]),
            fuel,
        ),
        x is Scalar || x is Tensor || x is Unknown ==> says(
            shape_apply(x, y, globals, room, fuel),
            ShapeView::Unknown,
            fuel,
        ),
{
    assert(seq![x].push(y) =~= seq![x, y]);
}

/// A call has the shape of the body with the parameter bound to the shape of
/// the argument, in the local scope that the function was made in. It costs one
/// of the calls that may still be made; where there is none left, nothing is
/// said.
pub proof fn law_shapes_of_calls(
    param: Seq<char>,
    body: ExprView,
    locals: ShapeLocalsView,
    a: ShapeView,
    globals: ShapeGlobalsView,
    room: nat,
    fuel: nat,
)
    ensures
        ({
            let f = ShapeView::Closure { param, body, env: locals };
            let inner = ShapeEnvView {
                locals: ShapeLocalsView::Bound {
                    name: param,
                    value: Box::new(a),
                    parent: Box::new(locals),
                },
                globals,
            };
            &&& shape_apply(f, a, globals, room + 1, fuel + 1) == shape_model(
                body,
                inner,
                room,
                fuel,
            )
            &&& says(shape_apply(f, a, globals, 0, fuel), ShapeView::Unknown, fuel)
            &&& says(shape_apply(f, a, globals, room, 0), ShapeView::Unknown, 0)
        }),
{
}

// ---------------------------------------------------------------------------
// Shapes of expressions
// ---------------------------------------------------------------------------

/// A literal is a scalar; a name has the shape of the nearest thing bound to it;
/// a sign changes no shape; a function literal is that function.
pub proof fn law_shapes_of_simple_expressions(
    l: LiteralView,
    name: Seq<char>,
    other: Seq<char>,
    s: ShapeView,
    x: ExprView,
    env: ShapeEnvView,
    room: nat,
    fuel: nat,
)
    ensures
        says(shape_model(ExprView::Lit(l), env, room, fuel), ShapeView::Scalar, fuel),
        says(shape_model(ExprView::Var(name), env.bind(name, s), room, fuel), s, fuel),
        other != name ==> shape_model(ExprView::Var(other), env.bind(name, s), room, fuel)
            == shape_model(ExprView::Var(other), env, room, fuel),
        env.locals is Empty ==> says(
            shape_model(ExprView::Var(name), env, room, fuel),
            if env.globals.contains_key(name) {
                env.globals[name]
            } else {
                ShapeView::Unknown
            },
            fuel,
        ),
        shape_model(ExprView::UnaryMinus(Box::new(x)), env, room, fuel) == shape_model(
            x,
            env,
            room,
            fuel,
        ),
        says(
            shape_model(
                ExprView::Lambda { param: name, body: Box::new(x) },
                env,
                room,
                fuel,
            ),
            ShapeView::Closure { param: name, body: x, env: env.locals },
            fuel,
        ),
{
}

/// An operator works on the shapes of its operands, the left one first, and the
/// first error ends it.
pub proof fn law_shapes_of_operands(
    op: BinOpKind,
    left: ExprView,
    right: ExprView,
    env: ShapeEnvView,
    room: nat,
    fuel: nat,
)
    ensures
        ({
            let whole = shape_model(
                ExprView::BinOp { op, left: Box::new(left), right: Box::new(right) },
                env,
                room,
                fuel,
            );
            let l = shape_model(left, env, room, fuel);
            let r = shape_model(right, env, room, l.1);
            &&& l.0 is Err ==> whole == l
            &&& l.0 is Ok && r.0 is Err ==> whole == r
            &&& l.0 is Ok && r.0 is Ok ==> whole.0 == binop_shape(op, l.0->Ok_0, r.0->Ok_0)
                && whole.1 == r.1
        }),
{
}

/// `f a` applies the shape of `f` to that of `a`, and so does `a |> f`. But
/// `zeros` and `ones` of a literal have the shape that it writes out.
pub proof fn law_shapes_of_applications(
    func: ExprView,
    arg: ExprView,
    env: ShapeEnvView,
    room: nat,
    fuel: nat,
)
    ensures
        ({
            let whole = shape_model(
                ExprView::App(Box::new(func), Box::new(arg)),
                env,
                room,
                fuel,
            );
            let f = shape_model(func, env, room, fuel);
            let a = shape_model(arg, env, room, f.1);
            let fills = f.0 is Ok && (f.0->Ok_0 == ShapeView::Builtin(BuiltinFn::Zeros) || f.0->Ok_0
                == ShapeView::Builtin(BuiltinFn::Ones));
            &&& f.0 is Err ==> whole == f
            &&& f.0 is Ok && a.0 is Err ==> whole == a
            &&& f.0 is Ok && a.0 is Ok && !fills ==> whole == shape_apply(
                f.0->Ok_0,
                a.0->Ok_0,
                env.globals,
                room,
                a.1,
            )
            &&& arg matches ExprView::Lit(LiteralView::Int(n)) ==> fills && a.0 is Ok && 0 <= n
                <= 0x20_0000_0000_0000 && n <= usize::MAX ==> says(
                whole,
                ShapeView::Tensor(seq![DimView::Concrete(n as usize)]),
                a.1,
            )
        }),
        ({
            let whole = shape_model(
                ExprView::Pipe(Box::new(arg), Box::new(func)),
                env,
                room,
                fuel,
            );
            let a = shape_model(arg, env, room, fuel);
            let f = shape_model(func, env, room, a.1);
            let fills = f.0 is Ok && (f.0->Ok_0 == ShapeView::Builtin(BuiltinFn::Zeros) || f.0->Ok_0
                == ShapeView::Builtin(BuiltinFn::Ones));
            &&& a.0 is Err ==> whole == a
            &&& a.0 is Ok && f.0 is Err ==> whole == f
            &&& a.0 is Ok && f.0 is Ok && !fills ==> whole == shape_apply(
                f.0->Ok_0,
                a.0->Ok_0,
                env.globals,
                room,
                f.1,
            )
            &&& arg matches ExprView::Lit(LiteralView::Int(n)) ==> fills && a.0 is Ok && 0 <= n
                <= 0x20_0000_0000_0000 && n <= usize::MAX ==> says(
                whole,
                ShapeView::Tensor(seq![DimView::Concrete(n as usize)]),
                f.1,
            )
        }),
{
}

/// `zeros` or `ones` of one row of sizes has that row as its shape.
pub proof fn law_shapes_of_zeros_and_ones(
    b: BuiltinFn,
    name: Seq<char>,
    sizes: Seq<i64>,
    row: Seq<ExprView>,
    env: ShapeEnvView,
    room: nat,
    fuel: nat,
)
    requires
        b == BuiltinFn::Zeros || b == BuiltinFn::Ones,
        env.find(name) == Some(ShapeView::Builtin(b)),
        row.len() == sizes.len() > 0,
        forall|i: int|
            0 <= i < row.len() ==> #[trigger] row[i] == ExprView::Lit(LiteralView::Int(sizes[i]))
                && 0 <= sizes[i] <= 0x20_0000_0000_0000 && sizes[i] <= usize::MAX,
    ensures
        ({
            let whole = shape_model(
                ExprView::App(
                    Box::new(ExprView::Var(name)),
                    Box::new(ExprView::TensorLit(seq![row])),
                ),
                env,
                room,
                fuel,
            );
            &&& whole.0 matches Ok(ShapeView::Tensor(d))
            &&& whole.1 == fuel
            &&& d.len() == row.len()
            &&& forall|i: int|
                0 <= i < d.len() ==> #[trigger] d[i] == DimView::Concrete(sizes[i] as usize)
        }),
{
    let rows = seq![row];
    assert(rows[0] == row);
    assert forall|i: int, j: int| 0 <= i < rows.len() && 0 <= j < rows[i].len() implies is_number(
        #[trigger] rows[i][j],
    ) by {
        assert(row[j] == ExprView::Lit(LiteralView::Int(sizes[j])));
    }
    assert forall|i: int| 0 <= i < rows[0].len() implies crate::shape_stage::literal_size(
        #[trigger] rows[0][i],
    ) is Some by {
        assert(row[i] == ExprView::Lit(LiteralView::Int(sizes[i])));
    }
    let env2 = EnvView { locals: crate::value::LocalsView::Empty, globals: Map::empty() };
    let m = |q: crate::num::QueryView| Seq::<u64>::empty();
    lemma_number_rows(m, rows, 1, env2, 0, Seq::empty(), env, room, fuel);
    assert(is_uniform(rows.take(1)));
    reveal_with_fuel(shape_model, 2);
    assert(shape_model(ExprView::TensorLit(rows), env, room, fuel).0 is Ok);
    let dims = crate::shape_stage::literal_shape(ExprView::TensorLit(rows));
    assert(dims is Some);
    assert forall|i: int| 0 <= i < row.len() implies #[trigger] dims->0[i] == DimView::Concrete(
        sizes[i] as usize,
    ) by {
        assert(row[i] == ExprView::Lit(LiteralView::Int(sizes[i])));
    }
}

/// `let x = v in b` has the shape of `b` with `x` bound to the shape of `v`.
pub proof fn law_shape_of_let(
    name: Seq<char>,
    value: ExprView,
    body: ExprView,
    env: ShapeEnvView,
    room: nat,
    fuel: nat,
)
    ensures
        ({
            let whole = shape_model(
                ExprView::Let {
                    name,
                    params: Seq::empty(),
                    value: Box::new(value),
                    body: Box::new(body),
                },
                env,
                room,
                fuel,
            );
            let v = shape_model(value, env, room, fuel);
            &&& v.0 is Err ==> whole.0 == v.0
            &&& v.0 matches Ok(s) ==> whole == shape_model(
                body,
                ShapeEnvView {
                    locals: ShapeLocalsView::Bound {
                        name,
                        value: Box::new(s),
                        parent: Box::new(env.locals),
                    },
                    globals: env.globals,
                },
                room,
                v.1,
            )
        }),
{
}

/// `if c then a else b` has the shape of `a` and `b` where that is certainly the
/// same; where it is not, nothing is said. All three are checked.
pub proof fn law_shape_of_conditions(
    cond: ExprView,
    then: ExprView,
    else_: ExprView,
    env: ShapeEnvView,
    room: nat,
    fuel: nat,
)
    ensures
        ({
            let whole = shape_model(
                ExprView::If {
                    cond: Box::new(cond),
                    then: Box::new(then),
                    else_: Box::new(else_),
                },
                env,
                room,
                fuel,
            );
            let c = shape_model(cond, env, room, fuel);
            let a = shape_model(then, env, room, c.1);
            let b = shape_model(else_, env, room, a.1);
            &&& c.0 matches Err(e) ==> whole.0 == Err::<ShapeView, ShapeErrorView>(e)
            &&& c.0 is Ok && a.0 is Err ==> whole.0 == a.0
            &&& c.0 is Ok && a.0 is Ok && b.0 is Err ==> whole.0 == b.0
            &&& c.0 is Ok && a.0 is Ok && b.0 is Ok ==> says(
                whole,
                if (a.0->Ok_0 is Scalar || a.0->Ok_0 is Tensor) && a.0->Ok_0 == b.0->Ok_0 {
                    a.0->Ok_0
                } else {
                    ShapeView::Unknown
                },
                b.1,
            )
        }),
{
}

// ---------------------------------------------------------------------------
// Annotations
// ---------------------------------------------------------------------------

/// What a dimension of a type says.
pub open spec fn said_dim(d: TypeDimView) -> DimView {
    match d {
        TypeDimView::Fixed(n) => DimView::Concrete(n),
        TypeDimView::Var(s) => DimView::Var(s),
        TypeDimView::Expr(_) => DimView::Unknown,
    }
}

/// What the dimensions of a type say.
pub open spec fn said_dims(dims: Seq<TypeDimView>) -> Seq<DimView> {
    Seq::new(dims.len(), |i: int| said_dim(dims[i]))
}

/// What a type says of a shape: the types of numbers and truth values say that
/// it is a scalar, a tensor type says its dimensions.
pub open spec fn said(ty: TypeExprView) -> ShapeView {
    match ty {
        TypeExprView::Tensor(dims) => ShapeView::Tensor(said_dims(dims)),
        TypeExprView::Named(n) => if n == "Int"@ || n == "Float"@ || n == "Bool"@ || n == "f32"@
            || n == "f64"@ {
            ShapeView::Scalar
        } else {
            ShapeView::Unknown
        },
        _ => ShapeView::Unknown,
    }
}

/// Whether a name is annotated with a type: the last annotation of it says so.
pub open spec fn is_annotated(items: Seq<TopLevelView>, name: Seq<char>, ty: TypeExprView) -> bool {
    exists|j: int|
        0 <= j < items.len() && #[trigger] items[j] == (TopLevelView::TypeAnnotation { name, ty })
            && forall|k: int|
            j < k < items.len() ==> !((#[trigger] items[k]) matches TopLevelView::TypeAnnotation {
                name: other,
                ..
            } && other == name)
}

/// Whether a name is nowhere annotated.
pub open spec fn is_plain(items: Seq<TopLevelView>, name: Seq<char>) -> bool {
    forall|k: int|
        0 <= k < items.len() ==> !((#[trigger] items[k]) matches TopLevelView::TypeAnnotation {
            name: other,
            ..
        } && other == name)
}

/// Whether a tensor type cannot be that of a tensor with certain dimensions:
/// there are more or fewer, or one of them cannot be what the type says.
pub open spec fn is_contradicted(dims: Seq<TypeDimView>, inferred: Seq<DimView>) -> bool {
    dims.len() != inferred.len() || exists|p: int|
        0 <= p < dims.len() && cannot_be(said_dim(dims[p]), #[trigger] inferred[p])
}

proof fn lemma_annotation(
    items: Seq<TopLevelView>,
    name: Seq<char>,
    ty: TypeExprView,
    j: int,
    n: nat,
)
    requires
        0 <= j < n <= items.len(),
        items[j] == (TopLevelView::TypeAnnotation { name, ty }),
        forall|k: int|
            j < k < items.len() ==> !((#[trigger] items[k]) matches TopLevelView::TypeAnnotation {
                name: other,
                ..
            } && other == name),
    ensures
        annotation_of(items, n, name) == Some(ty),
    decreases n,
{
    if n - 1 > j {
        let last = items[n - 1];
        lemma_annotation(items, name, ty, j, (n - 1) as nat);
    }
}

proof fn lemma_annotated(items: Seq<TopLevelView>, name: Seq<char>, ty: TypeExprView)
    requires
        is_annotated(items, name, ty),
    ensures
        annotation_of(items, items.len(), name) == Some(ty),
{
    let j = choose|j: int|
        0 <= j < items.len() && #[trigger] items[j] == (TopLevelView::TypeAnnotation { name, ty })
            && forall|k: int|
            j < k < items.len() ==> !((#[trigger] items[k]) matches TopLevelView::TypeAnnotation {
                name: other,
                ..
            } && other == name);
    lemma_annotation(items, name, ty, j, items.len());
}

proof fn lemma_not_annotated(items: Seq<TopLevelView>, name: Seq<char>, n: nat)
    requires
        is_plain(items, name),
        n <= items.len(),
    ensures
        annotation_of(items, n, name) is None,
    decreases n,
{
    if n > 0 {
        let last = items[n - 1];
        lemma_not_annotated(items, name, (n - 1) as nat);
    }
}

proof fn lemma_values_stop(
    items: Seq<TopLevelView>,
    j: nat,
    n: nat,
    globals: ShapeGlobalsView,
    fuel: nat,
)
    requires
        j <= n <= items.len(),
        values_shaped(items, j, globals, fuel).0 is Err,
    ensures
        values_shaped(items, n, globals, fuel) == values_shaped(items, j, globals, fuel),
    decreases n - j,
{
    if j < n {
        lemma_values_stop(items, j, (n - 1) as nat, globals, fuel);
    }
}

proof fn lemma_functions_stop(
    items: Seq<TopLevelView>,
    j: nat,
    n: nat,
    globals: ShapeGlobalsView,
    fuel: nat,
)
    requires
        j <= n <= items.len(),
        functions_checked(items, j, globals, fuel).0 is Err,
    ensures
        functions_checked(items, n, globals, fuel) == functions_checked(items, j, globals, fuel),
    decreases n - j,
{
    if j < n {
        lemma_functions_stop(items, j, (n - 1) as nat, globals, fuel);
    }
}

/// What a program has before its first value is checked.
pub open spec fn functions_of(items: Seq<TopLevelView>) -> ShapeGlobalsView {
    functions_shaped(items, items.len(), with_shape_builtins(Map::empty()))
}

/// A value is checked when those before it have been. Where its body certainly
/// has a shape that contradicts its annotation, at whatever dimension, the
/// program is refused for that. Otherwise its name stands for the shape that the
/// annotation says, if that is a tensor, and else for the shape of the body.
pub proof fn law_values_are_held_to_their_annotations(
    items: Seq<TopLevelView>,
    k: nat,
    name: Seq<char>,
    body: ExprView,
    ty: TypeExprView,
    before: ShapeGlobalsView,
    fuel: nat,
    s: ShapeView,
    left: nat,
)
    requires
        k < items.len(),
        items[k as int] == (TopLevelView::Binding { name, params: Seq::empty(), body }),
        values_shaped(items, k, functions_of(items), 100_000) == (
            Ok::<ShapeGlobalsView, ShapeErrorView>(before),
            fuel,
        ),
        shape_model(
            body,
            ShapeEnvView { locals: ShapeLocalsView::Empty, globals: before },
            64,
            fuel,
        ) == (Ok::<ShapeView, ShapeErrorView>(s), left),
    ensures
        is_annotated(items, name, ty) ==> {
            &&& (ty, s) matches (TypeExprView::Tensor(dims), ShapeView::Tensor(inferred))
                ==> is_contradicted(dims, inferred) ==> program_shape(items) == Err::<
                ShapeView,
                ShapeErrorView,
            >(
                ShapeErrorView::AnnotationMismatch {
                    name,
                    declared: said_dims(dims),
                    inferred,
                },
            )
            &&& ty matches TypeExprView::Tensor(dims) ==> !(s matches ShapeView::Tensor(inferred)
                && is_contradicted(dims, inferred)) ==> values_shaped(
                items,
                k + 1,
                functions_of(items),
                100_000,
            ) == (
                Ok::<ShapeGlobalsView, ShapeErrorView>(
                    before.insert(name, ShapeView::Tensor(said_dims(dims))),
                ),
                left,
            )
            &&& !(ty is Tensor) ==> values_shaped(items, k + 1, functions_of(items), 100_000) == (
                Ok::<ShapeGlobalsView, ShapeErrorView>(before.insert(name, s)),
                left,
            )
        },
        is_plain(items, name) ==> values_shaped(items, k + 1, functions_of(items), 100_000) == (
            Ok::<ShapeGlobalsView, ShapeErrorView>(before.insert(name, s)),
            left,
        ),
{
    if is_annotated(items, name, ty) {
        lemma_annotated(items, name, ty);
        assert(crate::shape_stage::type_shape(ty) =~= said(ty));
        if let (TypeExprView::Tensor(dims), ShapeView::Tensor(inferred)) = (ty, s) {
            let d = said_dims(dims);
            if is_contradicted(dims, inferred) {
                if dims.len() == inferred.len() {
                    let p = choose|p: int|
                        0 <= p < dims.len() && cannot_be(
                            said_dim(dims[p]),
                            #[trigger] inferred[p],
                        );
                    assert(crate::shape_stage::dims_clash(d[p], inferred[p]));
                }
                lemma_values_stop(items, k + 1, items.len(), functions_of(items), 100_000);
            } else {
                assert forall|p: int| 0 <= p < d.len() implies !(
                #[trigger] crate::shape_stage::dims_clash(d[p], inferred[p])) by {
                    assert(!cannot_be(said_dim(dims[p]), inferred[p]));
                }
            }
        }
    }
    if is_plain(items, name) {
        lemma_not_annotated(items, name, items.len());
    }
}

/// A program whose first definition is a tensor literal of numbers, under an
/// annotation that any of its dimensions contradicts, is refused.
pub proof fn law_literal_against_its_annotation(
    items: Seq<TopLevelView>,
    name: Seq<char>,
    dims: Seq<TypeDimView>,
    rows: Seq<Seq<ExprView>>,
    shape: Seq<usize>,
)
    requires
        items.len() >= 2,
        items[0] == (TopLevelView::TypeAnnotation { name, ty: TypeExprView::Tensor(dims) }),
        items[1] == (TopLevelView::Binding {
            name,
            params: Seq::empty(),
            body: ExprView::TensorLit(rows),
        }),
        is_annotated(items, name, TypeExprView::Tensor(dims)),
        holds_numbers(rows),
        is_uniform(rows),
        rows.len() > 0,
        rows[0].len() > 0,
        rows.len() <= usize::MAX,
        rows[0].len() <= usize::MAX,
        shape == if rows.len() == 1 {
            seq![rows[0].len() as usize]
        } else {
            seq![rows.len() as usize, rows[0].len() as usize]
        },
        dims.len() != shape.len() || exists|p: int|
            0 <= p < dims.len() && #[trigger] dims[p] is Fixed && dims[p]->Fixed_0 != shape[p],
    ensures
        program_shape(items) == Err::<ShapeView, ShapeErrorView>(
            ShapeErrorView::AnnotationMismatch {
                name,
                declared: said_dims(dims),
                inferred: concrete_dims(shape),
            },
        ),
{
    let body = ExprView::TensorLit(rows);
    let before = functions_of(items);
    let env = ShapeEnvView { locals: ShapeLocalsView::Empty, globals: before };
    let env2 = EnvView { locals: crate::value::LocalsView::Empty, globals: Map::empty() };
    let m = |q: crate::num::QueryView| Seq::<u64>::empty();
    reveal_with_fuel(values_shaped, 3);
    assert(values_shaped(items, 1, before, 100_000) == (
        Ok::<ShapeGlobalsView, ShapeErrorView>(before),
        100_000nat,
    ));
    lemma_number_rows(m, rows, rows.len(), env2, 0, Seq::empty(), env, 64, 100_000);
    assert(rows.take(rows.len() as int) =~= rows);
    let inferred = concrete_dims(shape);
    let s = ShapeView::Tensor(inferred);
    let found = shape_model(body, env, 64, 100_000);
    assert(found.0->Ok_0->Tensor_0 =~= inferred);
    assert(found == (Ok::<ShapeView, ShapeErrorView>(s), 100_000nat));
    if dims.len() == shape.len() {
        let p = choose|p: int|
            0 <= p < dims.len() && #[trigger] dims[p] is Fixed && dims[p]->Fixed_0 != shape[p];
        assert(cannot_be(said_dim(dims[p]), inferred[p]));
    }
    law_values_are_held_to_their_annotations(
        items,
        1,
        name,
        body,
        TypeExprView::Tensor(dims),
        before,
        100_000,
        s,
        100_000,
    );
}

/// The type of a function of several parameters.
pub open spec fn arrows(args: Seq<TypeExprView>, ret: TypeExprView) -> TypeExprView
    decreases args.len(),
{
    if args.len() == 0 {
        ret
    } else {
        TypeExprView::Arrow(
            Box::new(args[0]),
            Box::new(arrows(args.subrange(1, args.len() as int), ret)),
        )
    }
}

/// The first `n` parameters, each bound to what its type says, the last of them
/// nearest. Of one without a type nothing is said.
pub open spec fn parameters_as_said(
    params: Seq<Seq<char>>,
    args: Seq<TypeExprView>,
    n: nat,
) -> ShapeLocalsView
    decreases n,
{
    if n == 0 {
        ShapeLocalsView::Empty
    } else {
        ShapeLocalsView::Bound {
            name: params[n - 1],
            value: Box::new(
                if n <= args.len() {
                    said(args[n - 1])
                } else {
                    ShapeView::Unknown
                },
            ),
            parent: Box::new(parameters_as_said(params, args, (n - 1) as nat)),
        }
    }
}

proof fn lemma_arrows(args: Seq<TypeExprView>, dims: Seq<TypeDimView>, n: nat)
    requires
        args.len() <= n,
    ensures
        ({
            let ret = TypeExprView::Tensor(dims);
            let ty = arrows(args, ret);
            &&& crate::shape_stage::param_shapes(ty, n) == Seq::new(
                args.len(),
                |i: int| said(args[i]),
            )
            &&& crate::shape_stage::return_shape(ty, n) == ShapeView::Tensor(said_dims(dims))
        }),
    decreases args.len(),
{
    let ret = TypeExprView::Tensor(dims);
    assert(crate::shape_stage::type_shape(ret) =~= said(ret));
    let shapes = Seq::new(args.len(), |i: int| said(args[i]));
    if args.len() == 0 {
        assert(crate::shape_stage::param_shapes(ret, n) =~= shapes);
    } else {
        let rest = args.subrange(1, args.len() as int);
        lemma_arrows(rest, dims, (n - 1) as nat);
        assert(crate::shape_stage::type_shape(args[0]) =~= said(args[0]));
        assert(seq![said(args[0])] + Seq::new(rest.len(), |i: int| said(rest[i])) =~= shapes);
    }
}

proof fn lemma_parameters(
    globals: ShapeGlobalsView,
    params: Seq<Seq<char>>,
    args: Seq<TypeExprView>,
    n: nat,
)
    requires
        n <= params.len(),
        args.len() <= params.len(),
    ensures
        crate::shape_stage::params_bound(
            ShapeEnvView { locals: ShapeLocalsView::Empty, globals },
            params,
            Seq::new(args.len(), |i: int| said(args[i])),
            n,
        ) == (ShapeEnvView { locals: parameters_as_said(params, args, n), globals }),
    decreases n,
{
    if n > 0 {
        lemma_parameters(globals, params, args, (n - 1) as nat);
    }
}

/// A function under an annotation is checked when all values and the functions
/// before it have been. Its parameters have the shapes that their types say; and
/// where its body is refused for itself, or certainly has a shape that
/// contradicts the type of the result, at whatever dimension, the program is
/// refused for that. Otherwise the next item is checked.
pub proof fn law_functions_are_held_to_their_annotations(
    items: Seq<TopLevelView>,
    k: nat,
    name: Seq<char>,
    params: Seq<Seq<char>>,
    body: ExprView,
    args: Seq<TypeExprView>,
    dims: Seq<TypeDimView>,
    globals: ShapeGlobalsView,
    fuel: nat,
    left: nat,
)
    requires
        k < items.len(),
        items[k as int] == (TopLevelView::Binding { name, params, body }),
        params.len() > 0,
        args.len() <= params.len(),
        is_annotated(items, name, arrows(args, TypeExprView::Tensor(dims))),
        values_shaped(items, items.len(), functions_of(items), 100_000) == (
            Ok::<ShapeGlobalsView, ShapeErrorView>(globals),
            fuel,
        ),
        functions_checked(items, k, globals, fuel) == (Ok::<(), ShapeErrorView>(()), left),
    ensures
        ({
            let inner = ShapeEnvView {
                locals: parameters_as_said(params, args, params.len()),
                globals,
            };
            match shape_model(body, inner, 64, left).0 {
                Err(e) => program_shape(items) == Err::<ShapeView, ShapeErrorView>(e),
                Ok(ShapeView::Tensor(inferred)) => is_contradicted(dims, inferred)
                    ==> program_shape(items) == Err::<ShapeView, ShapeErrorView>(
                    ShapeErrorView::AnnotationMismatch {
                        name,
                        declared: said_dims(dims),
                        inferred,
                    },
                ),
                _ => true,
            }
        }),
        ({
            let inner = ShapeEnvView {
                locals: parameters_as_said(params, args, params.len()),
                globals,
            };
            let found = shape_model(body, inner, 64, left);
            found.0 is Ok && !(found.0->Ok_0 matches ShapeView::Tensor(inferred)
                && is_contradicted(dims, inferred)) ==> functions_checked(
                items,
                k + 1,
                globals,
                fuel,
            ) == (Ok::<(), ShapeErrorView>(()), found.1)
        }),
{
    let ty = arrows(args, TypeExprView::Tensor(dims));
    lemma_annotated(items, name, ty);
    lemma_arrows(args, dims, params.len());
    lemma_parameters(globals, params, args, params.len());
    let inner = ShapeEnvView { locals: parameters_as_said(params, args, params.len()), globals };
    let found = shape_model(body, inner, 64, left).0;
    let d = said_dims(dims);
    if let Ok(ShapeView::Tensor(inferred)) = found {
        if is_contradicted(dims, inferred) && dims.len() == inferred.len() {
            let p = choose|p: int|
                0 <= p < dims.len() && cannot_be(said_dim(dims[p]), #[trigger] inferred[p]);
            assert(crate::shape_stage::dims_clash(d[p], inferred[p]));
        }
    }
    if let Ok(ShapeView::Tensor(inferred)) = found {
        if !is_contradicted(dims, inferred) {
            assert forall|p: int| 0 <= p < d.len() implies !(
            #[trigger] crate::shape_stage::dims_clash(d[p], inferred[p])) by {
                assert(!cannot_be(said_dim(dims[p]), inferred[p]));
            }
        }
    }
    if functions_checked(items, k + 1, globals, fuel).0 is Err {
        lemma_functions_stop(items, k + 1, items.len(), globals, fuel);
    }
}

/// The shape of a program is that of `main`; of a program without `main` nothing
/// is said. A program that is refused for a value is refused before any function
/// is held to its annotation.
pub proof fn law_shape_of_a_program(items: Seq<TopLevelView>, globals: ShapeGlobalsView, fuel: nat)
    ensures
        values_shaped(items, items.len(), functions_of(items), 100_000) == (
            Ok::<ShapeGlobalsView, ShapeErrorView>(globals),
            fuel,
        ) && functions_checked(items, items.len(), globals, fuel).0 is Ok ==> program_shape(items)
            == Ok::<ShapeView, ShapeErrorView>(
            if globals.contains_key("main"@) {
                globals["main"@]
            } else {
                ShapeView::Unknown
            },
        ),
        values_shaped(items, items.len(), functions_of(items), 100_000).0 matches Err(e)
            ==> program_shape(items) == Err::<ShapeView, ShapeErrorView>(e),
{
}

/// What the built-in functions are called, as far as shapes go: what they are
/// called for evaluation.
pub proof fn law_shape_names_of_built_in_functions(name: Seq<char>)
    ensures
        ({
            let g = with_shape_builtins(Map::empty());
            let v = crate::interpreter::with_builtins(Map::empty());
            &&& g.contains_key(name) <==> v.contains_key(name)
            &&& g.contains_key(name) ==> {
                &&& v[name] matches ValueView::Builtin(b)
                &&& g[name] == ShapeView::Builtin(b)
            }
        }),
{
    lemma_names_apart();
}

/// `let f x = v in b` has the shape of `b` with `f` bound to the function of `x`
/// that `v` is; with more parameters, to the function of the first that gives the
/// function of the others.
pub proof fn law_shape_of_let_functions(
    name: Seq<char>,
    param: Seq<char>,
    rest: Seq<Seq<char>>,
    value: ExprView,
    body: ExprView,
    env: ShapeEnvView,
    a: ShapeView,
    globals: ShapeGlobalsView,
    room: nat,
    fuel: nat,
)
    ensures
        ({
            let f = shape_model(
                ExprView::Let {
                    name,
                    params: seq![param] + rest,
                    value: Box::new(value),
                    body: Box::new(ExprView::Var(name)),
                },
                env,
                room,
                fuel,
            );
            let inner = ShapeEnvView {
                locals: ShapeLocalsView::Bound {
                    name: param,
                    value: Box::new(a),
                    parent: Box::new(env.locals),
                },
                globals,
            };
            &&& f.0 matches Ok(s)
            &&& f.1 == fuel
            &&& shape_model(
                ExprView::Let {
                    name,
                    params: seq![param] + rest,
                    value: Box::new(value),
                    body: Box::new(body),
                },
                env,
                room,
                fuel,
            ) == shape_model(body, env.bind(name, s), room, fuel)
            &&& rest.len() == 0 ==> shape_apply(s, a, globals, room + 1, fuel + 1) == shape_model(
                value,
                inner,
                room,
                fuel,
            )
            &&& rest.len() > 0 ==> shape_apply(s, a, globals, room + 1, fuel + 1) == shape_model(
                ExprView::Let {
                    name,
                    params: rest,
                    value: Box::new(value),
                    body: Box::new(ExprView::Var(name)),
                },
                inner,
                room,
                fuel,
            )
        }),
{
    let params = seq![param] + rest;
    assert(params.subrange(1, params.len() as int) =~= rest);
    let s = function_shape(params, value, env.locals);
    assert(env.bind(name, s).find(name) == Some(s));
    let itself = ExprView::Var(name);
    assert(says(shape_model(itself, env.bind(name, s), room, fuel), s, fuel));
    if rest.len() > 0 {
        let inner = (ShapeEnvView { locals: env.locals, globals }).bind(param, a);
        let w = function_shape(rest, value, inner.locals);
        assert(inner.bind(name, w).find(name) == Some(w));
        assert(says(shape_model(itself, inner.bind(name, w), room, fuel), w, fuel));
        let others = crate::interpreter::curried(rest, value);
        assert(others is Lambda);
        assert(says(shape_model(others, inner, room, fuel), w, fuel));
    }
}

proof fn lemma_shaped_prefix(
    items: Seq<TopLevelView>,
    item: TopLevelView,
    n: nat,
    globals: ShapeGlobalsView,
)
    requires
        n <= items.len(),
    ensures
        functions_shaped(items.push(item), n, globals) == functions_shaped(items, n, globals),
    decreases n,
{
    if n > 0 {
        lemma_shaped_prefix(items, item, (n - 1) as nat, globals);
        assert(items.push(item)[n - 1] == items[n - 1]);
    }
}

/// A function that is defined last is the function of its parameters that its
/// body is, in place of an earlier one of its name; a value is no function.
pub proof fn law_last_function_has_a_shape(
    items: Seq<TopLevelView>,
    name: Seq<char>,
    params: Seq<Seq<char>>,
    body: ExprView,
    globals: ShapeGlobalsView,
)
    ensures
        ({
            let longer = items.push(TopLevelView::Binding { name, params, body });
            let before = functions_shaped(items, items.len(), globals);
            let after = functions_shaped(longer, longer.len(), globals);
            &&& params.len() == 0 ==> after == before
            &&& params.len() == 1 ==> after == before.insert(
                name,
                ShapeView::Closure { param: params[0], body, env: ShapeLocalsView::Empty },
            )
            &&& params.len() == 2 ==> after == before.insert(
                name,
                ShapeView::Closure {
                    param: params[0],
                    body: ExprView::Lambda { param: params[1], body: Box::new(body) },
                    env: ShapeLocalsView::Empty,
                },
            )
        }),
{
    let item = TopLevelView::Binding { name, params, body };
    let longer = items.push(item);
    lemma_shaped_prefix(items, item, items.len(), globals);
    assert(longer[items.len() as int] == item);
    if params.len() == 1 {
        assert(params.subrange(1, 1) =~= Seq::<Seq<char>>::empty());
    }
    if params.len() == 2 {
        let rest = params.subrange(1, 2);
        assert(rest[0] == params[1]);
        assert(rest.subrange(1, 1) =~= Seq::<Seq<char>>::empty());
        reveal_with_fuel(crate::interpreter::curried, 3);
    }
}

proof fn lemma_scalar_row(row: Seq<ExprView>, n: nat, env: ShapeEnvView, room: nat, fuel: nat)
    requires
        n <= row.len(),
        forall|j: int|
            0 <= j < row.len() ==> says(
                shape_model(#[trigger] row[j], env, room, fuel),
                ShapeView::Scalar,
                fuel,
            ),
    ensures
        shape_row(row, n, env, room, fuel) == (Ok::<bool, ShapeErrorView>(true), fuel),
    decreases n,
{
    if n > 0 {
        lemma_scalar_row(row, (n - 1) as nat, env, room, fuel);
        assert(says(shape_model(row[n - 1], env, room, fuel), ShapeView::Scalar, fuel));
    }
}

proof fn lemma_scalar_rows(
    rows: Seq<Seq<ExprView>>,
    n: nat,
    env: ShapeEnvView,
    room: nat,
    fuel: nat,
)
    requires
        n <= rows.len(),
        forall|i: int| 0 <= i < n ==> (#[trigger] rows[i]).len() == rows[0].len(),
        forall|i: int, j: int|
            0 <= i < rows.len() && 0 <= j < rows[i].len() ==> says(
                shape_model(#[trigger] rows[i][j], env, room, fuel),
                ShapeView::Scalar,
                fuel,
            ),
    ensures
        shape_rows(rows, n, env, room, fuel) == (Ok::<bool, ShapeErrorView>(true), fuel),
    decreases n,
{
    if n > 0 {
        lemma_scalar_rows(rows, (n - 1) as nat, env, room, fuel);
        let row = rows[n - 1];
        assert forall|j: int| 0 <= j < row.len() implies says(
            shape_model(#[trigger] row[j], env, room, fuel),
            ShapeView::Scalar,
            fuel,
        ) by {
            assert(says(shape_model(rows[n - 1][j], env, room, fuel), ShapeView::Scalar, fuel));
        }
        lemma_scalar_row(row, row.len(), env, room, fuel);
        assert(row.len() == rows[0].len());
    }
}

/// A tensor literal of scalars has one dimension for its elements, or one for its
/// rows and one for their elements; a row of another length than the first is
/// refused.
pub proof fn law_shapes_of_tensor_literals(
    rows: Seq<Seq<ExprView>>,
    k: int,
    env: ShapeEnvView,
    room: nat,
    fuel: nat,
)
    requires
        rows.len() > 0,
        rows[0].len() > 0,
        forall|i: int, j: int|
            0 <= i < rows.len() && 0 <= j < rows[i].len() ==> says(
                shape_model(#[trigger] rows[i][j], env, room, fuel),
                ShapeView::Scalar,
                fuel,
            ),
        0 < k <= rows.len(),
        forall|i: int| 0 <= i < k ==> (#[trigger] rows[i]).len() == rows[0].len(),
        k < rows.len() ==> rows[k].len() != rows[0].len(),
    ensures
        ({
            let whole = shape_model(ExprView::TensorLit(rows), env, room, fuel);
            let cols = DimView::Concrete(rows[0].len() as usize);
            &&& k == rows.len() && k == 1 ==> says(whole, ShapeView::Tensor(seq![cols]), fuel)
            &&& k == rows.len() && k > 1 ==> says(
                whole,
                ShapeView::Tensor(seq![DimView::Concrete(rows.len() as usize), cols]),
                fuel,
            )
            &&& k < rows.len() ==> whole.0 == Err::<ShapeView, ShapeErrorView>(
                ShapeErrorView::NonUniformTensor,
            )
        }),
{
    lemma_scalar_rows(rows, k as nat, env, room, fuel);
    if k < rows.len() {
        assert(shape_rows(rows, (k + 1) as nat, env, room, fuel).0 == Err::<bool, ShapeErrorView>(
            ShapeErrorView::NonUniformTensor,
        ));
        lemma_rows_stop(rows, (k + 1) as nat, rows.len(), env, room, fuel);
    }
}

proof fn lemma_rows_stop(
    rows: Seq<Seq<ExprView>>,
    j: nat,
    n: nat,
    env: ShapeEnvView,
    room: nat,
    fuel: nat,
)
    requires
        j <= n <= rows.len(),
        shape_rows(rows, j, env, room, fuel).0 is Err,
    ensures
        shape_rows(rows, n, env, room, fuel) == shape_rows(rows, j, env, room, fuel),
    decreases n - j,
{
    if j < n {
        lemma_rows_stop(rows, j, (n - 1) as nat, env, room, fuel);
    }
}

/// Of a tensor literal without elements the size is known; of one with an element
/// that is not certainly a scalar nothing is said, and one with an element that is
/// refused is refused.
pub proof fn law_shapes_of_other_literals(
    e: ExprView,
    env: ShapeEnvView,
    room: nat,
    fuel: nat,
)
    ensures
        says(
            shape_model(ExprView::TensorLit(Seq::empty()), env, room, fuel),
            ShapeView::Tensor(seq![DimView::Concrete(0)]),
            fuel,
        ),
        ({
            let x = shape_model(e, env, room, fuel);
            let whole = shape_model(ExprView::TensorLit(seq![seq![e]]), env, room, fuel);
            &&& x.0 matches Err(error) ==> whole.0 == Err::<ShapeView, ShapeErrorView>(error)
            &&& x.0 matches Ok(s) ==> says(
                whole,
                if s is Scalar {
                    ShapeView::Tensor(seq![DimView::Concrete(1)])
                } else {
                    ShapeView::Unknown
                },
                x.1,
            )
        }),
{
    let row = seq![e];
    let rows = seq![row];
    assert(rows[0] == row && row[0] == e);
    let x = shape_model(e, env, room, fuel);
    assert(shape_row(row, 0, env, room, fuel) == (Ok::<bool, ShapeErrorView>(true), fuel));
    assert(shape_rows(rows, 0, env, room, fuel) == (Ok::<bool, ShapeErrorView>(true), fuel));
    let cells = shape_row(row, 1, env, room, fuel);
    assert(cells.1 == x.1);
    assert(x.0 matches Ok(s) ==> cells.0 == Ok::<bool, ShapeErrorView>(s is Scalar));
    assert(x.0 matches Err(error) ==> cells.0 == Err::<bool, ShapeErrorView>(error));
    assert(shape_rows(rows, 1, env, room, fuel) == cells);
}

/// A program with a value whose body is refused is refused for that, where the
/// values before it are not.
pub proof fn law_refused_values_refuse_the_program(
    items: Seq<TopLevelView>,
    k: nat,
    name: Seq<char>,
    body: ExprView,
    before: ShapeGlobalsView,
    fuel: nat,
    e: ShapeErrorView,
)
    requires
        k < items.len(),
        items[k as int] == (TopLevelView::Binding { name, params: Seq::empty(), body }),
        values_shaped(items, k, functions_of(items), 100_000) == (
            Ok::<ShapeGlobalsView, ShapeErrorView>(before),
            fuel,
        ),
        shape_model(
            body,
            ShapeEnvView { locals: ShapeLocalsView::Empty, globals: before },
            64,
            fuel,
        ).0 == Err::<ShapeView, ShapeErrorView>(e),
    ensures
        program_shape(items) == Err::<ShapeView, ShapeErrorView>(e),
{
    lemma_values_stop(items, k + 1, items.len(), functions_of(items), 100_000);
}

// ---------------------------------------------------------------------------
// What results stand for
// ---------------------------------------------------------------------------

/// A result agrees with a meaning only where it gives that shape, or fails with
/// that error, and as many calls may still be made.
pub proof fn law_shape_results_agree_exactly(
    r: Result<ShapeType, ShapeError>,
    before: Budget,
    after: Budget,
    s: ShapeView,
    e: ShapeErrorView,
    fuel: nat,
)
    ensures
        shape_is(r, Ok(s)) <==> r is Ok && r->Ok_0@ == s,
        shape_is(r, Err(e)) <==> r is Err && r->Err_0@ == e,
        shaped_is(r, &before, &after, (Ok(s), fuel)) ==> r is Ok && r->Ok_0@ == s && after.fuel
            == fuel && after.depth == before.depth,
        shaped_is(r, &before, &after, (Err(e), fuel)) ==> r is Err && r->Err_0@ == e && after.fuel
            == fuel && after.depth == before.depth,
        before.depth <= 64 ==> before.room() == 64 - before.depth,
{
}

/// A shape is what it says, dimension by dimension.
pub proof fn law_shapes_are_what_they_are(n: usize, name: String, dims: Vec<DimVal>, b: BuiltinFn)
    ensures
        DimVal::Concrete(n)@ == DimView::Concrete(n),
        DimVal::Var(name)@ == DimView::Var(name@),
        DimVal::Unknown@ == DimView::Unknown,
        ShapeType::Scalar@ == ShapeView::Scalar,
        ShapeType::Unknown@ == ShapeView::Unknown,
        ShapeType::Builtin(b)@ == ShapeView::Builtin(b),
        ({
            let s = ShapeType::Tensor(dims)@;
            &&& s matches ShapeView::Tensor(d)
            &&& d.len() == dims@.len()
            &&& forall|i: int| 0 <= i < dims@.len() ==> #[trigger] d[i] == dims@[i]@
        }),
        dims_of(dims@).len() == dims@.len(),
        forall|i: int| 0 <= i < dims@.len() ==> #[trigger] dims_of(dims@)[i] == dims@[i]@,
{
}

/// What is said of two dimensions is what comes of comparing them.
pub proof fn law_comparisons_of_dimensions(k: DimConflictKind)
    ensures
        k is Agree <==> conflict_of(k) == DimConflict::Agree,
        k is ConcreteMismatch <==> conflict_of(k) == DimConflict::ConcreteMismatch,
        k matches DimConflictKind::VarMismatch(a, b) ==> conflict_of(k)
            == DimConflict::VarMismatch(a@, b@),
{
}

/// A shape error is what it says.
pub proof fn law_shape_errors_are_what_they_are(
    op: &'static str,
    name: String,
    x: String,
    y: String,
    a: Vec<DimVal>,
    b: Vec<DimVal>,
)
    ensures
        (ShapeError::MatMulMismatch { a, b })@ == (ShapeErrorView::MatMulMismatch {
            a: dims_of(a@),
            b: dims_of(b@),
        }),
        (ShapeError::ElementwiseMismatch { op, a, b })@ == (ShapeErrorView::ElementwiseMismatch {
            op: op@,
            a: dims_of(a@),
            b: dims_of(b@),
        }),
        ShapeError::NonUniformTensor@ == ShapeErrorView::NonUniformTensor,
        (ShapeError::AnnotationMismatch { name, declared: a, inferred: b })@ == (
        ShapeErrorView::AnnotationMismatch {
            name: name@,
            declared: dims_of(a@),
            inferred: dims_of(b@),
        }),
        (ShapeError::VarConflict { op, var_a: x, var_b: y })@ == (ShapeErrorView::VarConflict {
            op: op@,
            var_a: x@,
            var_b: y@,
        }),
{
}

} // verus!
