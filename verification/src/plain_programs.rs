//! Programs whose evaluation shapes can always follow.

use crate::ast::{ExprView, TopLevelView};
use crate::autodiff::TapesView;
use crate::eval_laws::{law_evaluation_only_adds_nodes, lemma_apply_grown};
use crate::interpreter::{
    apply_model, arity, builtin_many, builtin_one, curried, eval_model, eval_row, eval_rows,
    function_value, functions_defined, values_defined, with_builtins,
};
use crate::num::Arith;
use crate::shape_stage::{
    annotation_of, function_shape, functions_checked, functions_shaped, shape_model, shape_row,
    shape_rows, values_shaped, with_shape_builtins, ShapeEnvView, ShapeGlobalsView,
    ShapeLocalsView, ShapeView, MAX_APPLY_DEPTH, MAX_APPLY_FUEL,
};
use crate::soundness::{
    followed, followed_apply, followed_program, followed_row, followed_rows, followed_values, Rigor,
};
use crate::value::{find_local, BuiltinFn, EnvView, GlobalsView, LocalsView, ValueView};
use vstd::prelude::*;

verus! {

/// Whether a name is none that a plain program has to do without: `iterate`
/// and, where `strict`, `grad`.
pub open spec fn plain_name(name: Seq<char>, strict: bool) -> bool {
    name != "iterate"@ && (strict ==> name != "grad"@)
}

/// Whether an expression leaves `iterate` alone and, where `strict`, has no
/// `if` and leaves `grad` alone too. Its tensor literals have no more elements
/// than a machine word counts.
pub open spec fn plain(e: ExprView, strict: bool) -> bool
    decreases e,
{
    match e {
        ExprView::Lit(_) => true,
        ExprView::Var(name) => plain_name(name, strict),
        ExprView::App(f, a) => plain(*f, strict) && plain(*a, strict),
        ExprView::BinOp { op, left, right } => plain(*left, strict) && plain(*right, strict),
        ExprView::UnaryMinus(x) => plain(*x, strict),
        ExprView::Pipe(a, f) => plain(*a, strict) && plain(*f, strict),
        ExprView::If { cond, then, else_ } => !strict && plain(*cond, strict) && plain(
            *then,
            strict,
        ) && plain(*else_, strict),
        ExprView::Let { name, params, value, body } => plain(*value, strict) && plain(
            *body,
            strict,
        ),
        ExprView::TensorLit(rows) => (rows.len() > 0 ==> rows.len() <= usize::MAX && rows[0].len()
            <= usize::MAX && rows.len() * rows[0].len() <= usize::MAX) && (forall|i: int, j: int|
            0 <= i < rows.len() && 0 <= j < rows[i].len() ==> plain(#[trigger] rows[i][j], strict)),
        ExprView::Lambda { param, body } => plain(*body, strict),
    }
}

/// Whether items have no annotations, and plain bodies.
pub open spec fn plain_items(items: Seq<TopLevelView>, strict: bool) -> bool {
    forall|i: int|
        0 <= i < items.len() ==> ((#[trigger] items[i]) matches TopLevelView::Binding {
            name,
            params,
            body,
        } && plain(body, strict))
}

spec fn plain_builtin(b: BuiltinFn, strict: bool) -> bool {
    b != BuiltinFn::Iterate && (strict ==> b != BuiltinFn::Grad)
}

/// Whether the functions in a value have plain bodies.
spec fn plain_value(v: ValueView, strict: bool) -> bool
    decreases v,
{
    match v {
        ValueView::Closure { param, body, env } => plain(body, strict) && plain_locals(
            env,
            strict,
        ),
        ValueView::Builtin(b) => plain_builtin(b, strict),
        ValueView::PartialBuiltin(b, args) => plain_builtin(b, strict) && (forall|i: int|
            0 <= i < args.len() ==> plain_value(#[trigger] args[i], strict)),
        _ => true,
    }
}

spec fn plain_locals(l: LocalsView, strict: bool) -> bool
    decreases l,
{
    match l {
        LocalsView::Empty => true,
        LocalsView::Bound { name, value, parent } => plain_value(*value, strict) && plain_locals(
            *parent,
            strict,
        ),
    }
}

spec fn plain_globals(g: GlobalsView, strict: bool) -> bool {
    forall|name: Seq<char>|
        plain_name(name, strict) && #[trigger] g.contains_key(name) ==> plain_value(
            g[name],
            strict,
        )
}

proof fn lemma_find_plain(l: LocalsView, name: Seq<char>, strict: bool)
    requires
        plain_locals(l, strict),
    ensures
        find_local(l, name) matches Some(v) ==> plain_value(v, strict),
    decreases l,
{
    if let LocalsView::Bound { name: n, value, parent } = l {
        if n != name {
            lemma_find_plain(*parent, name, strict);
        }
    }
}

proof fn lemma_curried_plain(params: Seq<Seq<char>>, body: ExprView, strict: bool)
    requires
        plain(body, strict),
    ensures
        plain(curried(params, body), strict),
    decreases params.len(),
{
    if params.len() > 0 {
        lemma_curried_plain(params.subrange(1, params.len() as int), body, strict);
    }
}

proof fn lemma_plain_eval(
    m: Arith,
    e: ExprView,
    env: EnvView,
    depth: nat,
    tapes: TapesView,
    senv: ShapeEnvView,
    room: nat,
    fuel: nat,
    strict: bool,
    rigor: Rigor,
)
    requires
        strict == rigor.strict(),
        !(rigor is Strict),
        plain(e, strict),
        plain_locals(env.locals, strict),
        plain_globals(env.globals, strict),
        strict ==> tapes.len() == 0,
    ensures
        followed(m, e, env, depth, tapes, senv, room, fuel, rigor),
        eval_model(m, e, env, depth, tapes).0 matches Ok(v) ==> plain_value(v, strict),
        strict ==> eval_model(m, e, env, depth, tapes).1.len() == 0,
    decreases depth, 3int, e, 1nat,
{
    law_evaluation_only_adds_nodes(m, e, env, depth, tapes);
    match e {
        ExprView::Var(name) => {
            lemma_find_plain(env.locals, name, strict);
        },
        ExprView::UnaryMinus(x) => {
            lemma_plain_eval(m, *x, env, depth, tapes, senv, room, fuel, strict, rigor);
        },
        ExprView::BinOp { op, left, right } => {
            lemma_plain_eval(m, *left, env, depth, tapes, senv, room, fuel, strict, rigor);
            let t1 = eval_model(m, *left, env, depth, tapes).1;
            let f1 = shape_model(*left, senv, room, fuel).1;
            lemma_plain_eval(m, *right, env, depth, t1, senv, room, f1, strict, rigor);
        },
        ExprView::App(func, arg) => {
            lemma_plain_eval(m, *func, env, depth, tapes, senv, room, fuel, strict, rigor);
            let (f, t1) = eval_model(m, *func, env, depth, tapes);
            let (sf, f1) = shape_model(*func, senv, room, fuel);
            lemma_plain_eval(m, *arg, env, depth, t1, senv, room, f1, strict, rigor);
            let (a, t2) = eval_model(m, *arg, env, depth, t1);
            let (sa, f2) = shape_model(*arg, senv, room, f1);
            if let (Ok(f), Ok(a)) = (f, a) {
                let sf = if sf is Ok { sf->Ok_0 } else { ShapeView::Unknown };
                let sa = if sa is Ok { sa->Ok_0 } else { ShapeView::Unknown };
                lemma_plain_apply(
                    m,
                    f,
                    a,
                    env.globals,
                    depth,
                    t2,
                    sf,
                    sa,
                    senv.globals,
                    room,
                    f2,
                    strict,
                    rigor,
                );
            }
        },
        ExprView::Pipe(arg, func) => {
            lemma_plain_eval(m, *arg, env, depth, tapes, senv, room, fuel, strict, rigor);
            let (a, t1) = eval_model(m, *arg, env, depth, tapes);
            let (sa, f1) = shape_model(*arg, senv, room, fuel);
            lemma_plain_eval(m, *func, env, depth, t1, senv, room, f1, strict, rigor);
            let (f, t2) = eval_model(m, *func, env, depth, t1);
            let (sf, f2) = shape_model(*func, senv, room, f1);
            if let (Ok(f), Ok(a)) = (f, a) {
                let sf = if sf is Ok { sf->Ok_0 } else { ShapeView::Unknown };
                let sa = if sa is Ok { sa->Ok_0 } else { ShapeView::Unknown };
                lemma_plain_apply(
                    m,
                    f,
                    a,
                    env.globals,
                    depth,
                    t2,
                    sf,
                    sa,
                    senv.globals,
                    room,
                    f2,
                    strict,
                    rigor,
                );
            }
        },
        ExprView::Let { name, params, value, body } => {
            if params.len() == 0 {
                lemma_plain_eval(m, *value, env, depth, tapes, senv, room, fuel, strict, rigor);
                let (v, t1) = eval_model(m, *value, env, depth, tapes);
                let (s, f1) = shape_model(*value, senv, room, fuel);
                if let Ok(v) = v {
                    let s = if s is Ok { s->Ok_0 } else { ShapeView::Unknown };
                    lemma_plain_eval(
                        m,
                        *body,
                        env.bind(name, v),
                        depth,
                        t1,
                        senv.bind(name, s),
                        room,
                        f1,
                        strict,
                        rigor,
                    );
                }
            } else {
                lemma_curried_plain(params.subrange(1, params.len() as int), *value, strict);
                let v = function_value(params, *value, env.locals);
                let s = function_shape(params, *value, senv.locals);
                assert(plain_value(v, strict));
                lemma_plain_eval(
                    m,
                    *body,
                    env.bind(name, v),
                    depth,
                    tapes,
                    senv.bind(name, s),
                    room,
                    fuel,
                    strict,
                    rigor,
                );
            }
        },
        ExprView::If { cond, then, else_ } => {
            lemma_plain_eval(m, *cond, env, depth, tapes, senv, room, fuel, strict, rigor);
            let t1 = eval_model(m, *cond, env, depth, tapes).1;
            let f1 = shape_model(*cond, senv, room, fuel).1;
            let f2 = shape_model(*then, senv, room, f1).1;
            lemma_plain_eval(m, *then, env, depth, t1, senv, room, f1, strict, rigor);
            lemma_plain_eval(m, *else_, env, depth, t1, senv, room, f2, strict, rigor);
        },
        ExprView::TensorLit(rows) => {
            lemma_plain_rows(m, rows, rows.len(), env, depth, tapes, senv, room, fuel, strict, rigor);
        },
        _ => {},
    }
}

proof fn lemma_plain_rows(
    m: Arith,
    rows: Seq<Seq<ExprView>>,
    n: nat,
    env: EnvView,
    depth: nat,
    tapes: TapesView,
    senv: ShapeEnvView,
    room: nat,
    fuel: nat,
    strict: bool,
    rigor: Rigor,
)
    requires
        strict == rigor.strict(),
        !(rigor is Strict),
        forall|i: int, j: int|
            0 <= i < rows.len() && 0 <= j < rows[i].len() ==> plain(#[trigger] rows[i][j], strict),
        plain_locals(env.locals, strict),
        plain_globals(env.globals, strict),
        strict ==> tapes.len() == 0,
    ensures
        followed_rows(m, rows, n, env, depth, tapes, senv, room, fuel, rigor),
        strict ==> eval_rows(m, rows, n, env, depth, tapes).1.len() == 0,
    decreases depth, 3int, rows, n,
{
    if 0 < n <= rows.len() {
        lemma_plain_rows(m, rows, (n - 1) as nat, env, depth, tapes, senv, room, fuel, strict, rigor);
        let t1 = eval_rows(m, rows, (n - 1) as nat, env, depth, tapes).1;
        let f1 = shape_rows(rows, (n - 1) as nat, senv, room, fuel).1;
        let row = rows[n - 1];
        lemma_plain_row(m, row, row.len(), env, depth, t1, senv, room, f1, strict, rigor);
    }
}

proof fn lemma_plain_row(
    m: Arith,
    row: Seq<ExprView>,
    n: nat,
    env: EnvView,
    depth: nat,
    tapes: TapesView,
    senv: ShapeEnvView,
    room: nat,
    fuel: nat,
    strict: bool,
    rigor: Rigor,
)
    requires
        strict == rigor.strict(),
        !(rigor is Strict),
        forall|j: int| 0 <= j < row.len() ==> plain(#[trigger] row[j], strict),
        plain_locals(env.locals, strict),
        plain_globals(env.globals, strict),
        strict ==> tapes.len() == 0,
    ensures
        followed_row(m, row, n, env, depth, tapes, senv, room, fuel, rigor),
        strict ==> eval_row(m, row, n, env, depth, tapes).1.len() == 0,
    decreases depth, 3int, row, n,
{
    if 0 < n <= row.len() {
        lemma_plain_row(m, row, (n - 1) as nat, env, depth, tapes, senv, room, fuel, strict, rigor);
        let t1 = eval_row(m, row, (n - 1) as nat, env, depth, tapes).1;
        let f1 = shape_row(row, (n - 1) as nat, senv, room, fuel).1;
        lemma_plain_eval(m, row[n - 1], env, depth, t1, senv, room, f1, strict, rigor);
    }
}

proof fn lemma_plain_apply(
    m: Arith,
    f: ValueView,
    a: ValueView,
    globals: GlobalsView,
    depth: nat,
    tapes: TapesView,
    sf: ShapeView,
    sa: ShapeView,
    sglobals: ShapeGlobalsView,
    room: nat,
    fuel: nat,
    strict: bool,
    rigor: Rigor,
)
    requires
        strict == rigor.strict(),
        !(rigor is Strict),
        plain_value(f, strict),
        plain_value(a, strict),
        plain_globals(globals, strict),
        strict ==> tapes.len() == 0,
    ensures
        followed_apply(m, f, a, globals, depth, tapes, sf, sa, sglobals, room, fuel, rigor),
        apply_model(m, f, a, globals, depth, tapes).0 matches Ok(v) ==> plain_value(v, strict),
    decreases depth, 2int, f, 0nat,
{
    lemma_apply_grown(m, f, a, globals, depth, tapes);
    match f {
        ValueView::Closure { param, body, env } => {
            if depth > 0 {
                let inner = (EnvView { locals: env, globals }).bind(param, a);
                assert(apply_model(m, f, a, globals, depth, tapes) == eval_model(
                    m,
                    body,
                    inner,
                    (depth - 1) as nat,
                    tapes,
                ));
                let (locals, left, less): (ShapeLocalsView, nat, nat) = if sf is Closure && room > 0 && fuel > 0 {
                    (sf->Closure_env, (room - 1) as nat, (fuel - 1) as nat)
                } else {
                    (ShapeLocalsView::Empty, 0, 0)
                };
                lemma_plain_eval(
                    m,
                    body,
                    inner,
                    (depth - 1) as nat,
                    tapes,
                    (ShapeEnvView { locals, globals: sglobals }).bind(param, sa),
                    left,
                    less,
                    strict,
                    rigor,
                );
            }
        },
        ValueView::PartialBuiltin(b, args) => {
            if args.len() + 1 != arity(b) {
                let all = args.push(a);
                assert forall|i: int| 0 <= i < all.len() implies plain_value(
                    #[trigger] all[i],
                    strict,
                ) by {
                    if i < args.len() {
                        assert(plain_value(args[i], strict));
                    }
                }
            } else if let Ok(v) = builtin_many(m, b, args.push(a), globals, depth, tapes).0 {
                assert(v is Float || v is Tensor);
            }
        },
        ValueView::Builtin(b) => {
            if arity(b) != 1 {
                assert(plain_value(ValueView::PartialBuiltin(b, seq![a]), strict));
            } else if let Ok(v) = builtin_one(m, b, a, tapes).0 {
                assert(!(v is Closure) && !(v is Builtin) && !(v is PartialBuiltin));
            }
        },
        _ => {},
    }
}

proof fn lemma_plain_functions(items: Seq<TopLevelView>, n: nat, strict: bool)
    requires
        plain_items(items, strict),
        n <= items.len(),
    ensures
        plain_globals(functions_defined(items, n, with_builtins(Map::empty())), strict),
    decreases n,
{
    if n == 0 {
        let g = with_builtins(Map::empty());
        assert forall|name: Seq<char>|
            plain_name(name, strict) && #[trigger] g.contains_key(name) implies plain_value(
            g[name],
            strict,
        ) by {
            assert(g[name] is Builtin);
        }
    } else {
        lemma_plain_functions(items, (n - 1) as nat, strict);
        let params = items[n - 1]->Binding_params;
        let body = items[n - 1]->Binding_body;
        if params.len() > 0 {
            lemma_curried_plain(params.subrange(1, params.len() as int), body, strict);
            assert(plain_locals(LocalsView::Empty, strict));
            assert(plain_value(function_value(params, body, LocalsView::Empty), strict));
        }
    }
}

proof fn lemma_no_annotation(items: Seq<TopLevelView>, n: nat, name: Seq<char>, strict: bool)
    requires
        plain_items(items, strict),
        n <= items.len(),
    ensures
        annotation_of(items, n, name) is None,
    decreases n,
{
    if n > 0 {
        lemma_no_annotation(items, (n - 1) as nat, name, strict);
        assert(items[n - 1] is Binding);
    }
}

proof fn lemma_plain_values(
    m: Arith,
    items: Seq<TopLevelView>,
    n: nat,
    globals: GlobalsView,
    depth: nat,
    sglobals: ShapeGlobalsView,
    fuel: nat,
    strict: bool,
    rigor: Rigor,
)
    requires
        strict == rigor.strict(),
        !(rigor is Strict),
        plain_items(items, strict),
        n <= items.len(),
        plain_globals(globals, strict),
    ensures
        followed_values(m, items, n, globals, depth, sglobals, fuel, rigor),
        values_defined(m, items, n, globals, depth) matches Ok(g) ==> plain_globals(g, strict),
    decreases n,
{
    if n > 0 {
        lemma_plain_values(m, items, (n - 1) as nat, globals, depth, sglobals, fuel, strict, rigor);
        let (shapes, f1) = values_shaped(items, (n - 1) as nat, sglobals, fuel);
        let name = items[n - 1]->Binding_name;
        lemma_no_annotation(items, items.len(), name, strict);
        if let Ok(g) = values_defined(m, items, (n - 1) as nat, globals, depth) {
            let s = if shapes is Ok { shapes->Ok_0 } else { Map::empty() };
            lemma_plain_eval(
                m,
                items[n - 1]->Binding_body,
                EnvView { locals: LocalsView::Empty, globals: g },
                depth,
                Seq::empty(),
                ShapeEnvView { locals: ShapeLocalsView::Empty, globals: s },
                MAX_APPLY_DEPTH as nat,
                f1,
                strict,
                rigor,
            );
        }
    }
}

proof fn lemma_nothing_to_check(
    items: Seq<TopLevelView>,
    n: nat,
    globals: ShapeGlobalsView,
    fuel: nat,
    strict: bool,
)
    requires
        plain_items(items, strict),
        n <= items.len(),
    ensures
        functions_checked(items, n, globals, fuel).0 is Ok,
    decreases n,
{
    if n > 0 {
        lemma_nothing_to_check(items, (n - 1) as nat, globals, fuel, strict);
        lemma_no_annotation(items, items.len(), items[n - 1]->Binding_name, strict);
    }
}

/// Every run of a program without annotations and without `iterate` is one
/// that shapes can follow; and strictly so, if it has no `if` and no `grad`
/// either. No variables stand in such a program, so it is all one what sizes
/// they stand for.
pub proof fn law_plain_programs_are_followed(
    m: Arith,
    items: Seq<TopLevelView>,
    depth: nat,
    rigor: Rigor,
)
    requires
        !(rigor is Strict),
        plain_items(items, rigor.strict()),
    ensures
        followed_program(m, items, depth, rigor),
{
    let strict = rigor.strict();
    let functions = functions_defined(items, items.len(), with_builtins(Map::empty()));
    let shapes = functions_shaped(items, items.len(), with_shape_builtins(Map::empty()));
    lemma_plain_functions(items, items.len(), strict);
    lemma_plain_values(
        m,
        items,
        items.len(),
        functions,
        depth,
        shapes,
        MAX_APPLY_FUEL as nat,
        strict,
        rigor,
    );
    let (globals, fuel) = values_shaped(items, items.len(), shapes, MAX_APPLY_FUEL as nat);
    if let Ok(globals) = globals {
        lemma_nothing_to_check(items, items.len(), globals, fuel, strict);
    }
}

} // verus!
