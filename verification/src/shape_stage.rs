//! Shape checking before evaluation.
//!
//! The program is walked as the evaluator walks it, but over shapes in place
//! of values. Only what is certain is an error: where a shape cannot be told
//! it is unknown, and what is unknown conflicts with nothing.

use crate::ast::{
    items_of, lemma_tensor_lit_view, names_of, row_of, rows_of, type_dims_of, BinOpKind, Expr,
    ExprView, Literal, LiteralView, Program, TopLevel, TopLevelView, TypeDim, TypeDimView, TypeExpr,
    TypeExprView,
};
use crate::autodiff::{elementwise, op_symbol, symbol_of};
use crate::interpreter::{arity, builtin_arity, curried, desugar_lambda};
use crate::text::{decimal, push_decimal, same_text};
use crate::value::BuiltinFn;
use std::rc::Rc;
use vstd::prelude::*;

verus! {

/// How deep function calls may nest while shapes are worked out.
pub const MAX_APPLY_DEPTH: usize = 64;

/// How many function calls may be made in all while shapes are worked out.
pub const MAX_APPLY_FUEL: u64 = 100_000;

/// What is known of a value's shape.
#[derive(Debug)]
pub enum ShapeType {
    /// A number or truth value.
    Scalar,
    Tensor(Vec<DimVal>),
    Closure(ShapeClosure),
    Builtin(BuiltinFn),
    /// A built-in function that still waits for arguments.
    PartialBuiltin(BuiltinFn, Vec<ShapeType>),
    /// Nothing.
    Unknown,
}

/// What is known of one dimension.
#[derive(Debug, PartialEq)]
pub enum DimVal {
    Concrete(usize),
    /// A dimension variable of a type annotation.
    Var(String),
    Unknown,
}

/// A function of one parameter, with the local scope that it was made in.
#[derive(Debug)]
pub struct ShapeClosure {
    pub param: String,
    pub body: Rc<Expr>,
    pub env: ShapeLocals,
}

/// Local bindings, the newest first.
pub type ShapeLocals = Option<Rc<ShapeEnvNode>>;

#[derive(Debug)]
pub struct ShapeEnvNode {
    pub name: String,
    pub value: ShapeType,
    pub parent: ShapeLocals,
}

/// A top-level binding.
#[derive(Debug)]
pub struct ShapeGlobal {
    pub name: String,
    pub value: ShapeType,
}

/// The top-level bindings, in the order of their definition.
#[derive(Debug)]
pub struct ShapeGlobals {
    pub list: Vec<ShapeGlobal>,
}

/// A scope: the local bindings that stand in front of the top-level ones. It
/// is looked up with the one table of those.
#[derive(Debug)]
pub struct ShapeEnv {
    pub locals: ShapeLocals,
}

#[derive(Debug)]
pub enum ShapeError {
    /// The inner dimensions of `@` differ.
    MatMulMismatch { a: Vec<DimVal>, b: Vec<DimVal> },
    /// The operands of an elementwise operator differ in shape.
    ElementwiseMismatch { op: &'static str, a: Vec<DimVal>, b: Vec<DimVal> },
    /// The rows of a tensor literal differ in length.
    NonUniformTensor,
    /// A definition has another shape than its annotation says.
    AnnotationMismatch { name: String, declared: Vec<DimVal>, inferred: Vec<DimVal> },
    /// Two dimension variables stand where one dimension is needed.
    VarConflict { op: &'static str, var_a: String, var_b: String },
}

// ---------------------------------------------------------------------------
// Models
// ---------------------------------------------------------------------------

#[verifier::ext_equal]
pub enum ShapeView {
    Scalar,
    Tensor(Seq<DimView>),
    Closure { param: Seq<char>, body: ExprView, env: ShapeLocalsView },
    Builtin(BuiltinFn),
    PartialBuiltin(BuiltinFn, Seq<ShapeView>),
    Unknown,
}

#[verifier::ext_equal]
pub enum DimView {
    Concrete(usize),
    Var(Seq<char>),
    Unknown,
}

#[verifier::ext_equal]
pub enum ShapeLocalsView {
    Empty,
    Bound { name: Seq<char>, value: Box<ShapeView>, parent: Box<ShapeLocalsView> },
}

pub type ShapeGlobalsView = Map<Seq<char>, ShapeView>;

#[verifier::ext_equal]
pub struct ShapeEnvView {
    pub locals: ShapeLocalsView,
    pub globals: ShapeGlobalsView,
}

#[verifier::ext_equal]
pub enum ShapeErrorView {
    MatMulMismatch { a: Seq<DimView>, b: Seq<DimView> },
    ElementwiseMismatch { op: Seq<char>, a: Seq<DimView>, b: Seq<DimView> },
    NonUniformTensor,
    AnnotationMismatch { name: Seq<char>, declared: Seq<DimView>, inferred: Seq<DimView> },
    VarConflict { op: Seq<char>, var_a: Seq<char>, var_b: Seq<char> },
}

impl View for DimVal {
    type V = DimView;

    open spec fn view(&self) -> DimView {
        match *self {
            DimVal::Concrete(n) => DimView::Concrete(n),
            DimVal::Var(s) => DimView::Var(s@),
            DimVal::Unknown => DimView::Unknown,
        }
    }
}

/// The model of a list of dimensions.
pub open spec fn dims_of(v: Seq<DimVal>) -> Seq<DimView> {
    Seq::new(v.len(), |i: int| v[i]@)
}

impl ShapeType {
    pub open spec fn model(self) -> ShapeView
        decreases self,
    {
        match self {
            ShapeType::Scalar => ShapeView::Scalar,
            ShapeType::Tensor(dims) => ShapeView::Tensor(dims_of(dims@)),
            ShapeType::Closure(c) => ShapeView::Closure {
                param: c.param@,
                body: (*c.body)@,
                env: shape_locals_of(c.env),
            },
            ShapeType::Builtin(b) => ShapeView::Builtin(b),
            ShapeType::PartialBuiltin(b, args) => ShapeView::PartialBuiltin(
                b,
                Seq::new(
                    args@.len(),
                    |i: int|
                        if 0 <= i < args@.len() {
                            args@[i].model()
                        } else {
                            arbitrary()
                        },
                ),
            ),
            ShapeType::Unknown => ShapeView::Unknown,
        }
    }
}

/// The model of local bindings.
pub open spec fn shape_locals_of(l: ShapeLocals) -> ShapeLocalsView
    decreases l,
{
    match l {
        None => ShapeLocalsView::Empty,
        Some(node) => ShapeLocalsView::Bound {
            name: node.name@,
            value: Box::new(node.value.model()),
            parent: Box::new(shape_locals_of(node.parent)),
        },
    }
}

impl View for ShapeType {
    type V = ShapeView;

    open spec fn view(&self) -> ShapeView {
        self.model()
    }
}

/// The model of a list of shapes.
pub open spec fn shapes_of(v: Seq<ShapeType>) -> Seq<ShapeView> {
    Seq::new(v.len(), |i: int| v[i]@)
}

/// A partial application is the list of its arguments.
pub proof fn lemma_partial_shape_view(b: BuiltinFn, args: Vec<ShapeType>)
    ensures
        ShapeType::PartialBuiltin(b, args)@ == ShapeView::PartialBuiltin(b, shapes_of(args@)),
{
    assert(ShapeType::PartialBuiltin(b, args)@->PartialBuiltin_1 =~= shapes_of(args@));
}

/// The model of top-level bindings.
pub open spec fn shape_globals_of(v: Seq<ShapeGlobal>) -> ShapeGlobalsView
    decreases v.len(),
{
    if v.len() == 0 {
        Map::empty()
    } else {
        shape_globals_of(v.drop_last()).insert(v.last().name@, v.last().value@)
    }
}

impl View for ShapeGlobals {
    type V = ShapeGlobalsView;

    open spec fn view(&self) -> ShapeGlobalsView {
        shape_globals_of(self.list@)
    }
}

impl View for ShapeEnv {
    type V = ShapeLocalsView;

    open spec fn view(&self) -> ShapeLocalsView {
        shape_locals_of(self.locals)
    }
}

/// Local bindings in front of top-level ones.
pub open spec fn shape_scope(locals: ShapeLocalsView, globals: ShapeGlobalsView) -> ShapeEnvView {
    ShapeEnvView { locals, globals }
}

impl View for ShapeError {
    type V = ShapeErrorView;

    open spec fn view(&self) -> ShapeErrorView {
        match *self {
            ShapeError::MatMulMismatch { a, b } => ShapeErrorView::MatMulMismatch {
                a: dims_of(a@),
                b: dims_of(b@),
            },
            ShapeError::ElementwiseMismatch { op, a, b } => ShapeErrorView::ElementwiseMismatch {
                op: op@,
                a: dims_of(a@),
                b: dims_of(b@),
            },
            ShapeError::NonUniformTensor => ShapeErrorView::NonUniformTensor,
            ShapeError::AnnotationMismatch {
                name,
                declared,
                inferred,
            } => ShapeErrorView::AnnotationMismatch {
                name: name@,
                declared: dims_of(declared@),
                inferred: dims_of(inferred@),
            },
            ShapeError::VarConflict { op, var_a, var_b } => ShapeErrorView::VarConflict {
                op: op@,
                var_a: var_a@,
                var_b: var_b@,
            },
        }
    }
}

// ---------------------------------------------------------------------------
// Scopes
// ---------------------------------------------------------------------------

/// The nearest local binding of a name.
pub open spec fn find_local_shape(l: ShapeLocalsView, name: Seq<char>) -> Option<ShapeView>
    decreases l,
{
    match l {
        ShapeLocalsView::Empty => None,
        ShapeLocalsView::Bound { name: n, value, parent } => if n == name {
            Some(*value)
        } else {
            find_local_shape(*parent, name)
        },
    }
}

impl ShapeEnvView {
    /// A local binding hides a top-level one.
    pub open spec fn find(self, name: Seq<char>) -> Option<ShapeView> {
        match find_local_shape(self.locals, name) {
            Some(v) => Some(v),
            None => if self.globals.contains_key(name) {
                Some(self.globals[name])
            } else {
                None
            },
        }
    }

    /// The scope with one more local binding in front.
    pub open spec fn bind(self, name: Seq<char>, value: ShapeView) -> ShapeEnvView {
        ShapeEnvView {
            locals: ShapeLocalsView::Bound {
                name,
                value: Box::new(value),
                parent: Box::new(self.locals),
            },
            globals: self.globals,
        }
    }
}

// ---------------------------------------------------------------------------
// Operators
// ---------------------------------------------------------------------------

/// Whether, and how, two dimensions conflict that have to be the same.
#[verifier::ext_equal]
pub enum DimConflict {
    /// They agree, or one of them cannot be told.
    Agree,
    /// Two different sizes.
    ConcreteMismatch,
    /// Two different variables, which nothing makes equal.
    VarMismatch(Seq<char>, Seq<char>),
}

pub open spec fn dim_conflict(x: DimView, y: DimView) -> DimConflict {
    match (x, y) {
        (DimView::Concrete(a), DimView::Concrete(b)) => if a != b {
            DimConflict::ConcreteMismatch
        } else {
            DimConflict::Agree
        },
        (DimView::Var(a), DimView::Var(b)) => if a != b {
            DimConflict::VarMismatch(a, b)
        } else {
            DimConflict::Agree
        },
        _ => DimConflict::Agree,
    }
}

/// The shape of a matrix product: `[m, k] @ [k, n]` is `[m, n]` and
/// `[m, k] @ [k]` is `[m]`.
pub open spec fn matmul_shape_model(a: Seq<DimView>, b: Seq<DimView>) -> Result<
    ShapeView,
    ShapeErrorView,
> {
    if a.len() == 2 && (b.len() == 2 || b.len() == 1) {
        match dim_conflict(a[1], b[0]) {
            DimConflict::ConcreteMismatch => Err(ShapeErrorView::MatMulMismatch { a, b }),
            DimConflict::VarMismatch(x, y) => Err(
                ShapeErrorView::VarConflict {
                    op: op_symbol(BinOpKind::MatMul),
                    var_a: x,
                    var_b: y,
                },
            ),
            DimConflict::Agree => if b.len() == 2 {
                Ok(ShapeView::Tensor(seq![a[0], b[1]]))
            } else {
                Ok(ShapeView::Tensor(seq![a[0]]))
            },
        }
    } else {
        Ok(ShapeView::Unknown)
    }
}

/// The shape of an elementwise operation on two tensors of one rank, whose
/// dimensions before `i` agree: the first conflict is the error.
pub open spec fn elementwise_from(op: Seq<char>, a: Seq<DimView>, b: Seq<DimView>, i: int) -> Result<
    ShapeView,
    ShapeErrorView,
>
    decreases a.len() - i,
{
    if i < 0 || i >= a.len() {
        Ok(ShapeView::Tensor(a))
    } else {
        match dim_conflict(a[i], b[i]) {
            DimConflict::ConcreteMismatch => Err(ShapeErrorView::ElementwiseMismatch { op, a, b }),
            DimConflict::VarMismatch(x, y) => Err(
                ShapeErrorView::VarConflict { op, var_a: x, var_b: y },
            ),
            DimConflict::Agree => elementwise_from(op, a, b, i + 1),
        }
    }
}

/// The shape of an elementwise operation. A scalar goes with every shape.
pub open spec fn elementwise_shape_model(op: Seq<char>, l: ShapeView, r: ShapeView) -> Result<
    ShapeView,
    ShapeErrorView,
> {
    match (l, r) {
        (ShapeView::Tensor(a), ShapeView::Tensor(b)) => if a.len() != b.len() {
            Err(ShapeErrorView::ElementwiseMismatch { op, a, b })
        } else {
            elementwise_from(op, a, b, 0)
        },
        (ShapeView::Tensor(d), ShapeView::Scalar) => Ok(ShapeView::Tensor(d)),
        (ShapeView::Scalar, ShapeView::Tensor(d)) => Ok(ShapeView::Tensor(d)),
        (ShapeView::Scalar, ShapeView::Scalar) => Ok(ShapeView::Scalar),
        _ => Ok(ShapeView::Unknown),
    }
}

/// The shape of what an operator gives.
pub open spec fn binop_shape(op: BinOpKind, l: ShapeView, r: ShapeView) -> Result<
    ShapeView,
    ShapeErrorView,
> {
    if elementwise(op) is Some {
        elementwise_shape_model(op_symbol(op), l, r)
    } else if op == BinOpKind::MatMul {
        match (l, r) {
            (ShapeView::Tensor(a), ShapeView::Tensor(b)) => matmul_shape_model(a, b),
            _ => Ok(ShapeView::Unknown),
        }
    } else {
        Ok(ShapeView::Scalar)
    }
}

/// Whether two shapes are certainly the same.
pub open spec fn same_shapes(a: ShapeView, b: ShapeView) -> bool {
    match (a, b) {
        (ShapeView::Scalar, ShapeView::Scalar) => true,
        (ShapeView::Tensor(x), ShapeView::Tensor(y)) => x == y,
        _ => false,
    }
}

// ---------------------------------------------------------------------------
// Built-in functions
// ---------------------------------------------------------------------------

/// A dimension of a known size, where a machine word holds it.
pub open spec fn sized(n: int) -> DimView {
    if 0 <= n <= usize::MAX {
        DimView::Concrete(n as usize)
    } else {
        DimView::Unknown
    }
}

/// The shape of what a built-in function gives that calls no other function.
pub open spec fn builtin_shape(b: BuiltinFn, args: Seq<ShapeView>) -> ShapeView {
    match b {
        BuiltinFn::Sum => ShapeView::Scalar,
        BuiltinFn::Mean => ShapeView::Scalar,
        BuiltinFn::MaxVal => ShapeView::Scalar,
        BuiltinFn::MinVal => ShapeView::Scalar,
        BuiltinFn::Norm => ShapeView::Scalar,
        BuiltinFn::Exp => args[0],
        BuiltinFn::Log => args[0],
        BuiltinFn::Tanh => args[0],
        BuiltinFn::Sqrt => args[0],
        BuiltinFn::Abs => args[0],
        BuiltinFn::Softmax => args[0],
        BuiltinFn::Clip => args[2],
        BuiltinFn::Transpose => match args[0] {
            ShapeView::Tensor(d) => if d.len() == 2 {
                ShapeView::Tensor(seq![d[1], d[0]])
            } else {
                ShapeView::Unknown
            },
            _ => ShapeView::Unknown,
        },
        BuiltinFn::Concat => match (args[0], args[1]) {
            (ShapeView::Tensor(a), ShapeView::Tensor(b)) => if a.len() == 1 && b.len() == 1 {
                match (a[0], b[0]) {
                    (DimView::Concrete(x), DimView::Concrete(y)) => ShapeView::Tensor(
                        seq![sized(x + y)],
                    ),
                    _ => ShapeView::Tensor(seq![DimView::Unknown]),
                }
            } else {
                ShapeView::Unknown
            },
            _ => ShapeView::Unknown,
        },
        BuiltinFn::Flatten => match args[0] {
            ShapeView::Tensor(d) => if d.len() == 2 {
                match (d[0], d[1]) {
                    (DimView::Concrete(x), DimView::Concrete(y)) => ShapeView::Tensor(
                        seq![sized(x * y)],
                    ),
                    _ => ShapeView::Tensor(seq![DimView::Unknown]),
                }
            } else {
                ShapeView::Unknown
            },
            _ => ShapeView::Unknown,
        },
        _ => ShapeView::Unknown,
    }
}

/// The greatest integer up to which every one is a floating-point number.
pub const MAX_EXACT: i64 = 0x20_0000_0000_0000;

/// The size that an expression certainly denotes.
pub open spec fn literal_size(e: ExprView) -> Option<usize> {
    match e {
        ExprView::Lit(LiteralView::Int(n)) => if 0 <= n <= MAX_EXACT && n <= usize::MAX {
            Some(n as usize)
        } else {
            None
        },
        _ => None,
    }
}

/// The shape that the argument of `zeros` or `ones` certainly denotes: an
/// integer literal, or one row of them.
pub open spec fn literal_shape(e: ExprView) -> Option<Seq<DimView>> {
    match e {
        ExprView::TensorLit(rows) => if rows.len() == 1 && rows[0].len() > 0 && (forall|i: int|
            0 <= i < rows[0].len() ==> literal_size(#[trigger] rows[0][i]) is Some) {
            Some(
                Seq::new(
                    rows[0].len(),
                    |i: int| DimView::Concrete(literal_size(rows[0][i])->0),
                ),
            )
        } else {
            None
        },
        _ => match literal_size(e) {
            Some(n) => Some(seq![DimView::Concrete(n)]),
            None => None,
        },
    }
}

/// What an application is certain to give by its argument's own text.
pub open spec fn literal_application(f: ShapeView, arg: ExprView) -> Option<Seq<DimView>> {
    if f == ShapeView::Builtin(BuiltinFn::Zeros) || f == ShapeView::Builtin(BuiltinFn::Ones) {
        literal_shape(arg)
    } else {
        None
    }
}

// ---------------------------------------------------------------------------
// Abstract evaluation
// ---------------------------------------------------------------------------

/// How many applications a shape is made of.
pub open spec fn weight(s: ShapeView) -> nat
    decreases s,
{
    match s {
        ShapeView::PartialBuiltin(_, args) => 1 + weights(args),
        _ => 1,
    }
}

pub open spec fn weights(args: Seq<ShapeView>) -> nat
    decreases args,
{
    if args.len() == 0 {
        0
    } else {
        weights(args.drop_last()) + weight(args.last())
    }
}

/// A shape or an error, and how many function calls may still be made.
pub type Shaped<T> = (Result<T, ShapeErrorView>, nat);

/// The value of a definition with parameters.
pub open spec fn function_shape(
    params: Seq<Seq<char>>,
    body: ExprView,
    env: ShapeLocalsView,
) -> ShapeView {
    ShapeView::Closure {
        param: params[0],
        body: curried(params.subrange(1, params.len() as int), body),
        env,
    }
}

/// The shape of an expression. `room` is how deep calls may still nest, `fuel`
/// how many may still be made; where one is used up, the shape is unknown.
pub open spec fn shape_model(e: ExprView, env: ShapeEnvView, room: nat, fuel: nat) -> Shaped<
    ShapeView,
>
    decreases room, 1int, 0nat, e, 0nat,
{
    match e {
        ExprView::Lit(_) => (Ok(ShapeView::Scalar), fuel),
        ExprView::Var(name) => (
            Ok(
                match env.find(name) {
                    Some(s) => s,
                    None => ShapeView::Unknown,
                },
            ),
            fuel,
        ),
        ExprView::UnaryMinus(x) => shape_model(*x, env, room, fuel),
        ExprView::BinOp { op, left, right } => {
            let (l, fuel) = shape_model(*left, env, room, fuel);
            match l {
                Err(e) => (Err(e), fuel),
                Ok(l) => {
                    let (r, fuel) = shape_model(*right, env, room, fuel);
                    match r {
                        Err(e) => (Err(e), fuel),
                        Ok(r) => (binop_shape(op, l, r), fuel),
                    }
                },
            }
        },
        ExprView::App(func, arg) => {
            let (f, fuel) = shape_model(*func, env, room, fuel);
            match f {
                Err(e) => (Err(e), fuel),
                Ok(f) => {
                    let (a, fuel) = shape_model(*arg, env, room, fuel);
                    match a {
                        Err(e) => (Err(e), fuel),
                        Ok(a) => match literal_application(f, *arg) {
                            Some(dims) => (Ok(ShapeView::Tensor(dims)), fuel),
                            None => shape_apply(f, a, env.globals, room, fuel),
                        },
                    }
                },
            }
        },
        ExprView::Pipe(arg, func) => {
            let (a, fuel) = shape_model(*arg, env, room, fuel);
            match a {
                Err(e) => (Err(e), fuel),
                Ok(a) => {
                    let (f, fuel) = shape_model(*func, env, room, fuel);
                    match f {
                        Err(e) => (Err(e), fuel),
                        Ok(f) => match literal_application(f, *arg) {
                            Some(dims) => (Ok(ShapeView::Tensor(dims)), fuel),
                            None => shape_apply(f, a, env.globals, room, fuel),
                        },
                    }
                },
            }
        },
        ExprView::Lambda { param, body } => (
            Ok(ShapeView::Closure { param, body: *body, env: env.locals }),
            fuel,
        ),
        ExprView::Let { name, params, value, body } => {
            let (v, fuel) = if params.len() == 0 {
                shape_model(*value, env, room, fuel)
            } else {
                (Ok(function_shape(params, *value, env.locals)), fuel)
            };
            match v {
                Err(e) => (Err(e), fuel),
                Ok(v) => shape_model(*body, env.bind(name, v), room, fuel),
            }
        },
        ExprView::If { cond, then, else_ } => {
            let (c, fuel) = shape_model(*cond, env, room, fuel);
            match c {
                Err(e) => (Err(e), fuel),
                Ok(_) => {
                    let (t, fuel) = shape_model(*then, env, room, fuel);
                    match t {
                        Err(e) => (Err(e), fuel),
                        Ok(t) => {
                            let (f, fuel) = shape_model(*else_, env, room, fuel);
                            match f {
                                Err(e) => (Err(e), fuel),
                                Ok(f) => (
                                    Ok(
                                        if same_shapes(t, f) {
                                            t
                                        } else {
                                            ShapeView::Unknown
                                        },
                                    ),
                                    fuel,
                                ),
                            }
                        },
                    }
                },
            }
        },
        ExprView::TensorLit(rows) => if rows.len() == 0 || (rows.len() == 1 && rows[0].len()
            == 0) {
            (Ok(ShapeView::Tensor(seq![DimView::Concrete(0)])), fuel)
        } else {
            let (scalars, fuel) = shape_rows(rows, rows.len(), env, room, fuel);
            match scalars {
                Err(e) => (Err(e), fuel),
                Ok(scalars) => (
                    Ok(
                        if !scalars {
                            ShapeView::Unknown
                        } else if rows.len() == 1 {
                            ShapeView::Tensor(seq![DimView::Concrete(rows[0].len() as usize)])
                        } else {
                            ShapeView::Tensor(
                                seq![
                                    DimView::Concrete(rows.len() as usize),
                                    DimView::Concrete(rows[0].len() as usize),
                                ],
                            )
                        },
                    ),
                    fuel,
                ),
            }
        },
    }
}

/// Whether all elements of the first `n` rows of a tensor literal are scalars.
/// A row has to be as long as the first.
pub open spec fn shape_rows(
    rows: Seq<Seq<ExprView>>,
    n: nat,
    env: ShapeEnvView,
    room: nat,
    fuel: nat,
) -> Shaped<bool>
    decreases room, 1int, 0nat, rows, n,
{
    if n == 0 || n > rows.len() {
        (Ok(true), fuel)
    } else {
        let (front, fuel) = shape_rows(rows, (n - 1) as nat, env, room, fuel);
        match front {
            Err(e) => (Err(e), fuel),
            Ok(front) => {
                let row = rows[n - 1];
                if row.len() != rows[0].len() {
                    (Err(ShapeErrorView::NonUniformTensor), fuel)
                } else {
                    let (scalars, fuel) = shape_row(row, row.len(), env, room, fuel);
                    match scalars {
                        Err(e) => (Err(e), fuel),
                        Ok(scalars) => (Ok(front && scalars), fuel),
                    }
                }
            },
        }
    }
}

/// Whether the first `n` elements of a row are scalars.
pub open spec fn shape_row(row: Seq<ExprView>, n: nat, env: ShapeEnvView, room: nat, fuel: nat) -> Shaped<
    bool,
>
    decreases room, 1int, 0nat, row, n,
{
    if n == 0 || n > row.len() {
        (Ok(true), fuel)
    } else {
        let (front, fuel) = shape_row(row, (n - 1) as nat, env, room, fuel);
        match front {
            Err(e) => (Err(e), fuel),
            Ok(front) => {
                let (s, fuel) = shape_model(row[n - 1], env, room, fuel);
                match s {
                    Err(e) => (Err(e), fuel),
                    Ok(s) => (Ok(front && s is Scalar), fuel),
                }
            },
        }
    }
}

/// The shape of a function's value on an argument.
pub open spec fn shape_apply(
    f: ShapeView,
    a: ShapeView,
    globals: ShapeGlobalsView,
    room: nat,
    fuel: nat,
) -> Shaped<ShapeView>
    decreases room, 0int, weight(f) + weight(a), f, 0nat,
{
    match f {
        ShapeView::Closure { param, body, env } => if room == 0 || fuel == 0 {
            (Ok(ShapeView::Unknown), fuel)
        } else {
            shape_model(
                body,
                (ShapeEnvView { locals: env, globals }).bind(param, a),
                (room - 1) as nat,
                (fuel - 1) as nat,
            )
        },
        ShapeView::Builtin(b) => if arity(b) == 1 {
            (Ok(builtin_shape(b, seq![a])), fuel)
        } else {
            (Ok(ShapeView::PartialBuiltin(b, seq![a])), fuel)
        },
        ShapeView::PartialBuiltin(b, args) => if args.len() + 1 != arity(b) {
            (Ok(ShapeView::PartialBuiltin(b, args.push(a))), fuel)
        } else if b == BuiltinFn::Grad {
            // A derivative has the shape of what it is by.
            proof {
                lemma_weights(args, 0);
            }
            let (y, fuel) = shape_apply(args[0], a, globals, room, fuel);
            match y {
                Err(e) => (Err(e), fuel),
                Ok(_) => (Ok(a), fuel),
            }
        } else if b == BuiltinFn::Iterate {
            // A step keeps the shape of what it starts from.
            proof {
                lemma_weights(args, 0);
            }
            let (y, fuel) = shape_apply(a, args[0], globals, room, fuel);
            match y {
                Err(e) => (Err(e), fuel),
                Ok(_) => (Ok(args[0]), fuel),
            }
        } else {
            (Ok(builtin_shape(b, args.push(a))), fuel)
        },
        _ => (Ok(ShapeView::Unknown), fuel),
    }
}

pub proof fn lemma_weights(args: Seq<ShapeView>, i: int)
    requires
        0 <= i < args.len(),
    ensures
        weight(args[i]) <= weights(args),
    decreases args.len(),
{
    if i < args.len() - 1 {
        lemma_weights(args.drop_last(), i);
    }
}

// ---------------------------------------------------------------------------
// Annotations
// ---------------------------------------------------------------------------

/// Whether two dimensions, declared and inferred, cannot be the same.
pub open spec fn dims_clash(x: DimView, y: DimView) -> bool {
    dim_conflict(x, y) != DimConflict::Agree
}

/// The error, if any, of a definition whose annotation says one shape and
/// whose body has another.
pub open spec fn annotation_error(name: Seq<char>, declared: ShapeView, inferred: ShapeView) -> Option<
    ShapeErrorView,
> {
    match (declared, inferred) {
        (ShapeView::Tensor(d), ShapeView::Tensor(i)) => if d.len() != i.len() || (exists|k: int|
            0 <= k < d.len() && #[trigger] dims_clash(d[k], i[k])) {
            Some(ShapeErrorView::AnnotationMismatch { name, declared: d, inferred: i })
        } else {
            None
        },
        _ => None,
    }
}

pub open spec fn dim_of_type(d: TypeDimView) -> DimView {
    match d {
        TypeDimView::Fixed(n) => DimView::Concrete(n),
        TypeDimView::Var(s) => DimView::Var(s),
        TypeDimView::Expr(_) => DimView::Unknown,
    }
}

/// The shape that a type says.
pub open spec fn type_shape(ty: TypeExprView) -> ShapeView {
    match ty {
        TypeExprView::Named(n) => if n == "f32"@ || n == "f64"@ || n == "Int"@ || n == "Bool"@
            || n == "Float"@ {
            ShapeView::Scalar
        } else {
            ShapeView::Unknown
        },
        TypeExprView::Tensor(dims) => ShapeView::Tensor(
            Seq::new(dims.len(), |i: int| dim_of_type(dims[i])),
        ),
        _ => ShapeView::Unknown,
    }
}

/// The shapes that a function type gives its first `n` parameters, as far as
/// it has so many.
pub open spec fn param_shapes(ty: TypeExprView, n: nat) -> Seq<ShapeView>
    decreases n,
{
    match ty {
        TypeExprView::Arrow(a, b) => if n == 0 {
            Seq::empty()
        } else {
            seq![type_shape(*a)] + param_shapes(*b, (n - 1) as nat)
        },
        _ => Seq::empty(),
    }
}

/// The shape of what is left of a function type behind `n` parameters.
pub open spec fn return_shape(ty: TypeExprView, n: nat) -> ShapeView
    decreases n,
{
    match ty {
        TypeExprView::Arrow(a, b) => if n == 0 {
            type_shape(ty)
        } else {
            return_shape(*b, (n - 1) as nat)
        },
        _ => type_shape(ty),
    }
}

/// The scope with the first `n` parameters bound to the shapes of their types.
pub open spec fn params_bound(
    env: ShapeEnvView,
    params: Seq<Seq<char>>,
    shapes: Seq<ShapeView>,
    n: nat,
) -> ShapeEnvView
    decreases n,
{
    if n == 0 || n > params.len() {
        env
    } else {
        params_bound(env, params, shapes, (n - 1) as nat).bind(
            params[n - 1],
            if n <= shapes.len() {
                shapes[n - 1]
            } else {
                ShapeView::Unknown
            },
        )
    }
}

/// The check of a function's body against its annotation.
pub open spec fn annotated_function(
    name: Seq<char>,
    params: Seq<Seq<char>>,
    body: ExprView,
    ty: TypeExprView,
    env: ShapeEnvView,
    fuel: nat,
) -> Shaped<()> {
    let inner = params_bound(env, params, param_shapes(ty, params.len()), params.len());
    let (s, fuel) = shape_model(body, inner, MAX_APPLY_DEPTH as nat, fuel);
    match s {
        Err(e) => (Err(e), fuel),
        Ok(s) => match annotation_error(name, return_shape(ty, params.len()), s) {
            Some(e) => (Err(e), fuel),
            None => (Ok(()), fuel),
        },
    }
}

// ---------------------------------------------------------------------------
// Programs
// ---------------------------------------------------------------------------

/// The last annotation of a name among the first `n` items.
pub open spec fn annotation_of(items: Seq<TopLevelView>, n: nat, name: Seq<char>) -> Option<
    TypeExprView,
>
    decreases n,
{
    if n == 0 || n > items.len() {
        None
    } else {
        match items[n - 1] {
            TopLevelView::TypeAnnotation { name: other, ty } => if other == name {
                Some(ty)
            } else {
                annotation_of(items, (n - 1) as nat, name)
            },
            _ => annotation_of(items, (n - 1) as nat, name),
        }
    }
}

/// The built-in functions under their names.
pub open spec fn with_shape_builtins(globals: ShapeGlobalsView) -> ShapeGlobalsView {
    globals.insert(
        "sum"@,
        ShapeView::Builtin(BuiltinFn::Sum),
    ).insert(
        "mean"@,
        ShapeView::Builtin(BuiltinFn::Mean),
    ).insert(
        "exp"@,
        ShapeView::Builtin(BuiltinFn::Exp),
    ).insert(
        "log"@,
        ShapeView::Builtin(BuiltinFn::Log),
    ).insert(
        "tanh"@,
        ShapeView::Builtin(BuiltinFn::Tanh),
    ).insert(
        "sqrt"@,
        ShapeView::Builtin(BuiltinFn::Sqrt),
    ).insert(
        "zeros"@,
        ShapeView::Builtin(BuiltinFn::Zeros),
    ).insert(
        "ones"@,
        ShapeView::Builtin(BuiltinFn::Ones),
    ).insert(
        "transpose"@,
        ShapeView::Builtin(BuiltinFn::Transpose),
    ).insert(
        "reshape"@,
        ShapeView::Builtin(BuiltinFn::Reshape),
    ).insert(
        "grad"@,
        ShapeView::Builtin(BuiltinFn::Grad),
    ).insert(
        "iterate"@,
        ShapeView::Builtin(BuiltinFn::Iterate),
    ).insert(
        "abs"@,
        ShapeView::Builtin(BuiltinFn::Abs),
    ).insert(
        "max"@,
        ShapeView::Builtin(BuiltinFn::MaxVal),
    ).insert(
        "min"@,
        ShapeView::Builtin(BuiltinFn::MinVal),
    ).insert(
        "concat"@,
        ShapeView::Builtin(BuiltinFn::Concat),
    ).insert(
        "flatten"@,
        ShapeView::Builtin(BuiltinFn::Flatten),
    ).insert(
        "norm"@,
        ShapeView::Builtin(BuiltinFn::Norm),
    ).insert(
        "clip"@,
        ShapeView::Builtin(BuiltinFn::Clip),
    ).insert(
        "softmax"@,
        ShapeView::Builtin(BuiltinFn::Softmax),
    )
}

/// The functions among the first `n` items, defined.
pub open spec fn functions_shaped(items: Seq<TopLevelView>, n: nat, globals: ShapeGlobalsView) -> ShapeGlobalsView
    decreases n,
{
    if n == 0 || n > items.len() {
        globals
    } else {
        let before = functions_shaped(items, (n - 1) as nat, globals);
        match items[n - 1] {
            TopLevelView::Binding { name, params, body } => if params.len() > 0 {
                before.insert(name, function_shape(params, body, ShapeLocalsView::Empty))
            } else {
                before
            },
            _ => before,
        }
    }
}

/// What a value is registered as: what its annotation says, if that is a
/// tensor, and else what its body has.
pub open spec fn registered(declared: ShapeView, inferred: ShapeView) -> ShapeView {
    if declared is Tensor {
        declared
    } else {
        inferred
    }
}

/// The shape of a value definition, checked against its annotation.
pub open spec fn value_shape(
    items: Seq<TopLevelView>,
    name: Seq<char>,
    body: ExprView,
    env: ShapeEnvView,
    fuel: nat,
) -> Shaped<ShapeView> {
    let (s, fuel) = shape_model(body, env, MAX_APPLY_DEPTH as nat, fuel);
    match s {
        Err(e) => (Err(e), fuel),
        Ok(s) => match annotation_of(items, items.len(), name) {
            None => (Ok(s), fuel),
            Some(ty) => match annotation_error(name, type_shape(ty), s) {
                Some(e) => (Err(e), fuel),
                None => (Ok(registered(type_shape(ty), s)), fuel),
            },
        },
    }
}

/// The values among the first `n` items, worked out in their order and defined.
pub open spec fn values_shaped(
    items: Seq<TopLevelView>,
    n: nat,
    globals: ShapeGlobalsView,
    fuel: nat,
) -> Shaped<ShapeGlobalsView>
    decreases n,
{
    if n == 0 || n > items.len() {
        (Ok(globals), fuel)
    } else {
        let (before, fuel) = values_shaped(items, (n - 1) as nat, globals, fuel);
        match before {
            Err(e) => (Err(e), fuel),
            Ok(before) => match items[n - 1] {
                TopLevelView::Binding { name, params, body } => if params.len() == 0 {
                    let env = ShapeEnvView { locals: ShapeLocalsView::Empty, globals: before };
                    let (s, fuel) = value_shape(items, name, body, env, fuel);
                    match s {
                        Err(e) => (Err(e), fuel),
                        Ok(s) => (Ok(before.insert(name, s)), fuel),
                    }
                } else {
                    (Ok(before), fuel)
                },
                _ => (Ok(before), fuel),
            },
        }
    }
}

/// The functions among the first `n` items, each checked against its
/// annotation where it has one.
pub open spec fn functions_checked(
    items: Seq<TopLevelView>,
    n: nat,
    globals: ShapeGlobalsView,
    fuel: nat,
) -> Shaped<()>
    decreases n,
{
    if n == 0 || n > items.len() {
        (Ok(()), fuel)
    } else {
        let (before, fuel) = functions_checked(items, (n - 1) as nat, globals, fuel);
        match before {
            Err(e) => (Err(e), fuel),
            Ok(_) => match items[n - 1] {
                TopLevelView::Binding { name, params, body } => if params.len() > 0 {
                    match annotation_of(items, items.len(), name) {
                        None => (Ok(()), fuel),
                        Some(ty) => annotated_function(
                            name,
                            params,
                            body,
                            ty,
                            ShapeEnvView { locals: ShapeLocalsView::Empty, globals },
                            fuel,
                        ),
                    }
                } else {
                    (Ok(()), fuel)
                },
                _ => (Ok(()), fuel),
            },
        }
    }
}

/// The top-level shapes of a program: the functions are defined first, then
/// the values in their order, and then annotated functions are checked.
pub open spec fn program_shapes(items: Seq<TopLevelView>) -> Result<
    ShapeGlobalsView,
    ShapeErrorView,
> {
    let functions = functions_shaped(items, items.len(), with_shape_builtins(Map::empty()));
    let (globals, fuel) = values_shaped(items, items.len(), functions, MAX_APPLY_FUEL as nat);
    match globals {
        Err(e) => Err(e),
        Ok(globals) => match functions_checked(items, items.len(), globals, fuel).0 {
            Err(e) => Err(e),
            Ok(_) => Ok(globals),
        },
    }
}

/// The shape of a program: that of `main`.
pub open spec fn program_shape(items: Seq<TopLevelView>) -> Result<ShapeView, ShapeErrorView> {
    match program_shapes(items) {
        Err(e) => Err(e),
        Ok(globals) => Ok(
            if globals.contains_key("main"@) {
                globals["main"@]
            } else {
                ShapeView::Unknown
            },
        ),
    }
}

// ---------------------------------------------------------------------------
// Errors stop what they occur in
// ---------------------------------------------------------------------------

proof fn lemma_shape_row_error(
    row: Seq<ExprView>,
    j: nat,
    n: nat,
    env: ShapeEnvView,
    room: nat,
    fuel: nat,
)
    requires
        j <= n <= row.len(),
        shape_row(row, j, env, room, fuel).0 is Err,
    ensures
        shape_row(row, n, env, room, fuel) == shape_row(row, j, env, room, fuel),
    decreases n - j,
{
    if j < n {
        lemma_shape_row_error(row, j, (n - 1) as nat, env, room, fuel);
    }
}

proof fn lemma_shape_rows_error(
    rows: Seq<Seq<ExprView>>,
    j: nat,
    n: nat,
    env: ShapeEnvView,
    room: nat,
    fuel: nat,
)
    requires
        j <= n <= rows.len(),
        shape_rows(rows, j, env, room, fuel).0 is Err,
    ensures
        shape_rows(rows, n, env, room, fuel) == shape_rows(rows, j, env, room, fuel),
    decreases n - j,
{
    if j < n {
        lemma_shape_rows_error(rows, j, (n - 1) as nat, env, room, fuel);
    }
}

proof fn lemma_values_shaped_error(
    items: Seq<TopLevelView>,
    j: nat,
    n: nat,
    globals: ShapeGlobalsView,
    fuel: nat,
)
    requires
        j <= n <= items.len(),
        values_shaped(items, j, globals, fuel).0 is Err,
    ensures
        values_shaped(items, n, globals, fuel) == values_shaped(items, j, globals, fuel),
    decreases n - j,
{
    if j < n {
        lemma_values_shaped_error(items, j, (n - 1) as nat, globals, fuel);
    }
}

proof fn lemma_functions_checked_error(
    items: Seq<TopLevelView>,
    j: nat,
    n: nat,
    globals: ShapeGlobalsView,
    fuel: nat,
)
    requires
        j <= n <= items.len(),
        functions_checked(items, j, globals, fuel).0 is Err,
    ensures
        functions_checked(items, n, globals, fuel) == functions_checked(items, j, globals, fuel),
    decreases n - j,
{
    if j < n {
        lemma_functions_checked_error(items, j, (n - 1) as nat, globals, fuel);
    }
}

// ---------------------------------------------------------------------------
// Copies
// ---------------------------------------------------------------------------

impl Clone for DimVal {
    fn clone(&self) -> (out: DimVal)
        ensures
            out@ == self@,
    {
        match self {
            DimVal::Concrete(n) => DimVal::Concrete(*n),
            DimVal::Var(s) => DimVal::Var(s.clone()),
            DimVal::Unknown => DimVal::Unknown,
        }
    }
}

fn clone_dims(v: &Vec<DimVal>) -> (out: Vec<DimVal>)
    ensures
        dims_of(out@) == dims_of(v@),
{
    let mut out: Vec<DimVal> = Vec::new();
    let mut i: usize = 0;
    while i < v.len()
        invariant
            i <= v.len(),
            out.len() == i,
            forall|k: int| 0 <= k < i ==> (#[trigger] out@[k])@ == v@[k]@,
        decreases v.len() - i,
    {
        out.push(v[i].clone());
        i = i + 1;
    }
    assert(dims_of(out@) =~= dims_of(v@));
    out
}

fn one_dim(a: DimVal) -> (out: Vec<DimVal>)
    ensures
        dims_of(out@) == seq![a@],
{
    let mut out: Vec<DimVal> = Vec::new();
    out.push(a);
    assert(dims_of(out@) =~= seq![a@]);
    out
}

fn two_dims(a: DimVal, b: DimVal) -> (out: Vec<DimVal>)
    ensures
        dims_of(out@) == seq![a@, b@],
{
    let mut out: Vec<DimVal> = Vec::new();
    out.push(a);
    out.push(b);
    assert(dims_of(out@) =~= seq![a@, b@]);
    out
}

/// A copy of local bindings; the bindings themselves are shared.
fn share_shape_locals(l: &ShapeLocals) -> (out: ShapeLocals)
    ensures
        shape_locals_of(out) == shape_locals_of(*l),
{
    match l {
        None => None,
        Some(node) => Some(Rc::clone(node)),
    }
}

impl Clone for ShapeType {
    fn clone(&self) -> (out: ShapeType)
        ensures
            out@ == self@,
        decreases *self,
    {
        match self {
            ShapeType::Scalar => ShapeType::Scalar,
            ShapeType::Tensor(dims) => ShapeType::Tensor(clone_dims(dims)),
            ShapeType::Closure(c) => ShapeType::Closure(
                ShapeClosure {
                    param: c.param.clone(),
                    body: Rc::clone(&c.body),
                    env: share_shape_locals(&c.env),
                },
            ),
            ShapeType::Builtin(b) => ShapeType::Builtin(*b),
            ShapeType::PartialBuiltin(b, args) => {
                let copies: Vec<ShapeType> = clone_shapes(args);
                proof {
                    lemma_partial_shape_view(*b, *args);
                    lemma_partial_shape_view(*b, copies);
                }
                ShapeType::PartialBuiltin(*b, copies)
            },
            ShapeType::Unknown => ShapeType::Unknown,
        }
    }
}

fn clone_shapes(v: &Vec<ShapeType>) -> (out: Vec<ShapeType>)
    ensures
        shapes_of(out@) == shapes_of(v@),
    decreases v,
{
    let mut out: Vec<ShapeType> = Vec::new();
    let mut i: usize = 0;
    while i < v.len()
        invariant
            i <= v.len(),
            out.len() == i,
            forall|k: int| 0 <= k < i ==> (#[trigger] out@[k])@ == v@[k]@,
        decreases v.len() - i,
    {
        out.push(v[i].clone());
        i = i + 1;
    }
    assert(shapes_of(out@) =~= shapes_of(v@));
    out
}

// ---------------------------------------------------------------------------
// Scopes, executable
// ---------------------------------------------------------------------------

impl ShapeGlobals {
    /// No bindings.
    pub fn empty() -> (out: ShapeGlobals)
        ensures
            out@ == Map::<Seq<char>, ShapeView>::empty(),
    {
        ShapeGlobals { list: Vec::new() }
    }
}

impl ShapeEnv {
    /// A scope without local bindings.
    pub fn empty() -> (out: ShapeEnv)
        ensures
            out@ == ShapeLocalsView::Empty,
    {
        ShapeEnv { locals: None }
    }

    /// The scope of given local bindings.
    fn with_locals(locals: &ShapeLocals) -> (out: ShapeEnv)
        ensures
            out@ == shape_locals_of(*locals),
    {
        ShapeEnv { locals: share_shape_locals(locals) }
    }

    /// Gives a top-level name a shape, in place of an earlier one.
    pub fn define_global(globals: &mut ShapeGlobals, name: String, value: ShapeType)
        ensures
            final(globals)@ == old(globals)@.insert(name@, value@),
    {
        let ghost before = globals.list@;
        globals.list.push(ShapeGlobal { name, value });
        assert(globals.list@.drop_last() =~= before);
    }

    /// The scope with one more local binding in front.
    pub fn extend(&self, name: String, value: ShapeType) -> (out: ShapeEnv)
        ensures
            out@ == (ShapeLocalsView::Bound {
                name: name@,
                value: Box::new(value@),
                parent: Box::new(self@),
            }),
    {
        ShapeEnv {
            locals: Some(
                Rc::new(ShapeEnvNode { name, value, parent: share_shape_locals(&self.locals) }),
            ),
        }
    }

    /// The shape of a name: the nearest local binding, or else the top-level one.
    pub fn lookup(&self, globals: &ShapeGlobals, name: &str) -> (out: Option<ShapeType>)
        ensures
            match shape_scope(self@, globals@).find(name@) {
                Some(s) => out matches Some(x) && x@ == s,
                None => out is None,
            },
    {
        match lookup_local_shape(&self.locals, name) {
            Some(s) => Some(s),
            None => lookup_global_shape(&globals.list, name),
        }
    }
}

fn lookup_local_shape(locals: &ShapeLocals, name: &str) -> (out: Option<ShapeType>)
    ensures
        match find_local_shape(shape_locals_of(*locals), name@) {
            Some(s) => out matches Some(x) && x@ == s,
            None => out is None,
        },
    decreases locals,
{
    match locals {
        None => None,
        Some(node) => if same_text(node.name.as_str(), name) {
            Some(node.value.clone())
        } else {
            lookup_local_shape(&node.parent, name)
        },
    }
}

fn lookup_global_shape(globals: &Vec<ShapeGlobal>, name: &str) -> (out: Option<ShapeType>)
    ensures
        match out {
            Some(x) => shape_globals_of(globals@).contains_key(name@) && x@ == shape_globals_of(
                globals@,
            )[name@],
            None => !shape_globals_of(globals@).contains_key(name@),
        },
{
    let mut i: usize = globals.len();
    assert(globals@.take(globals@.len() as int) =~= globals@);
    while i > 0
        invariant
            i <= globals.len(),
            shape_globals_of(globals@).contains_key(name@) == shape_globals_of(
                globals@.take(i as int),
            ).contains_key(name@),
            shape_globals_of(globals@).contains_key(name@) ==> shape_globals_of(globals@)[name@]
                == shape_globals_of(globals@.take(i as int))[name@],
        decreases i,
    {
        assert(globals@.take(i as int).drop_last() =~= globals@.take(i - 1));
        i = i - 1;
        if same_text(globals[i].name.as_str(), name) {
            return Some(globals[i].value.clone());
        }
    }
    None
}

// ---------------------------------------------------------------------------
// The budget
// ---------------------------------------------------------------------------

/// How deep calls nest at the moment, and how many may still be made.
#[derive(Debug)]
pub struct Budget {
    pub depth: usize,
    pub fuel: u64,
}

impl Budget {
    pub open spec fn wf(&self) -> bool {
        self.depth <= MAX_APPLY_DEPTH
    }

    /// How deep calls may still nest.
    pub open spec fn room(&self) -> nat {
        (MAX_APPLY_DEPTH - self.depth) as nat
    }

    /// The whole budget.
    pub fn full() -> (out: Budget)
        ensures
            out.wf(),
            out.room() == MAX_APPLY_DEPTH,
            out.fuel == MAX_APPLY_FUEL,
    {
        Budget { depth: 0, fuel: MAX_APPLY_FUEL }
    }

    /// Goes one call deeper, where there is room.
    pub fn enter(&mut self) -> (entered: bool)
        requires
            old(self).wf(),
        ensures
            final(self).wf(),
            final(self).fuel == old(self).fuel,
            entered == (old(self).room() > 0),
            final(self).depth == if entered {
                old(self).depth + 1
            } else {
                old(self).depth as int
            },
    {
        if self.depth >= MAX_APPLY_DEPTH {
            false
        } else {
            self.depth = self.depth + 1;
            true
        }
    }

    /// Comes back from a call.
    pub fn leave(&mut self)
        requires
            old(self).wf(),
            old(self).depth > 0,
        ensures
            final(self).wf(),
            final(self).fuel == old(self).fuel,
            final(self).depth == old(self).depth - 1,
    {
        self.depth = self.depth - 1;
    }

    /// Takes one call from those that may be made, where there is one.
    pub fn consume_fuel(&mut self) -> (taken: bool)
        requires
            old(self).wf(),
        ensures
            final(self).wf(),
            final(self).depth == old(self).depth,
            taken == (old(self).fuel > 0),
            final(self).fuel == if taken {
                old(self).fuel - 1
            } else {
                old(self).fuel as int
            },
    {
        if self.fuel == 0 {
            false
        } else {
            self.fuel = self.fuel - 1;
            true
        }
    }
}

// ---------------------------------------------------------------------------
// Operators, executable
// ---------------------------------------------------------------------------

/// Whether a result is what the model says.
pub open spec fn shape_is(
    r: Result<ShapeType, ShapeError>,
    model: Result<ShapeView, ShapeErrorView>,
) -> bool {
    match model {
        Ok(s) => r matches Ok(x) && x@ == s,
        Err(e) => r matches Err(x) && x@ == e,
    }
}

/// What comes of comparing two dimensions.
#[derive(Debug)]
pub enum DimConflictKind {
    Agree,
    ConcreteMismatch,
    VarMismatch(String, String),
}

pub open spec fn conflict_of(k: DimConflictKind) -> DimConflict {
    match k {
        DimConflictKind::Agree => DimConflict::Agree,
        DimConflictKind::ConcreteMismatch => DimConflict::ConcreteMismatch,
        DimConflictKind::VarMismatch(a, b) => DimConflict::VarMismatch(a@, b@),
    }
}

/// Whether, and how, two dimensions conflict that have to be the same.
pub fn dim_pair_conflict(x: &DimVal, y: &DimVal) -> (k: DimConflictKind)
    ensures
        conflict_of(k) == dim_conflict(x@, y@),
{
    match (x, y) {
        (DimVal::Concrete(a), DimVal::Concrete(b)) => if *a != *b {
            DimConflictKind::ConcreteMismatch
        } else {
            DimConflictKind::Agree
        },
        (DimVal::Var(a), DimVal::Var(b)) => if !same_text(a.as_str(), b.as_str()) {
            DimConflictKind::VarMismatch(a.clone(), b.clone())
        } else {
            DimConflictKind::Agree
        },
        _ => DimConflictKind::Agree,
    }
}

fn matmul_shape(a: &Vec<DimVal>, b: &Vec<DimVal>) -> (r: Result<ShapeType, ShapeError>)
    ensures
        shape_is(r, matmul_shape_model(dims_of(a@), dims_of(b@))),
{
    if a.len() != 2 || (b.len() != 2 && b.len() != 1) {
        return Ok(ShapeType::Unknown);
    }
    match dim_pair_conflict(&a[1], &b[0]) {
        DimConflictKind::ConcreteMismatch => Err(
            ShapeError::MatMulMismatch { a: clone_dims(a), b: clone_dims(b) },
        ),
        DimConflictKind::VarMismatch(x, y) => Err(
            ShapeError::VarConflict { op: "@", var_a: x, var_b: y },
        ),
        DimConflictKind::Agree => if b.len() == 2 {
            Ok(ShapeType::Tensor(two_dims(a[0].clone(), b[1].clone())))
        } else {
            Ok(ShapeType::Tensor(one_dim(a[0].clone())))
        },
    }
}

fn elementwise_shape(op: &'static str, l: &ShapeType, r: &ShapeType) -> (out: Result<
    ShapeType,
    ShapeError,
>)
    ensures
        shape_is(out, elementwise_shape_model(op@, l@, r@)),
{
    match (l, r) {
        (ShapeType::Tensor(a), ShapeType::Tensor(b)) => {
            if a.len() != b.len() {
                return Err(
                    ShapeError::ElementwiseMismatch { op, a: clone_dims(a), b: clone_dims(b) },
                );
            }
            let ghost x = dims_of(a@);
            let ghost y = dims_of(b@);
            let mut i: usize = 0;
            while i < a.len()
                invariant
                    a.len() == b.len(),
                    x == dims_of(a@),
                    y == dims_of(b@),
                    l@ == ShapeView::Tensor(x),
                    r@ == ShapeView::Tensor(y),
                    i <= a.len(),
                    elementwise_from(op@, x, y, 0) == elementwise_from(op@, x, y, i as int),
                decreases a.len() - i,
            {
                match dim_pair_conflict(&a[i], &b[i]) {
                    DimConflictKind::ConcreteMismatch => {
                        return Err(
                            ShapeError::ElementwiseMismatch {
                                op,
                                a: clone_dims(a),
                                b: clone_dims(b),
                            },
                        );
                    },
                    DimConflictKind::VarMismatch(u, v) => {
                        return Err(ShapeError::VarConflict { op, var_a: u, var_b: v });
                    },
                    DimConflictKind::Agree => {},
                }
                i = i + 1;
            }
            Ok(ShapeType::Tensor(clone_dims(a)))
        },
        (ShapeType::Tensor(d), ShapeType::Scalar) => Ok(ShapeType::Tensor(clone_dims(d))),
        (ShapeType::Scalar, ShapeType::Tensor(d)) => Ok(ShapeType::Tensor(clone_dims(d))),
        (ShapeType::Scalar, ShapeType::Scalar) => Ok(ShapeType::Scalar),
        _ => Ok(ShapeType::Unknown),
    }
}

fn shape_eval_binop(op: BinOpKind, l: &ShapeType, r: &ShapeType) -> (out: Result<
    ShapeType,
    ShapeError,
>)
    ensures
        shape_is(out, binop_shape(op, l@, r@)),
{
    match op {
        BinOpKind::Add | BinOpKind::Sub | BinOpKind::Mul | BinOpKind::Div | BinOpKind::Pow =>
            elementwise_shape(symbol_of(op), l, r),
        BinOpKind::MatMul => match (l, r) {
            (ShapeType::Tensor(a), ShapeType::Tensor(b)) => matmul_shape(a, b),
            _ => Ok(ShapeType::Unknown),
        },
        _ => Ok(ShapeType::Scalar),
    }
}

fn same_dim(a: &DimVal, b: &DimVal) -> (answer: bool)
    ensures
        answer == (a@ == b@),
{
    match (a, b) {
        (DimVal::Concrete(x), DimVal::Concrete(y)) => *x == *y,
        (DimVal::Var(x), DimVal::Var(y)) => same_text(x.as_str(), y.as_str()),
        (DimVal::Unknown, DimVal::Unknown) => true,
        _ => false,
    }
}

/// Whether two shapes are certainly the same.
fn shape_eq(a: &ShapeType, b: &ShapeType) -> (answer: bool)
    ensures
        answer == same_shapes(a@, b@),
{
    match (a, b) {
        (ShapeType::Scalar, ShapeType::Scalar) => true,
        (ShapeType::Tensor(x), ShapeType::Tensor(y)) => {
            if x.len() != y.len() {
                assert(dims_of(x@).len() != dims_of(y@).len());
                return false;
            }
            let mut i: usize = 0;
            while i < x.len()
                invariant
                    x.len() == y.len(),
                    a@ == ShapeView::Tensor(dims_of(x@)),
                    b@ == ShapeView::Tensor(dims_of(y@)),
                    i <= x.len(),
                    forall|k: int| 0 <= k < i ==> dims_of(x@)[k] == dims_of(y@)[k],
                decreases x.len() - i,
            {
                if !same_dim(&x[i], &y[i]) {
                    assert(dims_of(x@)[i as int] != dims_of(y@)[i as int]);
                    return false;
                }
                i = i + 1;
            }
            assert(dims_of(x@) =~= dims_of(y@));
            true
        },
        _ => false,
    }
}

// Built-in functions

fn dim_of_size(n: Option<usize>) -> (d: DimVal)
    ensures
        d@ == match n {
            Some(n) => DimView::Concrete(n),
            None => DimView::Unknown,
        },
{
    match n {
        Some(n) => DimVal::Concrete(n),
        None => DimVal::Unknown,
    }
}

/// The shape of what a built-in function gives that calls no other function.
fn apply_shape_builtin(b: BuiltinFn, args: &Vec<ShapeType>) -> (s: ShapeType)
    requires
        args.len() == arity(b),
    ensures
        s@ == builtin_shape(b, shapes_of(args@)),
{
    match b {
        BuiltinFn::Sum
        | BuiltinFn::Mean
        | BuiltinFn::MaxVal
        | BuiltinFn::MinVal
        | BuiltinFn::Norm => ShapeType::Scalar,
        BuiltinFn::Exp
        | BuiltinFn::Log
        | BuiltinFn::Tanh
        | BuiltinFn::Sqrt
        | BuiltinFn::Abs
        | BuiltinFn::Softmax => args[0].clone(),
        BuiltinFn::Clip => args[2].clone(),
        BuiltinFn::Transpose => match &args[0] {
            ShapeType::Tensor(d) => if d.len() == 2 {
                ShapeType::Tensor(two_dims(d[1].clone(), d[0].clone()))
            } else {
                ShapeType::Unknown
            },
            _ => ShapeType::Unknown,
        },
        BuiltinFn::Concat => match (&args[0], &args[1]) {
            (ShapeType::Tensor(a), ShapeType::Tensor(b)) => if a.len() == 1 && b.len() == 1 {
                match (&a[0], &b[0]) {
                    (DimVal::Concrete(x), DimVal::Concrete(y)) => ShapeType::Tensor(
                        one_dim(dim_of_size(x.checked_add(*y))),
                    ),
                    _ => ShapeType::Tensor(one_dim(DimVal::Unknown)),
                }
            } else {
                ShapeType::Unknown
            },
            _ => ShapeType::Unknown,
        },
        BuiltinFn::Flatten => match &args[0] {
            ShapeType::Tensor(d) => if d.len() == 2 {
                match (&d[0], &d[1]) {
                    (DimVal::Concrete(x), DimVal::Concrete(y)) => {
                        proof {
                            assert(*x * *y >= 0) by (nonlinear_arith)
                                requires
                                    *x >= 0,
                                    *y >= 0,
                            ;
                        }
                        ShapeType::Tensor(one_dim(dim_of_size(x.checked_mul(*y))))
                    },
                    _ => ShapeType::Tensor(one_dim(DimVal::Unknown)),
                }
            } else {
                ShapeType::Unknown
            },
            _ => ShapeType::Unknown,
        },
        _ => ShapeType::Unknown,
    }
}

fn size_of_literal(e: &Expr) -> (n: Option<usize>)
    ensures
        n == literal_size(e@),
{
    match e {
        Expr::Lit(Literal::Int(n)) => if 0 <= *n && *n <= MAX_EXACT && *n as u64
            <= usize::MAX as u64 {
            Some(*n as usize)
        } else {
            None
        },
        _ => None,
    }
}

/// The shape that the argument of `zeros` or `ones` certainly denotes.
fn shape_of_literal(e: &Expr) -> (r: Option<Vec<DimVal>>)
    ensures
        match literal_shape(e@) {
            Some(dims) => r matches Some(x) && dims_of(x@) == dims,
            None => r is None,
        },
{
    match e {
        Expr::TensorLit(rows) => {
            let ghost model = rows_of(rows@);
            proof {
                lemma_tensor_lit_view(*rows);
            }
            if rows.len() != 1 || rows[0].len() == 0 {
                proof {
                    if rows.len() == 1 {
                        assert(model[0] == row_of(rows@[0]@));
                    }
                }
                return None;
            }
            let row: &Vec<Expr> = &rows[0];
            let ghost cells = model[0];
            assert(cells == row_of(row@));
            let mut dims: Vec<DimVal> = Vec::new();
            let mut i: usize = 0;
            while i < row.len()
                invariant
                    cells == row_of(row@),
                    model.len() == 1,
                    model[0] == cells,
                    cells.len() > 0,
                    e@ == ExprView::TensorLit(model),
                    i <= row.len(),
                    dims.len() == i,
                    forall|k: int| 0 <= k < i ==> literal_size(#[trigger] cells[k]) is Some,
                    forall|k: int|
                        0 <= k < i ==> (#[trigger] dims@[k])@ == DimView::Concrete(
                            literal_size(cells[k])->0,
                        ),
                decreases row.len() - i,
            {
                assert(cells[i as int] == row@[i as int]@);
                match size_of_literal(&row[i]) {
                    Some(n) => {
                        dims.push(DimVal::Concrete(n));
                    },
                    None => {
                        return None;
                    },
                }
                i = i + 1;
            }
            assert(dims_of(dims@) =~= literal_shape(e@)->0);
            Some(dims)
        },
        _ => match size_of_literal(e) {
            Some(n) => Some(one_dim(DimVal::Concrete(n))),
            None => None,
        },
    }
}

/// What an application is certain to give by its argument's own text.
fn apply_to_literal(f: &ShapeType, arg: &Expr) -> (r: Option<Vec<DimVal>>)
    ensures
        match literal_application(f@, arg@) {
            Some(dims) => r matches Some(x) && dims_of(x@) == dims,
            None => r is None,
        },
{
    match f {
        ShapeType::Builtin(BuiltinFn::Zeros) | ShapeType::Builtin(BuiltinFn::Ones) =>
            shape_of_literal(arg),
        _ => None,
    }
}

// ---------------------------------------------------------------------------
// Abstract evaluation, executable
// ---------------------------------------------------------------------------

/// Whether what was worked out, and what is left of the budget, is what the
/// model says.
pub open spec fn shaped_is(
    r: Result<ShapeType, ShapeError>,
    before: &Budget,
    after: &Budget,
    model: Shaped<ShapeView>,
) -> bool {
    &&& after.wf()
    &&& after.depth == before.depth
    &&& after.fuel == model.1
    &&& shape_is(r, model.0)
}

fn make_function_shape(params: &Vec<String>, body: &Expr, env: &ShapeLocals) -> (s: ShapeType)
    requires
        params.len() > 0,
    ensures
        s@ == function_shape(names_of(params@), body@, shape_locals_of(*env)),
{
    ShapeType::Closure(
        ShapeClosure {
            param: params[0].clone(),
            body: Rc::new(desugar_lambda(params, 1, body)),
            env: share_shape_locals(env),
        },
    )
}

/// The shape of an expression.
pub fn shape_eval(
    expr: &Expr,
    env: &ShapeEnv,
    globals: &ShapeGlobals,
    budget: &mut Budget,
) -> (out: Result<
    ShapeType,
    ShapeError,
>)
    requires
        old(budget).wf(),
    ensures
        shaped_is(
            out,
            old(budget),
            final(budget),
            shape_model(
                expr@,
                shape_scope(env@, globals@),
                old(budget).room(),
                old(budget).fuel as nat,
            ),
        ),
    decreases old(budget).room(), 1int, 0nat, expr, 0int,
{
    match expr {
        Expr::Lit(_) => Ok(ShapeType::Scalar),
        Expr::Var(name) => match env.lookup(globals, name.as_str()) {
            Some(s) => Ok(s),
            None => Ok(ShapeType::Unknown),
        },
        Expr::UnaryMinus(x) => shape_eval(x, env, globals, budget),
        Expr::BinOp { op, left, right } => {
            let l: ShapeType = match shape_eval(left, env, globals, budget) {
                Ok(s) => s,
                Err(e) => {
                    return Err(e);
                },
            };
            let r: ShapeType = match shape_eval(right, env, globals, budget) {
                Ok(s) => s,
                Err(e) => {
                    return Err(e);
                },
            };
            shape_eval_binop(*op, &l, &r)
        },
        Expr::App(func, arg) => {
            let f: ShapeType = match shape_eval(func, env, globals, budget) {
                Ok(s) => s,
                Err(e) => {
                    return Err(e);
                },
            };
            let a: ShapeType = match shape_eval(arg, env, globals, budget) {
                Ok(s) => s,
                Err(e) => {
                    return Err(e);
                },
            };
            match apply_to_literal(&f, arg) {
                Some(dims) => Ok(ShapeType::Tensor(dims)),
                None => apply_shape(&f, &a, globals, budget),
            }
        },
        Expr::Pipe(arg, func) => {
            let a: ShapeType = match shape_eval(arg, env, globals, budget) {
                Ok(s) => s,
                Err(e) => {
                    return Err(e);
                },
            };
            let f: ShapeType = match shape_eval(func, env, globals, budget) {
                Ok(s) => s,
                Err(e) => {
                    return Err(e);
                },
            };
            match apply_to_literal(&f, arg) {
                Some(dims) => Ok(ShapeType::Tensor(dims)),
                None => apply_shape(&f, &a, globals, budget),
            }
        },
        Expr::Lambda { param, body } => Ok(
            ShapeType::Closure(
                ShapeClosure {
                    param: param.clone(),
                    body: Rc::new((**body).clone()),
                    env: share_shape_locals(&env.locals),
                },
            ),
        ),
        Expr::Let { name, params, value, body } => {
            let v: ShapeType = if params.len() == 0 {
                match shape_eval(value, env, globals, budget) {
                    Ok(s) => s,
                    Err(e) => {
                        return Err(e);
                    },
                }
            } else {
                make_function_shape(params, value, &env.locals)
            };
            let inner: ShapeEnv = env.extend(name.clone(), v);
            shape_eval(body, &inner, globals, budget)
        },
        Expr::If { cond, then, else_ } => {
            match shape_eval(cond, env, globals, budget) {
                Ok(_) => {},
                Err(e) => {
                    return Err(e);
                },
            }
            let t: ShapeType = match shape_eval(then, env, globals, budget) {
                Ok(s) => s,
                Err(e) => {
                    return Err(e);
                },
            };
            let e: ShapeType = match shape_eval(else_, env, globals, budget) {
                Ok(s) => s,
                Err(e) => {
                    return Err(e);
                },
            };
            if shape_eq(&t, &e) {
                Ok(t)
            } else {
                Ok(ShapeType::Unknown)
            }
        },
        Expr::TensorLit(rows) => shape_eval_tensor_lit(rows, env, globals, budget),
    }
}

/// The shape of a tensor literal.
pub fn shape_eval_tensor_lit(
    rows: &Vec<Vec<Expr>>,
    env: &ShapeEnv,
    globals: &ShapeGlobals,
    budget: &mut Budget,
) -> (out: Result<
    ShapeType,
    ShapeError,
>)
    requires
        old(budget).wf(),
    ensures
        shaped_is(
            out,
            old(budget),
            final(budget),
            shape_model(
                Expr::TensorLit(*rows)@,
                shape_scope(env@, globals@),
                old(budget).room(),
                old(budget).fuel as nat,
            ),
        ),
    decreases old(budget).room(), 1int, 0nat, rows, 0int,
{
    let ghost model = rows_of(rows@);
    let ghost room = budget.room();
    let ghost fuel = budget.fuel as nat;
    let n: usize = rows.len();
    proof {
        lemma_tensor_lit_view(*rows);
        if n > 0 {
            assert(model[0] == row_of(rows@[0]@));
        }
    }
    if n == 0 || (n == 1 && rows[0].len() == 0) {
        return Ok(ShapeType::Tensor(one_dim(DimVal::Concrete(0))));
    }
    let cols: usize = rows[0].len();
    let mut scalars: bool = true;
    let mut i: usize = 0;
    while i < n
        invariant
            model == rows_of(rows@),
            Expr::TensorLit(*rows)@ == ExprView::TensorLit(model),
            n == rows.len(),
            n > 0,
            !(n == 1 && cols == 0),
            cols == model[0].len(),
            room == old(budget).room(),
            fuel == old(budget).fuel,
            budget.wf(),
            budget.depth == old(budget).depth,
            i <= n,
            shape_rows(model, i as nat, shape_scope(env@, globals@), room, fuel) == (
                Ok::<bool, ShapeErrorView>(scalars),
                budget.fuel as nat,
            ),
        decreases n - i,
    {
        assert(model[i as int] == row_of(rows@[i as int]@));
        if rows[i].len() != cols {
            proof {
                lemma_shape_rows_error(
                    model,
                    (i + 1) as nat,
                    n as nat,
                    shape_scope(env@, globals@),
                    room,
                    fuel,
                );
            }
            return Err(ShapeError::NonUniformTensor);
        }
        match shape_eval_row(&rows[i], env, globals, budget) {
            Ok(all) => {
                scalars = scalars && all;
            },
            Err(e) => {
                proof {
                    lemma_shape_rows_error(
                        model,
                        (i + 1) as nat,
                        n as nat,
                        shape_scope(env@, globals@),
                        room,
                        fuel,
                    );
                }
                return Err(e);
            },
        }
        i = i + 1;
    }
    if !scalars {
        Ok(ShapeType::Unknown)
    } else if n == 1 {
        Ok(ShapeType::Tensor(one_dim(DimVal::Concrete(cols))))
    } else {
        Ok(ShapeType::Tensor(two_dims(DimVal::Concrete(n), DimVal::Concrete(cols))))
    }
}

/// Whether all elements of a row are scalars.
fn shape_eval_row(
    row: &Vec<Expr>,
    env: &ShapeEnv,
    globals: &ShapeGlobals,
    budget: &mut Budget,
) -> (out: Result<
    bool,
    ShapeError,
>)
    requires
        old(budget).wf(),
    ensures
        final(budget).wf(),
        final(budget).depth == old(budget).depth,
        ({
            let model = shape_row(
                row_of(row@),
                row@.len(),
                shape_scope(env@, globals@),
                old(budget).room(),
                old(budget).fuel as nat,
            );
            &&& final(budget).fuel == model.1
            &&& match model.0 {
                Ok(b) => out matches Ok(x) && x == b,
                Err(e) => out matches Err(x) && x@ == e,
            }
        }),
    decreases old(budget).room(), 1int, 0nat, row, 0int,
{
    let ghost model = row_of(row@);
    let ghost room = budget.room();
    let ghost fuel = budget.fuel as nat;
    let mut scalars: bool = true;
    let mut j: usize = 0;
    while j < row.len()
        invariant
            model == row_of(row@),
            room == old(budget).room(),
            fuel == old(budget).fuel,
            budget.wf(),
            budget.depth == old(budget).depth,
            j <= row.len(),
            shape_row(model, j as nat, shape_scope(env@, globals@), room, fuel) == (
                Ok::<bool, ShapeErrorView>(scalars),
                budget.fuel as nat,
            ),
        decreases row.len() - j,
    {
        assert(model[j as int] == row@[j as int]@);
        match shape_eval(&row[j], env, globals, budget) {
            Ok(s) => {
                if !matches!(s, ShapeType::Scalar) {
                    scalars = false;
                }
            },
            Err(e) => {
                proof {
                    lemma_shape_row_error(
                        model,
                        (j + 1) as nat,
                        row@.len(),
                        shape_scope(env@, globals@),
                        room,
                        fuel,
                    );
                }
                return Err(e);
            },
        }
        j = j + 1;
    }
    Ok(scalars)
}

/// The shape of a function's value on an argument.
fn apply_shape(
    f: &ShapeType,
    a: &ShapeType,
    globals: &ShapeGlobals,
    budget: &mut Budget,
) -> (out: Result<
    ShapeType,
    ShapeError,
>)
    requires
        old(budget).wf(),
    ensures
        shaped_is(
            out,
            old(budget),
            final(budget),
            shape_apply(
                f@,
                a@,
                globals@,
                old(budget).room(),
                old(budget).fuel as nat,
            ),
        ),
    decreases old(budget).room(), 0int, weight(f@) + weight(a@), f, 0int,
{
    match f {
        ShapeType::Closure(c) => {
            if !budget.enter() {
                return Ok(ShapeType::Unknown);
            }
            if !budget.consume_fuel() {
                budget.leave();
                return Ok(ShapeType::Unknown);
            }
            let inner: ShapeEnv = ShapeEnv::with_locals(&c.env).extend(c.param.clone(), a.clone());
            let out: Result<ShapeType, ShapeError> = shape_eval(&c.body, &inner, globals, budget);
            budget.leave();
            out
        },
        ShapeType::Builtin(b) => {
            let mut args: Vec<ShapeType> = Vec::new();
            args.push(a.clone());
            assert(shapes_of(args@) =~= seq![a@]);
            if builtin_arity(*b) == 1 {
                Ok(apply_shape_builtin(*b, &args))
            } else {
                proof {
                    lemma_partial_shape_view(*b, args);
                }
                Ok(ShapeType::PartialBuiltin(*b, args))
            }
        },
        ShapeType::PartialBuiltin(b, old_args) => {
            let ghost before = shapes_of(old_args@);
            proof {
                lemma_partial_shape_view(*b, *old_args);
                assert(before.len() == old_args@.len());
            }
            if old_args.len() != builtin_arity(*b) - 1 {
                let mut args: Vec<ShapeType> = clone_shapes(old_args);
                assert(shapes_of(args@).len() == args@.len());
                args.push(a.clone());
                proof {
                    assert(shapes_of(args@) =~= before.push(a@));
                    lemma_partial_shape_view(*b, args);
                }
                return Ok(ShapeType::PartialBuiltin(*b, args));
            }
            if matches!(b, BuiltinFn::Grad) {
                proof {
                    lemma_weights(before, 0);
                }
                return match apply_shape(&old_args[0], a, globals, budget) {
                    Ok(_) => Ok(a.clone()),
                    Err(e) => Err(e),
                };
            }
            if matches!(b, BuiltinFn::Iterate) {
                proof {
                    lemma_weights(before, 0);
                }
                return match apply_shape(a, &old_args[0], globals, budget) {
                    Ok(_) => Ok(old_args[0].clone()),
                    Err(e) => Err(e),
                };
            }
            let mut args: Vec<ShapeType> = clone_shapes(old_args);
            assert(shapes_of(args@).len() == args@.len());
            args.push(a.clone());
            assert(shapes_of(args@) =~= before.push(a@));
            Ok(apply_shape_builtin(*b, &args))
        },
        _ => Ok(ShapeType::Unknown),
    }
}

// ---------------------------------------------------------------------------
// Annotations, executable
// ---------------------------------------------------------------------------

/// Whether a definition's shape goes with what its annotation says.
fn check_annotation(name: &str, declared: &ShapeType, inferred: &ShapeType) -> (r: Result<
    (),
    ShapeError,
>)
    ensures
        match annotation_error(name@, declared@, inferred@) {
            Some(e) => r matches Err(x) && x@ == e,
            None => r is Ok,
        },
{
    match (declared, inferred) {
        (ShapeType::Tensor(d), ShapeType::Tensor(i)) => {
            let ghost x = dims_of(d@);
            let ghost y = dims_of(i@);
            let mut clash: bool = d.len() != i.len();
            let mut k: usize = 0;
            while !clash && k < d.len()
                invariant
                    x == dims_of(d@),
                    y == dims_of(i@),
                    !clash ==> d.len() == i.len(),
                    k <= d.len(),
                    clash ==> x.len() != y.len() || (exists|j: int|
                        0 <= j < x.len() && #[trigger] dims_clash(x[j], y[j])),
                    !clash ==> forall|j: int| 0 <= j < k ==> !#[trigger] dims_clash(x[j], y[j]),
                decreases d.len() - k, (if clash { 0int } else { 1 }),
            {
                if !matches!(dim_pair_conflict(&d[k], &i[k]), DimConflictKind::Agree) {
                    assert(dims_clash(x[k as int], y[k as int]));
                    clash = true;
                } else {
                    assert(!dims_clash(x[k as int], y[k as int]));
                    k = k + 1;
                }
            }
            if clash {
                Err(
                    ShapeError::AnnotationMismatch {
                        name: name.to_owned(),
                        declared: clone_dims(d),
                        inferred: clone_dims(i),
                    },
                )
            } else {
                Ok(())
            }
        },
        _ => Ok(()),
    }
}

/// The shape that a type says.
fn shape_of_type(ty: &TypeExpr) -> (s: ShapeType)
    ensures
        s@ == type_shape(ty@),
{
    match ty {
        TypeExpr::Named(n) => {
            let name: &str = n.as_str();
            if same_text(name, "f32") || same_text(name, "f64") || same_text(name, "Int")
                || same_text(name, "Bool") || same_text(name, "Float") {
                ShapeType::Scalar
            } else {
                ShapeType::Unknown
            }
        },
        TypeExpr::Tensor(dims) => {
            let ghost goal = Seq::new(
                dims@.len(),
                |i: int| dim_of_type(type_dims_of(dims@)[i]),
            );
            let mut out: Vec<DimVal> = Vec::new();
            let mut i: usize = 0;
            while i < dims.len()
                invariant
                    goal == Seq::new(dims@.len(), |i: int| dim_of_type(type_dims_of(dims@)[i])),
                    i <= dims.len(),
                    out.len() == i,
                    forall|k: int| 0 <= k < i ==> (#[trigger] out@[k])@ == goal[k],
                decreases dims.len() - i,
            {
                let d: DimVal = match &dims[i] {
                    TypeDim::Fixed(n) => DimVal::Concrete(*n),
                    TypeDim::Var(s) => DimVal::Var(s.clone()),
                    TypeDim::Expr(_) => DimVal::Unknown,
                };
                out.push(d);
                i = i + 1;
            }
            assert(dims_of(out@) =~= goal);
            ShapeType::Tensor(out)
        },
        TypeExpr::Arrow(_, _) => ShapeType::Unknown,
        TypeExpr::App(_, _) => ShapeType::Unknown,
    }
}

/// The shapes of the first parameters of a function type, and of what is left
/// of it behind them.
fn decompose_arrow(ty: &TypeExpr, n: usize) -> (out: (Vec<ShapeType>, ShapeType))
    ensures
        shapes_of(out.0@) == param_shapes(ty@, n as nat),
        out.1@ == return_shape(ty@, n as nat),
{
    let mut params: Vec<ShapeType> = Vec::new();
    let mut rest: &TypeExpr = ty;
    let mut i: usize = 0;
    assert(shapes_of(params@) + param_shapes(ty@, n as nat) =~= param_shapes(ty@, n as nat));
    while i < n
        invariant
            i <= n,
            param_shapes(ty@, n as nat) == shapes_of(params@) + param_shapes(
                rest@,
                (n - i) as nat,
            ),
            return_shape(ty@, n as nat) == return_shape(rest@, (n - i) as nat),
        decreases n - i,
    {
        match rest {
            TypeExpr::Arrow(a, b) => {
                let s: ShapeType = shape_of_type(a);
                let ghost before = shapes_of(params@);
                let ghost model = s@;
                params.push(s);
                proof {
                    assert(shapes_of(params@) =~= before.push(model));
                    let tail = param_shapes((**b)@, (n - i - 1) as nat);
                    assert(before + (seq![model] + tail) =~= before.push(model) + tail);
                }
                rest = b;
                i = i + 1;
            },
            _ => {
                assert(shapes_of(params@) + Seq::<ShapeView>::empty() =~= shapes_of(params@));
                return (params, shape_of_type(rest));
            },
        }
    }
    proof {
        assert(param_shapes(rest@, 0) =~= Seq::<ShapeView>::empty());
        assert(shapes_of(params@) + Seq::<ShapeView>::empty() =~= shapes_of(params@));
    }
    (params, shape_of_type(rest))
}

/// Checks a function's body against its annotation.
fn check_annotated_fn(
    name: &str,
    params: &Vec<String>,
    body: &Expr,
    ty: &TypeExpr,
    globals: &ShapeGlobals,
    budget: &mut Budget,
) -> (r: Result<(), ShapeError>)
    requires
        old(budget).wf(),
        old(budget).room() == MAX_APPLY_DEPTH,
    ensures
        final(budget).wf(),
        final(budget).depth == old(budget).depth,
        ({
            let model = annotated_function(
                name@,
                names_of(params@),
                body@,
                ty@,
                shape_scope(ShapeLocalsView::Empty, globals@),
                old(budget).fuel as nat,
            );
            &&& final(budget).fuel == model.1
            &&& match model.0 {
                Ok(_) => r is Ok,
                Err(e) => r matches Err(x) && x@ == e,
            }
        }),
{
    let n: usize = params.len();
    let ghost names = names_of(params@);
    let (shapes, result) = decompose_arrow(ty, n);
    let mut env: ShapeEnv = ShapeEnv::empty();
    let mut i: usize = 0;
    while i < n
        invariant
            n == params.len(),
            names == names_of(params@),
            i <= n,
            shape_scope(env@, globals@) == params_bound(
                shape_scope(ShapeLocalsView::Empty, globals@),
                names,
                shapes_of(shapes@),
                i as nat,
            ),
        decreases n - i,
    {
        let s: ShapeType = if i < shapes.len() {
            shapes[i].clone()
        } else {
            ShapeType::Unknown
        };
        env = env.extend(params[i].clone(), s);
        i = i + 1;
    }
    match shape_eval(body, &env, globals, budget) {
        Ok(s) => check_annotation(name, &result, &s),
        Err(e) => Err(e),
    }
}

// ---------------------------------------------------------------------------
// Programs, executable
// ---------------------------------------------------------------------------

/// The last annotation of a name.
fn find_annotation<'a>(program: &'a Program, name: &str) -> (r: Option<&'a TypeExpr>)
    ensures
        match annotation_of(items_of(program@), program@.len(), name@) {
            Some(ty) => r matches Some(x) && x@ == ty,
            None => r is None,
        },
{
    let ghost items = items_of(program@);
    let mut i: usize = program.len();
    while i > 0
        invariant
            items == items_of(program@),
            i <= program.len(),
            annotation_of(items, program@.len(), name@) == annotation_of(items, i as nat, name@),
        decreases i,
    {
        i = i - 1;
        assert(items[i as int] == program@[i as int]@);
        match &program[i] {
            TopLevel::TypeAnnotation { name: other, ty } => {
                if same_text(other.as_str(), name) {
                    return Some(ty);
                }
            },
            TopLevel::Binding { .. } => {},
        }
    }
    None
}

/// Defines the built-in functions under their names.
fn load_builtins(globals: &mut ShapeGlobals)
    ensures
        final(globals)@ == with_shape_builtins(old(globals)@),
{
    ShapeEnv::define_global(globals, "sum".to_owned(), ShapeType::Builtin(BuiltinFn::Sum));
    ShapeEnv::define_global(globals, "mean".to_owned(), ShapeType::Builtin(BuiltinFn::Mean));
    ShapeEnv::define_global(globals, "exp".to_owned(), ShapeType::Builtin(BuiltinFn::Exp));
    ShapeEnv::define_global(globals, "log".to_owned(), ShapeType::Builtin(BuiltinFn::Log));
    ShapeEnv::define_global(globals, "tanh".to_owned(), ShapeType::Builtin(BuiltinFn::Tanh));
    ShapeEnv::define_global(globals, "sqrt".to_owned(), ShapeType::Builtin(BuiltinFn::Sqrt));
    ShapeEnv::define_global(globals, "zeros".to_owned(), ShapeType::Builtin(BuiltinFn::Zeros));
    ShapeEnv::define_global(globals, "ones".to_owned(), ShapeType::Builtin(BuiltinFn::Ones));
    ShapeEnv::define_global(globals, "transpose".to_owned(), ShapeType::Builtin(BuiltinFn::Transpose));
    ShapeEnv::define_global(globals, "reshape".to_owned(), ShapeType::Builtin(BuiltinFn::Reshape));
    ShapeEnv::define_global(globals, "grad".to_owned(), ShapeType::Builtin(BuiltinFn::Grad));
    ShapeEnv::define_global(globals, "iterate".to_owned(), ShapeType::Builtin(BuiltinFn::Iterate));
    ShapeEnv::define_global(globals, "abs".to_owned(), ShapeType::Builtin(BuiltinFn::Abs));
    ShapeEnv::define_global(globals, "max".to_owned(), ShapeType::Builtin(BuiltinFn::MaxVal));
    ShapeEnv::define_global(globals, "min".to_owned(), ShapeType::Builtin(BuiltinFn::MinVal));
    ShapeEnv::define_global(globals, "concat".to_owned(), ShapeType::Builtin(BuiltinFn::Concat));
    ShapeEnv::define_global(globals, "flatten".to_owned(), ShapeType::Builtin(BuiltinFn::Flatten));
    ShapeEnv::define_global(globals, "norm".to_owned(), ShapeType::Builtin(BuiltinFn::Norm));
    ShapeEnv::define_global(globals, "clip".to_owned(), ShapeType::Builtin(BuiltinFn::Clip));
    ShapeEnv::define_global(globals, "softmax".to_owned(), ShapeType::Builtin(BuiltinFn::Softmax));
}

/// The shape of a value definition, checked against its annotation.
fn shape_of_value(
    program: &Program,
    name: &str,
    body: &Expr,
    globals: &ShapeGlobals,
    budget: &mut Budget,
) -> (out: Result<ShapeType, ShapeError>)
    requires
        old(budget).wf(),
        old(budget).room() == MAX_APPLY_DEPTH,
    ensures
        shaped_is(
            out,
            old(budget),
            final(budget),
            value_shape(
                items_of(program@),
                name@,
                body@,
                shape_scope(ShapeLocalsView::Empty, globals@),
                old(budget).fuel as nat,
            ),
        ),
{
    let inferred: ShapeType = match shape_eval(body, &ShapeEnv::empty(), globals, budget) {
        Ok(s) => s,
        Err(e) => {
            return Err(e);
        },
    };
    match find_annotation(program, name) {
        Some(ty) => {
            let declared: ShapeType = shape_of_type(ty);
            match check_annotation(name, &declared, &inferred) {
                Ok(()) => {},
                Err(e) => {
                    return Err(e);
                },
            }
            if matches!(declared, ShapeType::Tensor(_)) {
                Ok(declared)
            } else {
                Ok(inferred)
            }
        },
        None => Ok(inferred),
    }
}

/// The top-level shapes of a program: the functions first, then the values in
/// their order; then annotated functions are checked.
fn build_shape_env(program: &Program) -> (r: Result<ShapeGlobals, ShapeError>)
    ensures
        match program_shapes(items_of(program@)) {
            Ok(model) => r matches Ok(globals) && globals@ == model,
            Err(e) => r matches Err(x) && x@ == e,
        },
{
    let ghost items = items_of(program@);
    let mut budget: Budget = Budget::full();
    let mut globals: ShapeGlobals = ShapeGlobals::empty();
    load_builtins(&mut globals);
    let ghost base = globals@;
    let n: usize = program.len();
    let mut i: usize = 0;
    while i < n
        invariant
            n == program.len(),
            items == items_of(program@),
            i <= n,
            globals@ == functions_shaped(items, i as nat, base),
        decreases n - i,
    {
        assert(items[i as int] == program@[i as int]@);
        match &program[i] {
            TopLevel::Binding { name, params, body } => {
                if params.len() > 0 {
                    let s: ShapeType = make_function_shape(params, body, &None);
                    ShapeEnv::define_global(&mut globals, name.clone(), s);
                }
            },
            TopLevel::TypeAnnotation { .. } => {},
        }
        i = i + 1;
    }
    let ghost functions = globals@;
    let ghost fuel = MAX_APPLY_FUEL as nat;
    i = 0;
    while i < n
        invariant
            n == program.len(),
            items == items_of(program@),
            base == with_shape_builtins(Map::empty()),
            functions == functions_shaped(items, n as nat, base),
            fuel == MAX_APPLY_FUEL,
            budget.wf(),
            budget.room() == MAX_APPLY_DEPTH,
            i <= n,
            values_shaped(items, i as nat, functions, fuel) == (
                Ok::<ShapeGlobalsView, ShapeErrorView>(globals@),
                budget.fuel as nat,
            ),
        decreases n - i,
    {
        assert(items[i as int] == program@[i as int]@);
        match &program[i] {
            TopLevel::Binding { name, params, body } => {
                if params.len() == 0 {
                    match shape_of_value(program, name.as_str(), body, &globals, &mut budget) {
                        Ok(s) => {
                            ShapeEnv::define_global(&mut globals, name.clone(), s);
                        },
                        Err(e) => {
                            proof {
                                lemma_values_shaped_error(
                                    items,
                                    (i + 1) as nat,
                                    n as nat,
                                    functions,
                                    fuel,
                                );
                            }
                            return Err(e);
                        },
                    }
                }
            },
            TopLevel::TypeAnnotation { .. } => {},
        }
        i = i + 1;
    }
    let ghost shapes = globals@;
    let ghost left = budget.fuel as nat;
    i = 0;
    while i < n
        invariant
            n == program.len(),
            items == items_of(program@),
            base == with_shape_builtins(Map::empty()),
            functions == functions_shaped(items, n as nat, base),
            values_shaped(items, n as nat, functions, MAX_APPLY_FUEL as nat) == (
                Ok::<ShapeGlobalsView, ShapeErrorView>(shapes),
                left,
            ),
            budget.wf(),
            budget.room() == MAX_APPLY_DEPTH,
            i <= n,
            globals@ == shapes,
            functions_checked(items, i as nat, shapes, left) == (
                Ok::<(), ShapeErrorView>(()),
                budget.fuel as nat,
            ),
        decreases n - i,
    {
        assert(items[i as int] == program@[i as int]@);
        match &program[i] {
            TopLevel::Binding { name, params, body } => {
                if params.len() > 0 {
                    if let Some(ty) = find_annotation(program, name.as_str()) {
                        match check_annotated_fn(
                            name.as_str(),
                            params,
                            body,
                            ty,
                            &globals,
                            &mut budget,
                        ) {
                            Ok(()) => {},
                            Err(e) => {
                                proof {
                                    lemma_functions_checked_error(
                                        items,
                                        (i + 1) as nat,
                                        n as nat,
                                        shapes,
                                        left,
                                    );
                                }
                                return Err(e);
                            },
                        }
                    }
                }
            },
            TopLevel::TypeAnnotation { .. } => {},
        }
        i = i + 1;
    }
    Ok(globals)
}

/// The shape of a program: that of `main`, unknown where there is none.
pub fn shape_eval_program(program: &Program) -> (r: Result<ShapeType, ShapeError>)
    ensures
        shape_is(r, program_shape(items_of(program@))),
{
    match build_shape_env(program) {
        Ok(globals) => match ShapeEnv::empty().lookup(&globals, "main") {
            Some(s) => Ok(s),
            None => Ok(ShapeType::Unknown),
        },
        Err(e) => Err(e),
    }
}

// ---------------------------------------------------------------------------
// Error messages
// ---------------------------------------------------------------------------

impl DimView {
    pub open spec fn text(self) -> Seq<char> {
        match self {
            DimView::Concrete(n) => decimal(n as nat),
            DimView::Var(s) => s,
            DimView::Unknown => "?"@,
        }
    }
}

/// Dimensions in brackets, with commas between them.
pub open spec fn dims_text(dims: Seq<DimView>) -> Seq<char> {
    "["@ + dims_list(dims) + "]"@
}

pub open spec fn dims_list(dims: Seq<DimView>) -> Seq<char>
    decreases dims.len(),
{
    if dims.len() == 0 {
        Seq::empty()
    } else if dims.len() == 1 {
        dims[0].text()
    } else {
        dims_list(dims.drop_last()) + ", "@ + dims.last().text()
    }
}

fn push_dim(out: &mut String, d: &DimVal)
    ensures
        final(out)@ == old(out)@ + d@.text(),
{
    match d {
        DimVal::Concrete(n) => push_decimal(out, *n as u64),
        DimVal::Var(s) => out.append(s.as_str()),
        DimVal::Unknown => out.append("?"),
    }
}

/// Dimensions in brackets, with commas between them.
pub fn fmt_dims(dims: &Vec<DimVal>) -> (out: String)
    ensures
        out@ == dims_text(dims_of(dims@)),
{
    let ghost all = dims_of(dims@);
    let mut out: String = "[".to_owned();
    let mut i: usize = 0;
    proof {
        assert(all.take(0) =~= Seq::empty());
        assert(out@ =~= "["@ + dims_list(all.take(0)));
    }
    while i < dims.len()
        invariant
            all == dims_of(dims@),
            i <= dims.len(),
            out@ == "["@ + dims_list(all.take(i as int)),
        decreases dims.len() - i,
    {
        if i > 0 {
            out.append(", ");
        }
        push_dim(&mut out, &dims[i]);
        proof {
            assert(all.take(i + 1).drop_last() =~= all.take(i as int));
            assert(all.take(i + 1).last() == dims@[i as int]@);
            if i == 0 {
                assert(dims_list(all.take(0)) =~= Seq::empty());
                assert(out@ =~= "["@ + dims_list(all.take(1)));
            } else {
                assert(out@ =~= "["@ + (dims_list(all.take(i as int)) + ", "@
                    + dims@[i as int]@.text()));
            }
        }
        i = i + 1;
    }
    out.append("]");
    proof {
        assert(all.take(all.len() as int) =~= all);
    }
    out
}

impl ShapeErrorView {
    /// What is said of the error.
    pub open spec fn text(self) -> Seq<char> {
        match self {
            ShapeErrorView::MatMulMismatch { a, b } => "行列積 `@` の内次元が一致しません: "@
                + dims_text(a) + " @ "@ + dims_text(b),
            ShapeErrorView::ElementwiseMismatch { op, a, b } => "演算子 `"@ + op
                + "` の shape が一致しません: "@ + dims_text(a) + " と "@ + dims_text(b),
            ShapeErrorView::NonUniformTensor => "テンソルリテラルの行の長さが揃っていません"@,
            ShapeErrorView::AnnotationMismatch { name, declared, inferred } => "`"@ + name
                + "` の型注釈 "@ + dims_text(declared) + " と本体の shape "@ + dims_text(inferred)
                + " が一致しません"@,
            ShapeErrorView::VarConflict { op, var_a, var_b } => "演算子 `"@ + op
                + "` の次元変数 `"@ + var_a + "` と `"@ + var_b
                + "` が衝突しています（独立した変数のため等しい保証がありません）"@,
        }
    }
}

impl ShapeError {
    /// The message shown for the error.
    pub fn message(&self) -> (out: String)
        ensures
            out@ == self@.text(),
    {
        match self {
            ShapeError::MatMulMismatch { a, b } => {
                let mut out: String = "行列積 `@` の内次元が一致しません: ".to_owned();
                out.append(fmt_dims(a).as_str());
                out.append(" @ ");
                out.append(fmt_dims(b).as_str());
                out
            },
            ShapeError::ElementwiseMismatch { op, a, b } => {
                let mut out: String = "演算子 `".to_owned();
                out.append(op);
                out.append("` の shape が一致しません: ");
                out.append(fmt_dims(a).as_str());
                out.append(" と ");
                out.append(fmt_dims(b).as_str());
                out
            },
            ShapeError::NonUniformTensor => "テンソルリテラルの行の長さが揃っていません".to_owned(),
            ShapeError::AnnotationMismatch { name, declared, inferred } => {
                let mut out: String = "`".to_owned();
                out.append(name.as_str());
                out.append("` の型注釈 ");
                out.append(fmt_dims(declared).as_str());
                out.append(" と本体の shape ");
                out.append(fmt_dims(inferred).as_str());
                out.append(" が一致しません");
                out
            },
            ShapeError::VarConflict { op, var_a, var_b } => {
                let mut out: String = "演算子 `".to_owned();
                out.append(op);
                out.append("` の次元変数 `");
                out.append(var_a.as_str());
                out.append("` と `");
                out.append(var_b.as_str());
                out.append("` が衝突しています（独立した変数のため等しい保証がありません）");
                out
            },
        }
    }
}

} // verus!
