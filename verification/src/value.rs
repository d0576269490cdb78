//! Run-time values, the scopes that names are looked up in, and the errors
//! of evaluation.

use crate::ast::{Expr, ExprView};
use crate::num::{float_of_int, from_int, is_arithmetic, meaning, Arith, Query};
use crate::tensor::{Tensor, TensorView};
use crate::text::{decimal, push_decimal, push_signed_decimal, same_text, signed_decimal};
use std::rc::Rc;
use vstd::prelude::*;

verus! {

#[derive(Debug)]
pub enum Value {
    Int(i64),
    /// A floating-point number, as its bit pattern.
    Float(u64),
    Bool(bool),
    Tensor(Rc<Tensor>),
    Closure(Closure),
    Builtin(BuiltinFn),
    /// A built-in function that still waits for arguments.
    PartialBuiltin(BuiltinFn, Vec<Value>),
    /// A node of the tape that records a differentiation.
    Traced(usize),
}

#[derive(Debug, Clone, Copy, PartialEq, Eq, Structural)]
pub enum BuiltinFn {
    Sum,
    Mean,
    Exp,
    Log,
    Tanh,
    Sqrt,
    Zeros,
    Ones,
    Transpose,
    Reshape,
    Grad,
    Iterate,
    Abs,
    MaxVal,
    MinVal,
    Concat,
    Flatten,
    Norm,
    Clip,
    Softmax,
}

/// A function of one parameter, with the local scope that it was made in.
#[derive(Debug)]
pub struct Closure {
    pub param: String,
    pub body: Rc<Expr>,
    pub env: Locals,
}

/// Local bindings, the newest first.
pub type Locals = Option<Rc<EnvNode>>;

#[derive(Debug)]
pub struct EnvNode {
    pub name: String,
    pub value: Value,
    pub parent: Locals,
}

/// A top-level binding.
#[derive(Debug)]
pub struct Global {
    pub name: String,
    pub value: Value,
}

/// The top-level bindings, in the order of their definition.
#[derive(Debug)]
pub struct Globals {
    pub list: Vec<Global>,
}

/// A scope: the local bindings that stand in front of the top-level ones.
///
/// There is one table of top-level bindings, which every scope is looked up
/// with. So a scope knows what is defined after it was made, and definitions
/// can refer to each other.
#[derive(Debug)]
pub struct Env {
    pub locals: Locals,
}

#[derive(Debug)]
pub enum EvalError {
    UnboundVariable(String),
    TypeMismatch { expected: &'static str, got: &'static str },
    DivisionByZero,
    TensorShapeMismatch { op: &'static str, a: Vec<usize>, b: Vec<usize> },
    TensorNonUniform,
    TensorWrongRank { op: &'static str, expected: usize, got: usize },
    ArityMismatch,
    NoMain,
    InvalidArgument(String),
    /// An integer result that 64 bits do not hold.
    IntegerOverflow,
    /// More calls inside each other than the limit allows.
    CallDepth,
}

// ---------------------------------------------------------------------------
// Models
// ---------------------------------------------------------------------------

#[verifier::ext_equal]
pub enum ValueView {
    Int(i64),
    Float(u64),
    Bool(bool),
    Tensor(TensorView),
    Closure { param: Seq<char>, body: ExprView, env: LocalsView },
    Builtin(BuiltinFn),
    PartialBuiltin(BuiltinFn, Seq<ValueView>),
    Traced(usize),
}

#[verifier::ext_equal]
pub enum LocalsView {
    Empty,
    Bound { name: Seq<char>, value: Box<ValueView>, parent: Box<LocalsView> },
}

/// Top-level bindings: a name has the value that it was given last.
pub type GlobalsView = Map<Seq<char>, ValueView>;

#[verifier::ext_equal]
pub struct EnvView {
    pub locals: LocalsView,
    pub globals: GlobalsView,
}

#[verifier::ext_equal]
pub enum EvalErrorView {
    UnboundVariable(Seq<char>),
    TypeMismatch { expected: Seq<char>, got: Seq<char> },
    DivisionByZero,
    TensorShapeMismatch { op: Seq<char>, a: Seq<usize>, b: Seq<usize> },
    TensorNonUniform,
    TensorWrongRank { op: Seq<char>, expected: usize, got: usize },
    ArityMismatch,
    NoMain,
    InvalidArgument(Seq<char>),
    IntegerOverflow,
    CallDepth,
}

impl Value {
    pub open spec fn model(self) -> ValueView
        decreases self,
    {
        match self {
            Value::Int(n) => ValueView::Int(n),
            Value::Float(x) => ValueView::Float(x),
            Value::Bool(b) => ValueView::Bool(b),
            Value::Tensor(t) => ValueView::Tensor((*t)@),
            Value::Closure(c) => ValueView::Closure {
                param: c.param@,
                body: (*c.body)@,
                env: locals_of(c.env),
            },
            Value::Builtin(b) => ValueView::Builtin(b),
            Value::PartialBuiltin(b, args) => ValueView::PartialBuiltin(
                b,
                Seq::new(
                    args@.len(),
                    |i: int|
                        if 0 <= i < args@.len() {
                            args@[i].model()
                        } else {
                            arbitrary()
                        },
                ),
            ),
            Value::Traced(id) => ValueView::Traced(id),
        }
    }
}

/// The model of local bindings.
pub open spec fn locals_of(l: Locals) -> LocalsView
    decreases l,
{
    match l {
        None => LocalsView::Empty,
        Some(node) => LocalsView::Bound {
            name: node.name@,
            value: Box::new(node.value.model()),
            parent: Box::new(locals_of(node.parent)),
        },
    }
}

impl View for Value {
    type V = ValueView;

    open spec fn view(&self) -> ValueView {
        self.model()
    }
}

/// The model of a list of values.
pub open spec fn values_of(v: Seq<Value>) -> Seq<ValueView> {
    Seq::new(v.len(), |i: int| v[i]@)
}

/// A partial application is the list of its arguments.
pub proof fn lemma_partial_view(b: BuiltinFn, args: Vec<Value>)
    ensures
        Value::PartialBuiltin(b, args)@ == ValueView::PartialBuiltin(b, values_of(args@)),
{
    assert(Value::PartialBuiltin(b, args)@->PartialBuiltin_1 =~= values_of(args@));
}

/// The model of top-level bindings.
pub open spec fn globals_of(v: Seq<Global>) -> GlobalsView
    decreases v.len(),
{
    if v.len() == 0 {
        Map::empty()
    } else {
        globals_of(v.drop_last()).insert(v.last().name@, v.last().value@)
    }
}

impl View for Globals {
    type V = GlobalsView;

    open spec fn view(&self) -> GlobalsView {
        globals_of(self.list@)
    }
}

impl View for Env {
    type V = LocalsView;

    open spec fn view(&self) -> LocalsView {
        locals_of(self.locals)
    }
}

/// Local bindings in front of top-level ones.
pub open spec fn scope(locals: LocalsView, globals: GlobalsView) -> EnvView {
    EnvView { locals, globals }
}

impl View for EvalError {
    type V = EvalErrorView;

    open spec fn view(&self) -> EvalErrorView {
        match *self {
            EvalError::UnboundVariable(n) => EvalErrorView::UnboundVariable(n@),
            EvalError::TypeMismatch { expected, got } => EvalErrorView::TypeMismatch {
                expected: expected@,
                got: got@,
            },
            EvalError::DivisionByZero => EvalErrorView::DivisionByZero,
            EvalError::TensorShapeMismatch { op, a, b } => EvalErrorView::TensorShapeMismatch {
                op: op@,
                a: a@,
                b: b@,
            },
            EvalError::TensorNonUniform => EvalErrorView::TensorNonUniform,
            EvalError::TensorWrongRank { op, expected, got } => EvalErrorView::TensorWrongRank {
                op: op@,
                expected,
                got,
            },
            EvalError::ArityMismatch => EvalErrorView::ArityMismatch,
            EvalError::NoMain => EvalErrorView::NoMain,
            EvalError::InvalidArgument(s) => EvalErrorView::InvalidArgument(s@),
            EvalError::IntegerOverflow => EvalErrorView::IntegerOverflow,
            EvalError::CallDepth => EvalErrorView::CallDepth,
        }
    }
}

// ---------------------------------------------------------------------------
// Copies
// ---------------------------------------------------------------------------

/// A copy of local bindings; the bindings themselves are shared.
pub fn share_locals(l: &Locals) -> (out: Locals)
    ensures
        locals_of(out) == locals_of(*l),
{
    match l {
        None => None,
        Some(node) => Some(Rc::clone(node)),
    }
}

impl Clone for Closure {
    fn clone(&self) -> (out: Closure)
        ensures
            Value::Closure(out)@ == Value::Closure(*self)@,
    {
        Closure {
            param: self.param.clone(),
            body: Rc::clone(&self.body),
            env: share_locals(&self.env),
        }
    }
}

impl Clone for Value {
    fn clone(&self) -> (out: Value)
        ensures
            out@ == self@,
        decreases *self,
    {
        match self {
            Value::Int(n) => Value::Int(*n),
            Value::Float(x) => Value::Float(*x),
            Value::Bool(b) => Value::Bool(*b),
            Value::Tensor(t) => Value::Tensor(Rc::clone(t)),
            Value::Closure(c) => Value::Closure(c.clone()),
            Value::Builtin(b) => Value::Builtin(*b),
            Value::PartialBuiltin(b, args) => {
                let copies: Vec<Value> = clone_values(args);
                proof {
                    lemma_partial_view(*b, *args);
                    lemma_partial_view(*b, copies);
                }
                Value::PartialBuiltin(*b, copies)
            },
            Value::Traced(id) => Value::Traced(*id),
        }
    }
}

/// A copy of a list of values.
pub fn clone_values(v: &Vec<Value>) -> (out: Vec<Value>)
    ensures
        values_of(out@) == values_of(v@),
    decreases v,
{
    let mut out: Vec<Value> = Vec::new();
    let mut i: usize = 0;
    while i < v.len()
        invariant
            i <= v.len(),
            out.len() == i,
            forall|k: int| 0 <= k < i ==> (#[trigger] out@[k])@ == v@[k]@,
        decreases v.len() - i,
    {
        out.push(v[i].clone());
        i = i + 1;
    }
    assert(values_of(out@) =~= values_of(v@));
    out
}

// ---------------------------------------------------------------------------
// Scopes
// ---------------------------------------------------------------------------

/// The nearest local binding of a name.
pub open spec fn find_local(l: LocalsView, name: Seq<char>) -> Option<ValueView>
    decreases l,
{
    match l {
        LocalsView::Empty => None,
        LocalsView::Bound { name: n, value, parent } => if n == name {
            Some(*value)
        } else {
            find_local(*parent, name)
        },
    }
}

impl EnvView {
    /// A local binding hides a top-level one.
    pub open spec fn find(self, name: Seq<char>) -> Option<ValueView> {
        match find_local(self.locals, name) {
            Some(v) => Some(v),
            None => if self.globals.contains_key(name) {
                Some(self.globals[name])
            } else {
                None
            },
        }
    }

    /// The scope with one more local binding in front.
    pub open spec fn bind(self, name: Seq<char>, value: ValueView) -> EnvView {
        EnvView {
            locals: LocalsView::Bound {
                name,
                value: Box::new(value),
                parent: Box::new(self.locals),
            },
            globals: self.globals,
        }
    }
}

impl Globals {
    /// No bindings.
    pub fn empty() -> (out: Globals)
        ensures
            out@ == Map::<Seq<char>, ValueView>::empty(),
    {
        Globals { list: Vec::new() }
    }
}

impl Env {
    /// A scope without local bindings.
    pub fn empty() -> (out: Env)
        ensures
            out@ == LocalsView::Empty,
    {
        Env { locals: None }
    }

    /// The scope of given local bindings.
    pub fn with_locals(locals: &Locals) -> (out: Env)
        ensures
            out@ == locals_of(*locals),
    {
        Env { locals: share_locals(locals) }
    }

    /// Gives a top-level name a value, in place of an earlier one.
    pub fn define_global(globals: &mut Globals, name: String, value: Value)
        ensures
            final(globals)@ == old(globals)@.insert(name@, value@),
    {
        let ghost before = globals.list@;
        globals.list.push(Global { name, value });
        assert(globals.list@.drop_last() =~= before);
    }

    /// The scope with one more local binding in front.
    pub fn extend(&self, name: String, value: Value) -> (out: Env)
        ensures
            out@ == (LocalsView::Bound {
                name: name@,
                value: Box::new(value@),
                parent: Box::new(self@),
            }),
    {
        Env {
            locals: Some(Rc::new(EnvNode { name, value, parent: share_locals(&self.locals) })),
        }
    }

    /// The value of a name: the nearest local binding, or else the top-level one.
    pub fn lookup(&self, globals: &Globals, name: &str) -> (out: Option<Value>)
        ensures
            match scope(self@, globals@).find(name@) {
                Some(v) => out matches Some(x) && x@ == v,
                None => out is None,
            },
    {
        match lookup_local(&self.locals, name) {
            Some(v) => Some(v),
            None => lookup_global(&globals.list, name),
        }
    }
}

fn lookup_local(locals: &Locals, name: &str) -> (out: Option<Value>)
    ensures
        match find_local(locals_of(*locals), name@) {
            Some(v) => out matches Some(x) && x@ == v,
            None => out is None,
        },
    decreases locals,
{
    match locals {
        None => None,
        Some(node) => if same_text(node.name.as_str(), name) {
            Some(node.value.clone())
        } else {
            lookup_local(&node.parent, name)
        },
    }
}

fn lookup_global(globals: &Vec<Global>, name: &str) -> (out: Option<Value>)
    ensures
        match out {
            Some(x) => globals_of(globals@).contains_key(name@) && x@ == globals_of(
                globals@,
            )[name@],
            None => !globals_of(globals@).contains_key(name@),
        },
{
    let mut i: usize = globals.len();
    assert(globals@.take(globals@.len() as int) =~= globals@);
    while i > 0
        invariant
            i <= globals.len(),
            globals_of(globals@).contains_key(name@) == globals_of(
                globals@.take(i as int),
            ).contains_key(name@),
            globals_of(globals@).contains_key(name@) ==> globals_of(globals@)[name@] == globals_of(
                globals@.take(i as int),
            )[name@],
        decreases i,
    {
        assert(globals@.take(i as int).drop_last() =~= globals@.take(i - 1));
        i = i - 1;
        if same_text(globals[i].name.as_str(), name) {
            return Some(globals[i].value.clone());
        }
    }
    None
}

// ---------------------------------------------------------------------------
// Coercions
// ---------------------------------------------------------------------------

impl ValueView {
    /// What kind of value it is, as messages call it.
    pub open spec fn kind_name(self) -> Seq<char> {
        match self {
            ValueView::Int(_) => "Int"@,
            ValueView::Float(_) => "Float"@,
            ValueView::Bool(_) => "Bool"@,
            ValueView::Tensor(_) => "Tensor"@,
            ValueView::Closure { .. } => "Closure"@,
            ValueView::Builtin(_) => "Builtin"@,
            ValueView::PartialBuiltin(_, _) => "Builtin"@,
            ValueView::Traced(_) => "Tracked"@,
        }
    }
}

/// The error for a value of the wrong kind.
pub open spec fn mismatch(expected: Seq<char>, v: ValueView) -> EvalErrorView {
    EvalErrorView::TypeMismatch { expected, got: v.kind_name() }
}

/// A number as a floating-point one.
pub open spec fn as_float(m: Arith, v: ValueView) -> Result<u64, EvalErrorView> {
    match v {
        ValueView::Float(x) => Ok(x),
        ValueView::Int(n) => Ok(from_int(m, n)),
        other => Err(mismatch("Float または Int"@, other)),
    }
}

/// The tensor that a value is.
pub open spec fn as_tensor(v: ValueView) -> Result<TensorView, EvalErrorView> {
    match v {
        ValueView::Tensor(t) => Ok(t),
        other => Err(mismatch("Tensor"@, other)),
    }
}

/// What kind of value it is, as messages call it.
pub fn value_type_name(v: &Value) -> (name: &'static str)
    ensures
        name@ == v@.kind_name(),
{
    match v {
        Value::Int(_) => "Int",
        Value::Float(_) => "Float",
        Value::Bool(_) => "Bool",
        Value::Tensor(_) => "Tensor",
        Value::Closure(_) => "Closure",
        Value::Builtin(_) => "Builtin",
        Value::PartialBuiltin(_, _) => "Builtin",
        Value::Traced(_) => "Tracked",
    }
}

/// The error for a value of the wrong kind.
pub fn type_mismatch(expected: &'static str, v: &Value) -> (e: EvalError)
    ensures
        e@ == mismatch(expected@, v@),
{
    EvalError::TypeMismatch { expected, got: value_type_name(v) }
}

/// A number as a floating-point one.
pub fn coerce_to_float<F: Fn(Query) -> Vec<u64>>(f: &F, v: &Value) -> (r: Result<u64, EvalError>)
    requires
        is_arithmetic(f),
    ensures
        match as_float(meaning(f), v@) {
            Ok(x) => r matches Ok(y) && y == x,
            Err(e) => r matches Err(x) && x@ == e,
        },
{
    match v {
        Value::Float(x) => Ok(*x),
        Value::Int(n) => Ok(float_of_int(f, *n)),
        other => Err(type_mismatch("Float または Int", other)),
    }
}

/// The tensor that a value is.
pub fn coerce_to_tensor(v: &Value) -> (r: Result<Rc<Tensor>, EvalError>)
    ensures
        match as_tensor(v@) {
            Ok(t) => r matches Ok(x) && (*x)@ == t,
            Err(e) => r matches Err(x) && x@ == e,
        },
{
    match v {
        Value::Tensor(t) => Ok(Rc::clone(t)),
        other => Err(type_mismatch("Tensor", other)),
    }
}

// ---------------------------------------------------------------------------
// Text
// ---------------------------------------------------------------------------

/// Sizes in brackets, with commas between them.
pub open spec fn sizes_text(xs: Seq<usize>) -> Seq<char> {
    "["@ + sizes_list(xs) + "]"@
}

pub open spec fn sizes_list(xs: Seq<usize>) -> Seq<char>
    decreases xs.len(),
{
    if xs.len() == 0 {
        Seq::empty()
    } else if xs.len() == 1 {
        decimal(xs[0] as nat)
    } else {
        sizes_list(xs.drop_last()) + ", "@ + decimal(xs.last() as nat)
    }
}

/// Appends sizes in brackets, with commas between them.
pub fn push_sizes(out: &mut String, xs: &Vec<usize>)
    ensures
        final(out)@ == old(out)@ + sizes_text(xs@),
{
    let ghost start = out@;
    out.append("[");
    let mut i: usize = 0;
    proof {
        assert(xs@.take(0) =~= Seq::empty());
        assert(out@ =~= start + "["@ + sizes_list(xs@.take(0)));
    }
    while i < xs.len()
        invariant
            i <= xs.len(),
            out@ == start + "["@ + sizes_list(xs@.take(i as int)),
        decreases xs.len() - i,
    {
        if i > 0 {
            out.append(", ");
        }
        push_decimal(out, xs[i] as u64);
        proof {
            assert(xs@.take(i + 1).drop_last() =~= xs@.take(i as int));
            if i == 0 {
                assert(sizes_list(xs@.take(0)) =~= Seq::empty());
                assert(out@ =~= start + "["@ + sizes_list(xs@.take(1)));
            } else {
                assert(out@ =~= start + "["@ + (sizes_list(xs@.take(i as int)) + ", "@ + decimal(
                    xs@[i as int] as nat,
                )));
            }
        }
        i = i + 1;
    }
    out.append("]");
    proof {
        assert(xs@.take(xs@.len() as int) =~= xs@);
        assert(out@ =~= start + sizes_text(xs@));
    }
}

impl EvalErrorView {
    /// What is said of the error.
    pub open spec fn text(self) -> Seq<char> {
        match self {
            EvalErrorView::UnboundVariable(n) => "未定義の変数: "@ + n,
            EvalErrorView::TypeMismatch { expected, got } => "型不一致: "@ + expected
                + " が必要ですが "@ + got + " でした"@,
            EvalErrorView::DivisionByZero => "ゼロ除算"@,
            EvalErrorView::TensorShapeMismatch { op, a, b } => "演算子 `"@ + op
                + "` の shape 不一致: "@ + sizes_text(a) + " と "@ + sizes_text(b),
            EvalErrorView::TensorNonUniform => "テンソルリテラルの行の長さが揃っていません"@,
            EvalErrorView::TensorWrongRank { op, expected, got } => "演算子 `"@ + op + "`: "@
                + decimal(expected as nat) + "次元テンソルが必要ですが "@ + decimal(got as nat)
                + "次元でした"@,
            EvalErrorView::ArityMismatch => "関数でない値を適用しようとしました"@,
            EvalErrorView::NoMain => "`main` の定義が見つかりません"@,
            EvalErrorView::InvalidArgument(message) => "引数エラー: "@ + message,
            EvalErrorView::IntegerOverflow => "整数演算の結果が大きすぎます"@,
            EvalErrorView::CallDepth => "関数呼び出しが深すぎます"@,
        }
    }
}

impl EvalError {
    /// The message shown for the error.
    pub fn message(&self) -> (out: String)
        ensures
            out@ == self@.text(),
    {
        match self {
            EvalError::UnboundVariable(n) => {
                let mut out: String = "未定義の変数: ".to_owned();
                out.append(n.as_str());
                out
            },
            EvalError::TypeMismatch { expected, got } => {
                let mut out: String = "型不一致: ".to_owned();
                out.append(expected);
                out.append(" が必要ですが ");
                out.append(got);
                out.append(" でした");
                out
            },
            EvalError::DivisionByZero => "ゼロ除算".to_owned(),
            EvalError::TensorShapeMismatch { op, a, b } => {
                let mut out: String = "演算子 `".to_owned();
                out.append(op);
                out.append("` の shape 不一致: ");
                push_sizes(&mut out, a);
                out.append(" と ");
                push_sizes(&mut out, b);
                out
            },
            EvalError::TensorNonUniform => "テンソルリテラルの行の長さが揃っていません".to_owned(),
            EvalError::TensorWrongRank { op, expected, got } => {
                let mut out: String = "演算子 `".to_owned();
                out.append(op);
                out.append("`: ");
                push_decimal(&mut out, *expected as u64);
                out.append("次元テンソルが必要ですが ");
                push_decimal(&mut out, *got as u64);
                out.append("次元でした");
                out
            },
            EvalError::ArityMismatch => "関数でない値を適用しようとしました".to_owned(),
            EvalError::NoMain => "`main` の定義が見つかりません".to_owned(),
            EvalError::InvalidArgument(message) => {
                let mut out: String = "引数エラー: ".to_owned();
                out.append(message.as_str());
                out
            },
            EvalError::IntegerOverflow => "整数演算の結果が大きすぎます".to_owned(),
            EvalError::CallDepth => "関数呼び出しが深すぎます".to_owned(),
        }
    }
}

/// How a value is shown. Numbers and tensors are left to whoever can print
/// floating-point numbers.
#[derive(Debug)]
pub enum Shown {
    Text(String),
    Number(u64),
    Array(Rc<Tensor>),
}

#[verifier::ext_equal]
pub enum ShownView {
    Text(Seq<char>),
    Number(u64),
    Array(TensorView),
}

impl View for Shown {
    type V = ShownView;

    open spec fn view(&self) -> ShownView {
        match *self {
            Shown::Text(s) => ShownView::Text(s@),
            Shown::Number(x) => ShownView::Number(x),
            Shown::Array(t) => ShownView::Array((*t)@),
        }
    }
}

pub open spec fn builtin_name(b: BuiltinFn) -> Seq<char> {
    match b {
        BuiltinFn::Sum => "Sum"@,
        BuiltinFn::Mean => "Mean"@,
        BuiltinFn::Exp => "Exp"@,
        BuiltinFn::Log => "Log"@,
        BuiltinFn::Tanh => "Tanh"@,
        BuiltinFn::Sqrt => "Sqrt"@,
        BuiltinFn::Zeros => "Zeros"@,
        BuiltinFn::Ones => "Ones"@,
        BuiltinFn::Transpose => "Transpose"@,
        BuiltinFn::Reshape => "Reshape"@,
        BuiltinFn::Grad => "Grad"@,
        BuiltinFn::Iterate => "Iterate"@,
        BuiltinFn::Abs => "Abs"@,
        BuiltinFn::MaxVal => "MaxVal"@,
        BuiltinFn::MinVal => "MinVal"@,
        BuiltinFn::Concat => "Concat"@,
        BuiltinFn::Flatten => "Flatten"@,
        BuiltinFn::Norm => "Norm"@,
        BuiltinFn::Clip => "Clip"@,
        BuiltinFn::Softmax => "Softmax"@,
    }
}

fn name_of_builtin(b: BuiltinFn) -> (name: &'static str)
    ensures
        name@ == builtin_name(b),
{
    match b {
        BuiltinFn::Sum => "Sum",
        BuiltinFn::Mean => "Mean",
        BuiltinFn::Exp => "Exp",
        BuiltinFn::Log => "Log",
        BuiltinFn::Tanh => "Tanh",
        BuiltinFn::Sqrt => "Sqrt",
        BuiltinFn::Zeros => "Zeros",
        BuiltinFn::Ones => "Ones",
        BuiltinFn::Transpose => "Transpose",
        BuiltinFn::Reshape => "Reshape",
        BuiltinFn::Grad => "Grad",
        BuiltinFn::Iterate => "Iterate",
        BuiltinFn::Abs => "Abs",
        BuiltinFn::MaxVal => "MaxVal",
        BuiltinFn::MinVal => "MinVal",
        BuiltinFn::Concat => "Concat",
        BuiltinFn::Flatten => "Flatten",
        BuiltinFn::Norm => "Norm",
        BuiltinFn::Clip => "Clip",
        BuiltinFn::Softmax => "Softmax",
    }
}

impl ValueView {
    pub open spec fn shown(self) -> ShownView {
        match self {
            ValueView::Int(n) => ShownView::Text(signed_decimal(n as int)),
            ValueView::Float(x) => ShownView::Number(x),
            ValueView::Bool(b) => ShownView::Text(
                if b {
                    "true"@
                } else {
                    "false"@
                },
            ),
            ValueView::Tensor(t) => ShownView::Array(t),
            ValueView::Closure { .. } => ShownView::Text("<closure>"@),
            ValueView::Builtin(b) => ShownView::Text("<builtin:"@ + builtin_name(b) + ">"@),
            ValueView::PartialBuiltin(b, args) => ShownView::Text(
                "<builtin:"@ + builtin_name(b) + " (部分適用 "@ + decimal(args.len()) + " 引数)>"@,
            ),
            ValueView::Traced(_) => ShownView::Text("<tracked>"@),
        }
    }
}

impl Value {
    /// How the value is shown as the result of a program.
    pub fn shown(&self) -> (out: Shown)
        ensures
            out@ == self@.shown(),
    {
        match self {
            Value::Int(n) => {
                let mut out: String = String::new();
                push_signed_decimal(&mut out, *n);
                assert(out@ =~= signed_decimal(*n as int));
                Shown::Text(out)
            },
            Value::Float(x) => Shown::Number(*x),
            Value::Bool(b) => if *b {
                Shown::Text("true".to_owned())
            } else {
                Shown::Text("false".to_owned())
            },
            Value::Tensor(t) => Shown::Array(Rc::clone(t)),
            Value::Closure(_) => Shown::Text("<closure>".to_owned()),
            Value::Builtin(b) => {
                let mut out: String = "<builtin:".to_owned();
                out.append(name_of_builtin(*b));
                out.append(">");
                Shown::Text(out)
            },
            Value::PartialBuiltin(b, args) => {
                let mut out: String = "<builtin:".to_owned();
                out.append(name_of_builtin(*b));
                out.append(" (部分適用 ");
                push_decimal(&mut out, args.len() as u64);
                out.append(" 引数)>");
                Shown::Text(out)
            },
            Value::Traced(_) => Shown::Text("<tracked>".to_owned()),
        }
    }
}

} // verus!
