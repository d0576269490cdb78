//! The syntax tree: what the parser builds and both evaluators walk.
//!
//! Every type has a mathematical counterpart, named with the suffix `View`,
//! in which text is a sequence of characters and a list is a sequence.

use vstd::prelude::*;

verus! {

/// A source file: its top-level items in source order.
pub type Program = Vec<TopLevel>;

#[derive(Debug)]
pub enum TopLevel {
    /// `name params = body`.
    Binding { name: String, params: Vec<String>, body: Expr },
    /// `name : ty`.
    TypeAnnotation { name: String, ty: TypeExpr },
}

#[derive(Debug)]
pub enum Expr {
    Lit(Literal),
    Var(String),
    /// One function applied to one argument: `f a b` is `App(App(f, a), b)`.
    App(Box<Expr>, Box<Expr>),
    BinOp { op: BinOpKind, left: Box<Expr>, right: Box<Expr> },
    UnaryMinus(Box<Expr>),
    /// `value |> function`.
    Pipe(Box<Expr>, Box<Expr>),
    If { cond: Box<Expr>, then: Box<Expr>, else_: Box<Expr> },
    Let { name: String, params: Vec<String>, value: Box<Expr>, body: Box<Expr> },
    /// The rows of a tensor literal, outer list by `;`, inner lists by `,`.
    TensorLit(Vec<Vec<Expr>>),
    /// A one-parameter function. The parser builds none; definitions with
    /// parameters become nested lambdas when they are evaluated.
    Lambda { param: String, body: Box<Expr> },
}

#[derive(Debug, PartialEq)]
pub enum Literal {
    Int(i64),
    /// A decimal fraction, kept as the text that was written.
    Float(String),
    Bool(bool),
}

#[derive(Debug, Clone, Copy, PartialEq, Eq, Structural)]
pub enum BinOpKind {
    Add,
    Sub,
    Mul,
    Div,
    Pow,
    MatMul,
    Eq,
    Ne,
    Lt,
    Le,
    Gt,
    Ge,
}

#[derive(Debug)]
pub enum TypeExpr {
    Named(String),
    Arrow(Box<TypeExpr>, Box<TypeExpr>),
    /// `Tensor[m, n, ...]`.
    Tensor(Vec<TypeDim>),
    App(Box<TypeExpr>, Box<TypeExpr>),
}

/// One dimension of a tensor type.
#[derive(Debug, PartialEq)]
pub enum TypeDim {
    Fixed(usize),
    Var(String),
    /// Shape arithmetic, such as `m+n`.
    Expr(DimExpr),
}

/// Arithmetic in the dimension position of a tensor type.
#[derive(Debug, PartialEq)]
pub enum DimExpr {
    Lit(usize),
    Var(String),
    Add(Box<DimExpr>, Box<DimExpr>),
    Sub(Box<DimExpr>, Box<DimExpr>),
    Mul(Box<DimExpr>, Box<DimExpr>),
}

// ---------------------------------------------------------------------------
// Models
// ---------------------------------------------------------------------------

#[verifier::ext_equal]
pub enum TopLevelView {
    Binding { name: Seq<char>, params: Seq<Seq<char>>, body: ExprView },
    TypeAnnotation { name: Seq<char>, ty: TypeExprView },
}

#[verifier::ext_equal]
pub enum ExprView {
    Lit(LiteralView),
    Var(Seq<char>),
    App(Box<ExprView>, Box<ExprView>),
    BinOp { op: BinOpKind, left: Box<ExprView>, right: Box<ExprView> },
    UnaryMinus(Box<ExprView>),
    Pipe(Box<ExprView>, Box<ExprView>),
    If { cond: Box<ExprView>, then: Box<ExprView>, else_: Box<ExprView> },
    Let { name: Seq<char>, params: Seq<Seq<char>>, value: Box<ExprView>, body: Box<ExprView> },
    TensorLit(Seq<Seq<ExprView>>),
    Lambda { param: Seq<char>, body: Box<ExprView> },
}

#[verifier::ext_equal]
pub enum LiteralView {
    Int(i64),
    Float(Seq<char>),
    Bool(bool),
}

#[verifier::ext_equal]
pub enum TypeExprView {
    Named(Seq<char>),
    Arrow(Box<TypeExprView>, Box<TypeExprView>),
    Tensor(Seq<TypeDimView>),
    App(Box<TypeExprView>, Box<TypeExprView>),
}

#[verifier::ext_equal]
pub enum TypeDimView {
    Fixed(usize),
    Var(Seq<char>),
    Expr(DimExprView),
}

#[verifier::ext_equal]
pub enum DimExprView {
    Lit(usize),
    Var(Seq<char>),
    Add(Box<DimExprView>, Box<DimExprView>),
    Sub(Box<DimExprView>, Box<DimExprView>),
    Mul(Box<DimExprView>, Box<DimExprView>),
}

/// The names in a list of strings.
pub open spec fn names_of(v: Seq<String>) -> Seq<Seq<char>> {
    Seq::new(v.len(), |i: int| v[i]@)
}

impl Literal {
    pub open spec fn model(self) -> LiteralView {
        match self {
            Literal::Int(n) => LiteralView::Int(n),
            Literal::Float(s) => LiteralView::Float(s@),
            Literal::Bool(b) => LiteralView::Bool(b),
        }
    }
}

impl View for Literal {
    type V = LiteralView;

    open spec fn view(&self) -> LiteralView {
        self.model()
    }
}

impl Expr {
    pub open spec fn model(self) -> ExprView
        decreases self,
    {
        match self {
            Expr::Lit(l) => ExprView::Lit(l.model()),
            Expr::Var(n) => ExprView::Var(n@),
            Expr::App(f, a) => ExprView::App(Box::new((*f).model()), Box::new((*a).model())),
            Expr::BinOp { op, left, right } => ExprView::BinOp {
                op,
                left: Box::new((*left).model()),
                right: Box::new((*right).model()),
            },
            Expr::UnaryMinus(e) => ExprView::UnaryMinus(Box::new((*e).model())),
            Expr::Pipe(a, f) => ExprView::Pipe(Box::new((*a).model()), Box::new((*f).model())),
            Expr::If { cond, then, else_ } => ExprView::If {
                cond: Box::new((*cond).model()),
                then: Box::new((*then).model()),
                else_: Box::new((*else_).model()),
            },
            Expr::Let { name, params, value, body } => ExprView::Let {
                name: name@,
                params: names_of(params@),
                value: Box::new((*value).model()),
                body: Box::new((*body).model()),
            },
            Expr::TensorLit(rows) => ExprView::TensorLit(
                Seq::new(
                    rows@.len(),
                    |i: int|
                        Seq::new(
                            rows@[i]@.len(),
                            |j: int|
                                if 0 <= i < rows@.len() && 0 <= j < rows@[i]@.len() {
                                    rows@[i]@[j].model()
                                } else {
                                    arbitrary()
                                },
                        ),
                ),
            ),
            Expr::Lambda { param, body } => ExprView::Lambda {
                param: param@,
                body: Box::new((*body).model()),
            },
        }
    }
}

impl View for Expr {
    type V = ExprView;

    open spec fn view(&self) -> ExprView {
        self.model()
    }
}

/// The model of one row of a tensor literal.
pub open spec fn row_of(row: Seq<Expr>) -> Seq<ExprView> {
    Seq::new(row.len(), |j: int| row[j]@)
}

/// The model of the rows of a tensor literal.
pub open spec fn rows_of(rows: Seq<Vec<Expr>>) -> Seq<Seq<ExprView>> {
    Seq::new(rows.len(), |i: int| row_of(rows[i]@))
}

/// A tensor literal is the list of its rows.
pub proof fn lemma_tensor_lit_view(rows: Vec<Vec<Expr>>)
    ensures
        Expr::TensorLit(rows)@ == ExprView::TensorLit(rows_of(rows@)),
{
    let a = Expr::TensorLit(rows)@;
    assert forall|i: int| 0 <= i < rows@.len() implies a->TensorLit_0[i] == row_of(rows@[i]@) by {
        assert(a->TensorLit_0[i] =~= row_of(rows@[i]@));
    }
    assert(a->TensorLit_0 =~= rows_of(rows@));
}

impl DimExpr {
    pub open spec fn model(self) -> DimExprView
        decreases self,
    {
        match self {
            DimExpr::Lit(n) => DimExprView::Lit(n),
            DimExpr::Var(s) => DimExprView::Var(s@),
            DimExpr::Add(a, b) => DimExprView::Add(Box::new((*a).model()), Box::new((*b).model())),
            DimExpr::Sub(a, b) => DimExprView::Sub(Box::new((*a).model()), Box::new((*b).model())),
            DimExpr::Mul(a, b) => DimExprView::Mul(Box::new((*a).model()), Box::new((*b).model())),
        }
    }
}

impl View for DimExpr {
    type V = DimExprView;

    open spec fn view(&self) -> DimExprView {
        self.model()
    }
}

impl View for TypeDim {
    type V = TypeDimView;

    open spec fn view(&self) -> TypeDimView {
        match *self {
            TypeDim::Fixed(n) => TypeDimView::Fixed(n),
            TypeDim::Var(s) => TypeDimView::Var(s@),
            TypeDim::Expr(e) => TypeDimView::Expr(e.model()),
        }
    }
}

/// The model of a list of dimensions.
pub open spec fn type_dims_of(v: Seq<TypeDim>) -> Seq<TypeDimView> {
    Seq::new(v.len(), |i: int| v[i]@)
}

impl TypeExpr {
    pub open spec fn model(self) -> TypeExprView
        decreases self,
    {
        match self {
            TypeExpr::Named(s) => TypeExprView::Named(s@),
            TypeExpr::Arrow(a, b) => TypeExprView::Arrow(
                Box::new((*a).model()),
                Box::new((*b).model()),
            ),
            TypeExpr::Tensor(dims) => TypeExprView::Tensor(type_dims_of(dims@)),
            TypeExpr::App(a, b) => TypeExprView::App(
                Box::new((*a).model()),
                Box::new((*b).model()),
            ),
        }
    }
}

impl View for TypeExpr {
    type V = TypeExprView;

    open spec fn view(&self) -> TypeExprView {
        self.model()
    }
}

impl View for TopLevel {
    type V = TopLevelView;

    open spec fn view(&self) -> TopLevelView {
        match *self {
            TopLevel::Binding { name, params, body } => TopLevelView::Binding {
                name: name@,
                params: names_of(params@),
                body: body@,
            },
            TopLevel::TypeAnnotation { name, ty } => TopLevelView::TypeAnnotation {
                name: name@,
                ty: ty@,
            },
        }
    }
}

/// The model of a program.
pub open spec fn items_of(v: Seq<TopLevel>) -> Seq<TopLevelView> {
    Seq::new(v.len(), |i: int| v[i]@)
}

// ---------------------------------------------------------------------------
// Copies
// ---------------------------------------------------------------------------

/// A copy of a list of names.
pub fn clone_names(v: &Vec<String>) -> (out: Vec<String>)
    ensures
        names_of(out@) == names_of(v@),
{
    let mut out: Vec<String> = Vec::new();
    let mut i: usize = 0;
    while i < v.len()
        invariant
            i <= v.len(),
            out.len() == i,
            forall|k: int| 0 <= k < i ==> (#[trigger] out@[k])@ == v@[k]@,
        decreases v.len() - i,
    {
        out.push(v[i].clone());
        i = i + 1;
    }
    out
}

impl Clone for Literal {
    fn clone(&self) -> (out: Literal)
        ensures
            out@ == self@,
    {
        match self {
            Literal::Int(n) => Literal::Int(*n),
            Literal::Float(s) => Literal::Float(s.clone()),
            Literal::Bool(b) => Literal::Bool(*b),
        }
    }
}

impl Clone for Expr {
    /// A copy of the whole tree.
    fn clone(&self) -> (out: Expr)
        ensures
            out@ == self@,
        decreases *self,
    {
        match self {
            Expr::Lit(l) => Expr::Lit(l.clone()),
            Expr::Var(n) => Expr::Var(n.clone()),
            Expr::App(f, a) => Expr::App(Box::new((**f).clone()), Box::new((**a).clone())),
            Expr::BinOp { op, left, right } => Expr::BinOp {
                op: *op,
                left: Box::new((**left).clone()),
                right: Box::new((**right).clone()),
            },
            Expr::UnaryMinus(e) => Expr::UnaryMinus(Box::new((**e).clone())),
            Expr::Pipe(a, f) => Expr::Pipe(Box::new((**a).clone()), Box::new((**f).clone())),
            Expr::If { cond, then, else_ } => Expr::If {
                cond: Box::new((**cond).clone()),
                then: Box::new((**then).clone()),
                else_: Box::new((**else_).clone()),
            },
            Expr::Let { name, params, value, body } => Expr::Let {
                name: name.clone(),
                params: clone_names(params),
                value: Box::new((**value).clone()),
                body: Box::new((**body).clone()),
            },
            Expr::TensorLit(rows) => Expr::TensorLit(clone_rows(rows)),
            Expr::Lambda { param, body } => Expr::Lambda {
                param: param.clone(),
                body: Box::new((**body).clone()),
            },
        }
    }
}

fn clone_rows(rows: &Vec<Vec<Expr>>) -> (out: Vec<Vec<Expr>>)
    ensures
        Expr::TensorLit(out)@ == Expr::TensorLit(*rows)@,
    decreases rows,
{
    let mut out: Vec<Vec<Expr>> = Vec::new();
    let mut i: usize = 0;
    while i < rows.len()
        invariant
            i <= rows.len(),
            out.len() == i,
            forall|k: int| 0 <= k < i ==> row_of((#[trigger] out@[k])@) == row_of(rows@[k]@),
        decreases rows.len() - i,
    {
        out.push(clone_row(&rows[i]));
        i = i + 1;
    }
    proof {
        lemma_tensor_lit_view(out);
        lemma_tensor_lit_view(*rows);
        assert(rows_of(out@) =~= rows_of(rows@));
    }
    out
}

fn clone_row(row: &Vec<Expr>) -> (out: Vec<Expr>)
    ensures
        row_of(out@) == row_of(row@),
    decreases row,
{
    let mut out: Vec<Expr> = Vec::new();
    let mut j: usize = 0;
    while j < row.len()
        invariant
            j <= row.len(),
            out.len() == j,
            forall|k: int| 0 <= k < j ==> (#[trigger] out@[k])@ == row@[k]@,
        decreases row.len() - j,
    {
        out.push(row[j].clone());
        j = j + 1;
    }
    assert(row_of(out@) =~= row_of(row@));
    out
}

} // verus!
