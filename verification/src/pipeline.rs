//! From source text to the value of a program.

use crate::ast::{items_of, Program, TopLevelView};
use crate::interpreter::{eval_program, program_value};
use crate::lexer::{
    kind_text, law_end_mark_is_last, lex, lex_model, tokens_of, LexError, LexErrorView, Span, Token,
    TokenKind, TokenKindView,
};
use crate::num::{is_arithmetic, meaning, Arith, Query};
use crate::parser::{parse, parse_model, ParseError, ParseErrorView};
use crate::shape_stage::{
    dims_text, program_shape, shape_eval_program, DimView, ShapeError, ShapeErrorView,
};
use crate::tensor::{Tensor, TensorView};
use crate::text::{char_debug, decimal, signed_decimal, str_debug};
use crate::value::{
    builtin_name, lemma_partial_view, sizes_text, BuiltinFn, EvalError, EvalErrorView,
    ShownView, Value, ValueView,
};
use std::rc::Rc;
use vstd::prelude::*;

verus! {

/// What can go wrong, by the stage that it goes wrong in.
#[derive(Debug)]
pub enum HaploError {
    Lex(LexError),
    Parse(ParseError),
    Shape(ShapeError),
    Eval(EvalError),
}

#[verifier::ext_equal]
pub enum HaploErrorView {
    Lex(LexErrorView),
    Parse(ParseErrorView),
    Shape(ShapeErrorView),
    Eval(EvalErrorView),
}

impl View for HaploError {
    type V = HaploErrorView;

    open spec fn view(&self) -> HaploErrorView {
        match *self {
            HaploError::Lex(e) => HaploErrorView::Lex(e@),
            HaploError::Parse(e) => HaploErrorView::Parse(e@),
            HaploError::Shape(e) => HaploErrorView::Shape(e@),
            HaploError::Eval(e) => HaploErrorView::Eval(e@),
        }
    }
}

impl HaploErrorView {
    /// What is said of the error. `number` is how the value of a float reads.
    pub open spec fn text(self, number: Seq<char>) -> Seq<char> {
        match self {
            HaploErrorView::Lex(e) => "字句解析エラー: "@ + e.text(),
            HaploErrorView::Parse(e) => "構文解析エラー: "@ + e.text(number),
            HaploErrorView::Shape(e) => "shape 検査エラー: "@ + e.text(),
            HaploErrorView::Eval(e) => "評価エラー: "@ + e.text(),
        }
    }
}

impl HaploError {
    /// The message shown for the error. `number` is how the value of a float
    /// reads that stands where none may stand.
    pub fn message(&self, number: &str) -> (out: String)
        ensures
            out@ == self@.text(number@),
    {
        match self {
            HaploError::Lex(e) => {
                let mut out: String = "字句解析エラー: ".to_owned();
                out.append(e.message().as_str());
                out
            },
            HaploError::Parse(e) => {
                let mut out: String = "構文解析エラー: ".to_owned();
                out.append(e.message(number).as_str());
                out
            },
            HaploError::Shape(e) => {
                let mut out: String = "shape 検査エラー: ".to_owned();
                out.append(e.message().as_str());
                out
            },
            HaploError::Eval(e) => {
                let mut out: String = "評価エラー: ".to_owned();
                out.append(e.message().as_str());
                out
            },
        }
    }
}

/// The program that a source text is.
pub open spec fn program_model(source: Seq<char>) -> Result<Seq<TopLevelView>, HaploErrorView> {
    match lex_model(source) {
        Err(e) => Err(HaploErrorView::Lex(e)),
        Ok(tokens) => match parse_model(tokens) {
            Err(e) => Err(HaploErrorView::Parse(e)),
            Ok(items) => Ok(items),
        },
    }
}

/// What running a source text gives. A program whose shapes conflict is
/// rejected without being evaluated.
pub open spec fn run_model(m: Arith, source: Seq<char>, depth: nat) -> Result<
    ValueView,
    HaploErrorView,
> {
    match program_model(source) {
        Err(e) => Err(e),
        Ok(items) => match program_shape(items) {
            Err(e) => Err(HaploErrorView::Shape(e)),
            Ok(_) => match program_value(m, items, depth) {
                Err(e) => Err(HaploErrorView::Eval(e)),
                Ok(v) => Ok(v),
            },
        },
    }
}

/// The program that a source text is.
pub fn read_program(source: &str) -> (r: Result<Program, HaploError>)
    requires
        source@.len() < u32::MAX,
    ensures
        match program_model(source@) {
            Ok(items) => r matches Ok(program) && items_of(program@) == items,
            Err(e) => r matches Err(x) && x@ == e,
        },
{
    let tokens: Vec<Token> = match lex(source) {
        Ok(tokens) => tokens,
        Err(e) => {
            return Err(HaploError::Lex(e));
        },
    };
    proof {
        law_end_mark_is_last(source@);
        let ts = tokens_of(tokens@);
        assert(crate::lexer::is_eof(ts[ts.len() - 1]));
    }
    match parse(tokens.as_slice()) {
        Ok(program) => Ok(program),
        Err(e) => Err(HaploError::Parse(e)),
    }
}

/// Reads, checks and evaluates a source text. `depth` is how deep calls may
/// nest.
pub fn run<F: Fn(Query) -> Vec<u64>>(f: &F, source: &str, depth: usize) -> (r: Result<
    Value,
    HaploError,
>)
    requires
        is_arithmetic(f),
        source@.len() < u32::MAX,
    ensures
        match run_model(meaning(f), source@, depth as nat) {
            Ok(v) => r matches Ok(x) && x@ == v,
            Err(e) => r matches Err(x) && x@ == e,
        },
{
    let program: Program = match read_program(source) {
        Ok(program) => program,
        Err(e) => {
            return Err(e);
        },
    };
    match shape_eval_program(&program) {
        Ok(_) => {},
        Err(e) => {
            return Err(HaploError::Shape(e));
        },
    }
    match eval_program(f, &program, depth) {
        Ok(v) => Ok(v),
        Err(e) => Err(HaploError::Eval(e)),
    }
}

// ---------------------------------------------------------------------------
// Stages and messages
// ---------------------------------------------------------------------------

/// A text is read into tokens, the tokens into a program, its shapes are checked
/// and it is evaluated. The first stage that fails gives the error, and what it
/// is evaluated to is what running it gives.
pub proof fn law_stages_follow_each_other(m: Arith, source: Seq<char>, depth: nat)
    ensures
        match lex_model(source) {
            Err(e) => run_model(m, source, depth) == Err::<ValueView, HaploErrorView>(
                HaploErrorView::Lex(e),
            ),
            Ok(tokens) => match parse_model(tokens) {
                Err(e) => run_model(m, source, depth) == Err::<ValueView, HaploErrorView>(
                    HaploErrorView::Parse(e),
                ),
                Ok(items) => match program_shape(items) {
                    Err(e) => run_model(m, source, depth) == Err::<ValueView, HaploErrorView>(
                        HaploErrorView::Shape(e),
                    ),
                    Ok(_) => match program_value(m, items, depth) {
                        Err(e) => run_model(m, source, depth) == Err::<ValueView, HaploErrorView>(
                            HaploErrorView::Eval(e),
                        ),
                        Ok(v) => run_model(m, source, depth) == Ok::<ValueView, HaploErrorView>(v),
                    },
                },
            },
        },
{
}

/// A message names the stage that failed, and then says what it says.
pub proof fn law_messages_name_the_stage(
    lexing: LexErrorView,
    parsing: ParseErrorView,
    shapes: ShapeErrorView,
    evaluation: EvalErrorView,
    number: Seq<char>,
)
    ensures
        HaploErrorView::Lex(lexing).text(number) == "字句解析エラー: "@ + lexing.text(),
        HaploErrorView::Parse(parsing).text(number) == "構文解析エラー: "@ + parsing.text(number),
        HaploErrorView::Shape(shapes).text(number) == "shape 検査エラー: "@ + shapes.text(),
        HaploErrorView::Eval(evaluation).text(number) == "評価エラー: "@ + evaluation.text(),
{
}

/// What is said of a text that cannot be read, and where.
pub proof fn law_messages_of_reading(
    ch: char,
    raw: Seq<char>,
    got: TokenKindView,
    expected: Seq<char>,
    line: u32,
    col: u32,
    number: Seq<char>,
)
    ensures
        ({
            let place = " ("@ + decimal(line as nat) + ":"@ + decimal(col as nat) + ")"@;
            &&& (LexErrorView::UnexpectedChar { ch, line, col }).text() == "予期しない文字 "@
                + char_debug(ch) + place
            &&& (LexErrorView::UnterminatedBlockComment { line, col }).text()
                == "ブロックコメントが閉じられていません"@ + place
            &&& (LexErrorView::MalformedNumber { raw, line, col }).text() == "不正な数値リテラル "@
                + str_debug(raw) + place
            &&& (ParseErrorView::UnexpectedToken {
                got,
                expected,
                span: Span { line, col },
            }).text(number) == "予期しないトークン "@ + str_debug(kind_text(got, number)) + place
                + " — "@ + expected + " を期待"@
            &&& (ParseErrorView::UnexpectedEof { expected }).text(number)
                == "予期しないファイル末尾 — "@ + expected + " を期待"@
        }),
{
}

/// How messages call tokens: a literal or name by what it holds, others by their
/// name.
pub proof fn law_names_of_tokens(n: i64, b: bool, s: Seq<char>, number: Seq<char>)
    ensures
        kind_text(TokenKindView::Float(s), number) == "Float"@ + "("@ + number + ")"@,
        kind_text(TokenKindView::Ident(s), number) == "Ident"@ + "("@ + str_debug(s) + ")"@,
        kind_text(TokenKindView::Plain(TokenKind::Int(n)), number) == "Int"@ + "("@
            + signed_decimal(n as int) + ")"@,
        kind_text(TokenKindView::Plain(TokenKind::Bool(b)), number) == "Bool"@ + "("@ + (if b {
            "true"@
        } else {
            "false"@
        }) + ")"@,
        kind_text(TokenKindView::Plain(TokenKind::Let), number) == "Let"@,
        kind_text(TokenKindView::Plain(TokenKind::In), number) == "In"@,
        kind_text(TokenKindView::Plain(TokenKind::If), number) == "If"@,
        kind_text(TokenKindView::Plain(TokenKind::Then), number) == "Then"@,
        kind_text(TokenKindView::Plain(TokenKind::Else), number) == "Else"@,
        kind_text(TokenKindView::Plain(TokenKind::Plus), number) == "Plus"@,
        kind_text(TokenKindView::Plain(TokenKind::Minus), number) == "Minus"@,
        kind_text(TokenKindView::Plain(TokenKind::Star), number) == "Star"@,
        kind_text(TokenKindView::Plain(TokenKind::Slash), number) == "Slash"@,
        kind_text(TokenKindView::Plain(TokenKind::Caret), number) == "Caret"@,
        kind_text(TokenKindView::Plain(TokenKind::At), number) == "At"@,
        kind_text(TokenKindView::Plain(TokenKind::EqEq), number) == "EqEq"@,
        kind_text(TokenKindView::Plain(TokenKind::BangEq), number) == "BangEq"@,
        kind_text(TokenKindView::Plain(TokenKind::Lt), number) == "Lt"@,
        kind_text(TokenKindView::Plain(TokenKind::Le), number) == "Le"@,
        kind_text(TokenKindView::Plain(TokenKind::Gt), number) == "Gt"@,
        kind_text(TokenKindView::Plain(TokenKind::Ge), number) == "Ge"@,
        kind_text(TokenKindView::Plain(TokenKind::Eq), number) == "Eq"@,
        kind_text(TokenKindView::Plain(TokenKind::Colon), number) == "Colon"@,
        kind_text(TokenKindView::Plain(TokenKind::Arrow), number) == "Arrow"@,
        kind_text(TokenKindView::Plain(TokenKind::Comma), number) == "Comma"@,
        kind_text(TokenKindView::Plain(TokenKind::Semicolon), number) == "Semicolon"@,
        kind_text(TokenKindView::Plain(TokenKind::Pipe), number) == "Pipe"@,
        kind_text(TokenKindView::Plain(TokenKind::LParen), number) == "LParen"@,
        kind_text(TokenKindView::Plain(TokenKind::RParen), number) == "RParen"@,
        kind_text(TokenKindView::Plain(TokenKind::LBrack), number) == "LBrack"@,
        kind_text(TokenKindView::Plain(TokenKind::RBrack), number) == "RBrack"@,
        kind_text(TokenKindView::Plain(TokenKind::Newline), number) == "Newline"@,
        kind_text(TokenKindView::Plain(TokenKind::Eof), number) == "Eof"@,
{
}

/// What is said of shapes that do not go together.
pub proof fn law_messages_of_shapes(
    op: Seq<char>,
    name: Seq<char>,
    x: Seq<char>,
    y: Seq<char>,
    a: Seq<DimView>,
    b: Seq<DimView>,
)
    ensures
        (ShapeErrorView::MatMulMismatch { a, b }).text()
            == "行列積 `@` の内次元が一致しません: "@ + dims_text(a) + " @ "@ + dims_text(b),
        (ShapeErrorView::ElementwiseMismatch { op, a, b }).text() == "演算子 `"@ + op
            + "` の shape が一致しません: "@ + dims_text(a) + " と "@ + dims_text(b),
        ShapeErrorView::NonUniformTensor.text() == "テンソルリテラルの行の長さが揃っていません"@,
        (ShapeErrorView::AnnotationMismatch { name, declared: a, inferred: b }).text() == "`"@
            + name + "` の型注釈 "@ + dims_text(a) + " と本体の shape "@ + dims_text(b)
            + " が一致しません"@,
        (ShapeErrorView::VarConflict { op, var_a: x, var_b: y }).text() == "演算子 `"@ + op
            + "` の次元変数 `"@ + x + "` と `"@ + y
            + "` が衝突しています（独立した変数のため等しい保証がありません）"@,
{
}

/// Dimensions are written in brackets, with a comma and a space between two: a
/// size as its numeral, a variable by its name, and what is not known as `?`.
pub proof fn law_text_of_dimensions(dims: Seq<DimView>, d: DimView)
    ensures
        ({
            let one = match d {
                DimView::Concrete(n) => decimal(n as nat),
                DimView::Var(s) => s,
                DimView::Unknown => "?"@,
            };
            &&& dims_text(Seq::empty()) == "["@ + "]"@
            &&& dims_text(seq![d]) == "["@ + one + "]"@
            &&& dims.len() > 0 ==> forall|inner: Seq<char>|
                dims_text(dims) == #[trigger] ("["@ + inner + "]"@) ==> dims_text(dims.push(d))
                    == "["@ + (inner + ", "@ + one) + "]"@
        }),
{
    assert(dims.push(d).drop_last() =~= dims);
    assert(dims_text(Seq::empty()) =~= "["@ + "]"@);
    assert forall|inner: Seq<char>| dims_text(dims) == #[trigger] ("["@ + inner + "]"@)
        && dims.len() > 0 implies dims_text(dims.push(d)) == "["@ + (inner + ", "@ + match d {
        DimView::Concrete(n) => decimal(n as nat),
        DimView::Var(s) => s,
        DimView::Unknown => "?"@,
    }) + "]"@ by {
        lemma_same_inner(crate::shape_stage::dims_list(dims), inner);
    }
}

/// What stands between brackets is known from the whole.
proof fn lemma_same_inner(a: Seq<char>, b: Seq<char>)
    requires
        "["@ + a + "]"@ == "["@ + b + "]"@,
    ensures
        a == b,
{
    reveal_strlit("[");
    reveal_strlit("]");
    let x = "["@ + a + "]"@;
    let y = "["@ + b + "]"@;
    assert(x.subrange(1, x.len() - 1) =~= a);
    assert(y.subrange(1, y.len() - 1) =~= b);
}

/// Sizes are written in brackets, with a comma and a space between two.
pub proof fn law_text_of_sizes(sizes: Seq<usize>, n: usize)
    ensures
        sizes_text(Seq::empty()) == "["@ + "]"@,
        sizes_text(seq![n]) == "["@ + decimal(n as nat) + "]"@,
        sizes.len() > 0 ==> forall|inner: Seq<char>|
            sizes_text(sizes) == #[trigger] ("["@ + inner + "]"@) ==> sizes_text(sizes.push(n))
                == "["@ + (inner + ", "@ + decimal(n as nat)) + "]"@,
{
    assert(sizes.push(n).drop_last() =~= sizes);
    assert(sizes_text(Seq::empty()) =~= "["@ + "]"@);
    assert forall|inner: Seq<char>| sizes_text(sizes) == #[trigger] ("["@ + inner + "]"@)
        && sizes.len() > 0 implies sizes_text(sizes.push(n)) == "["@ + (inner + ", "@ + decimal(
        n as nat,
    )) + "]"@ by {
        lemma_same_inner(crate::value::sizes_list(sizes), inner);
    }
}

/// What is said of an evaluation that fails.
pub proof fn law_messages_of_evaluation(
    name: Seq<char>,
    expected: Seq<char>,
    got: Seq<char>,
    op: Seq<char>,
    a: Seq<usize>,
    b: Seq<usize>,
    wanted: usize,
    rank: usize,
)
    ensures
        EvalErrorView::UnboundVariable(name).text() == "未定義の変数: "@ + name,
        (EvalErrorView::TypeMismatch { expected, got }).text() == "型不一致: "@ + expected
            + " が必要ですが "@ + got + " でした"@,
        EvalErrorView::DivisionByZero.text() == "ゼロ除算"@,
        (EvalErrorView::TensorShapeMismatch { op, a, b }).text() == "演算子 `"@ + op
            + "` の shape 不一致: "@ + sizes_text(a) + " と "@ + sizes_text(b),
        EvalErrorView::TensorNonUniform.text() == "テンソルリテラルの行の長さが揃っていません"@,
        (EvalErrorView::TensorWrongRank { op, expected: wanted, got: rank }).text() == "演算子 `"@
            + op + "`: "@ + decimal(wanted as nat) + "次元テンソルが必要ですが "@ + decimal(
            rank as nat,
        ) + "次元でした"@,
        EvalErrorView::ArityMismatch.text() == "関数でない値を適用しようとしました"@,
        EvalErrorView::NoMain.text() == "`main` の定義が見つかりません"@,
        EvalErrorView::InvalidArgument(name).text() == "引数エラー: "@ + name,
        EvalErrorView::IntegerOverflow.text() == "整数演算の結果が大きすぎます"@,
        EvalErrorView::CallDepth.text() == "関数呼び出しが深すぎます"@,
{
}

/// How values are shown: an integer by its numeral, a truth value by its name, a
/// function by what kind of one it is. Numbers and tensors are shown as they are.
pub proof fn law_values_are_shown(
    n: i64,
    x: u64,
    b: bool,
    t: TensorView,
    v: ValueView,
    f: BuiltinFn,
    args: Seq<ValueView>,
)
    ensures
        ValueView::Int(n).shown() == ShownView::Text(signed_decimal(n as int)),
        ValueView::Float(x).shown() == ShownView::Number(x),
        ValueView::Bool(b).shown() == ShownView::Text(
            if b {
                "true"@
            } else {
                "false"@
            },
        ),
        ValueView::Tensor(t).shown() == ShownView::Array(t),
        v is Closure ==> v.shown() == ShownView::Text("<closure>"@),
        v is Traced ==> v.shown() == ShownView::Text("<tracked>"@),
        ValueView::Builtin(f).shown() == ShownView::Text("<builtin:"@ + builtin_name(f) + ">"@),
        ValueView::PartialBuiltin(f, args).shown() == ShownView::Text(
            "<builtin:"@ + builtin_name(f) + " (部分適用 "@ + decimal(args.len()) + " 引数)>"@,
        ),
        builtin_name(BuiltinFn::Sum) == "Sum"@,
        builtin_name(BuiltinFn::Mean) == "Mean"@,
        builtin_name(BuiltinFn::Exp) == "Exp"@,
        builtin_name(BuiltinFn::Log) == "Log"@,
        builtin_name(BuiltinFn::Tanh) == "Tanh"@,
        builtin_name(BuiltinFn::Sqrt) == "Sqrt"@,
        builtin_name(BuiltinFn::Zeros) == "Zeros"@,
        builtin_name(BuiltinFn::Ones) == "Ones"@,
        builtin_name(BuiltinFn::Transpose) == "Transpose"@,
        builtin_name(BuiltinFn::Reshape) == "Reshape"@,
        builtin_name(BuiltinFn::Grad) == "Grad"@,
        builtin_name(BuiltinFn::Iterate) == "Iterate"@,
        builtin_name(BuiltinFn::Abs) == "Abs"@,
        builtin_name(BuiltinFn::MaxVal) == "MaxVal"@,
        builtin_name(BuiltinFn::MinVal) == "MinVal"@,
        builtin_name(BuiltinFn::Concat) == "Concat"@,
        builtin_name(BuiltinFn::Flatten) == "Flatten"@,
        builtin_name(BuiltinFn::Norm) == "Norm"@,
        builtin_name(BuiltinFn::Clip) == "Clip"@,
        builtin_name(BuiltinFn::Softmax) == "Softmax"@,
{
}

/// What a value stands for is what it is.
pub proof fn law_values_are_what_they_are(
    n: i64,
    x: u64,
    b: bool,
    t: Rc<Tensor>,
    f: BuiltinFn,
    args: Vec<Value>,
    id: usize,
)
    ensures
        Value::Int(n)@ == ValueView::Int(n),
        Value::Float(x)@ == ValueView::Float(x),
        Value::Bool(b)@ == ValueView::Bool(b),
        Value::Tensor(t)@ == ValueView::Tensor((*t)@),
        Value::Builtin(f)@ == ValueView::Builtin(f),
        Value::Traced(id)@ == ValueView::Traced(id),
        ({
            let v = Value::PartialBuiltin(f, args)@;
            &&& v matches ValueView::PartialBuiltin(g, list)
            &&& g == f
            &&& list.len() == args@.len()
            &&& forall|i: int| 0 <= i < args@.len() ==> #[trigger] list[i] == args@[i]@
        }),
{
    lemma_partial_view(f, args);
}

/// What an error stands for is what it is.
pub proof fn law_errors_are_what_they_are(
    name: String,
    expected: &'static str,
    got: &'static str,
    a: Vec<usize>,
    b: Vec<usize>,
    wanted: usize,
    rank: usize,
    ch: char,
    line: u32,
    col: u32,
)
    ensures
        EvalError::UnboundVariable(name)@ == EvalErrorView::UnboundVariable(name@),
        (EvalError::TypeMismatch { expected, got })@ == (EvalErrorView::TypeMismatch {
            expected: expected@,
            got: got@,
        }),
        EvalError::DivisionByZero@ == EvalErrorView::DivisionByZero,
        (EvalError::TensorShapeMismatch { op: got, a, b })@ == (
        EvalErrorView::TensorShapeMismatch { op: got@, a: a@, b: b@ }),
        EvalError::TensorNonUniform@ == EvalErrorView::TensorNonUniform,
        (EvalError::TensorWrongRank { op: got, expected: wanted, got: rank })@ == (
        EvalErrorView::TensorWrongRank { op: got@, expected: wanted, got: rank }),
        EvalError::ArityMismatch@ == EvalErrorView::ArityMismatch,
        EvalError::NoMain@ == EvalErrorView::NoMain,
        EvalError::InvalidArgument(name)@ == EvalErrorView::InvalidArgument(name@),
        EvalError::IntegerOverflow@ == EvalErrorView::IntegerOverflow,
        EvalError::CallDepth@ == EvalErrorView::CallDepth,
        (LexError::UnexpectedChar { ch, line, col })@ == (LexErrorView::UnexpectedChar {
            ch,
            line,
            col,
        }),
        (LexError::UnterminatedBlockComment { line, col })@ == (
        LexErrorView::UnterminatedBlockComment { line, col }),
        (LexError::MalformedNumber { raw: name, line, col })@ == (LexErrorView::MalformedNumber {
            raw: name@,
            line,
            col,
        }),
{
}

/// An error of a stage stands for that error of that stage.
pub proof fn law_stages_are_what_they_are(
    lexing: LexError,
    parsing: ParseError,
    shapes: ShapeError,
    evaluation: EvalError,
)
    ensures
        HaploError::Lex(lexing)@ == HaploErrorView::Lex(lexing@),
        HaploError::Parse(parsing)@ == HaploErrorView::Parse(parsing@),
        HaploError::Shape(shapes)@ == HaploErrorView::Shape(shapes@),
        HaploError::Eval(evaluation)@ == HaploErrorView::Eval(evaluation@),
{
}

} // verus!
