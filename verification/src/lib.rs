//! Haplo: a pure, statically shaped language for tensor programs.

pub mod ast;
pub mod autodiff;
pub mod eval_laws;
pub mod interpreter;
pub mod layout_laws;
pub mod lexer;
pub mod num;
pub mod parser;
pub mod parser_laws;
pub mod pipeline;
pub mod plain_programs;
pub mod shape_laws;
pub mod shape_stage;
pub mod slope_laws;
pub mod soundness;
pub mod tensor;
pub mod text;
pub mod value;
