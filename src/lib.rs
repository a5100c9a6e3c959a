//! A small Lisp: values that are also programs, a reader, lexically captured
//! closures with currying and rest parameters, a standard library of
//! builtins, and a renderer of documents into programs of the language.
//!
//! Numbers are 64-bit signed integers: arithmetic whose result does not fit
//! fails with `BadNum`, and `/` truncates toward zero. Evaluation counts how
//! deeply S-expressions nest against a budget: `eval` and `call` use
//! `DEPTH`, as large as a `u64` allows, and `eval_with` and `call_with` take
//! one; beyond it evaluation fails with `DepthExceeded`.
pub mod builtin;
pub mod env;
pub mod eval;
pub mod laws;
pub mod lisp;
pub mod markdown;
pub mod markdown_reader;
pub mod parser;
pub mod print;
pub mod value;

pub use builtin::{
    add_builtin, builtin_assign, builtin_concat, builtin_def, builtin_echo, builtin_eq,
    builtin_err, builtin_head, builtin_join, builtin_lambda, builtin_list, builtin_ne,
    builtin_op, builtin_ord, builtin_rand, builtin_tail, builtin_var, init_builtins,
    rand_from_reading,
};
pub use env::{Lenv, init_env};
pub use eval::{builtin_eval, builtin_if, call, call_with, eval, eval_symbol, eval_with, DEPTH};
pub use lisp::{Compile, Lisp};
pub use markdown::{HtmlString, LispString, Markdown, MarkdownInline, MarkdownText};
pub use parser::{
    Context, ParseError, parse_expression, parse_number, parse_qexpression, parse_sexpression,
    parse_string, parse_symbol, root,
};
pub use value::{
    Builtin, Lerr, LerrType, Llambda, Lookup, Lval, to_lambda, to_num, to_qexpr, to_str, to_sym,
};

