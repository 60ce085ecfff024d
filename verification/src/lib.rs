//! Front end and evaluator for a small dynamically typed expression
//! language: literals (numbers, strings, booleans, nil), grouping, unary
//! negation and logical not, and binary arithmetic, comparison and equality
//! operators.
//!
//! The pipeline has three stages: the lexer ([`scanner`]) classifies source
//! bytes into spanned tokens, the recursive-descent [`parser`] builds
//! expression trees with precedence climbing and per-expression error
//! recovery, and the [`interpreter`] walks one tree and produces a runtime
//! value or a typed error. [`diagnostics`] maps byte-offset spans back to
//! source lines for error rendering.
//!
//! Runtime numbers are IEEE-754 binary64 values, carried as their 64-bit
//! encodings; the arithmetic itself is delegated to `rustc_apfloat`
//! (see [`numeric`]).

pub mod ast;
pub mod diagnostics;
pub mod interpreter;
pub mod numeric;
pub mod parser;
pub mod scanner;
pub mod span;
pub mod value;
