//! A small evaluator for arithmetic expressions in prefix function-call
//! notation, such as `add(1,2)` or `div(mult(2,3),4)`, over
//! arbitrary-precision decimal numbers.
//!
//! The input is tokenized by stripping whitespace and splitting on the
//! structural characters `(`, `)` and `,`; the token sequence is then
//! consumed right to left by a stack machine in which numeric tokens push
//! a value and operator tokens pop two and push one. The result is rendered
//! as decimal text, optionally rounded to a requested number of fractional
//! digits.

pub mod decimal;
pub mod eval;
pub mod tokenize;

pub use decimal::Dec;
pub use eval::OxideErr;
pub use eval::evaluate;
pub use eval::evaluate_many;
