//! Untyped lambda calculus: terms, free variables, capture-avoiding
//! substitution, and small-step reduction strategies.
pub mod term;
pub mod vars;
pub mod substitution;
pub mod evaluation;
pub mod de_bruijn;
pub mod conversion;
pub mod parser;
