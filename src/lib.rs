//! Symbolic expressions over natural-number constants and named symbols, kept in a
//! canonical form by smart constructors, with symbolic differentiation and rendering.
pub mod form;
pub mod expr;
pub mod derivative;
pub mod render;
pub mod laws;

pub use form::Form;
pub use expr::{Expr, Symbol, Term};
