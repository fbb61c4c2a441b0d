//! A small arithmetic-expression engine: tokens written in prefix or postfix
//! notation are evaluated to a 32-bit integer, or built into an explicit
//! binary expression tree that renders back as a minimally parenthesized
//! infix string.
pub mod driver;
pub mod eval;
pub mod laws;
pub mod token;
pub mod tree;

pub use driver::Program;
pub use driver::ProgramAction;
pub use driver::ProgramError;
pub use eval::EvalError;
pub use eval::Expr;
pub use eval::Order;
pub use eval::Symbol;
pub use token::TokenKind;
pub use tree::ExprTree;
