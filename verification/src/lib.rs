//! Hindley-Milner style type inference for a small functional language:
//! constraint generation over an expression tree followed by unification.

pub mod ast;
pub mod context;
pub mod subst;
pub mod typing;
pub mod unify;
pub mod types;

pub use ast::Expr;
pub use ast::Fun;
pub use ast::If;
pub use types::Type;
pub use typing::State;
