//! The expression tree that inference runs on.
//!
//! A surrounding program (a parser, a test) builds one of these trees and
//! hands it to `typing::infer`; nothing here is ever mutated after it is
//! built.

use vstd::prelude::*;

verus! {

/// An expression of the object language: booleans, integers, identifiers,
/// conditionals, single-argument function literals and application.
#[derive(Debug)]
pub enum Expr {
    /// A function literal, `fun x { body }`.
    Fun(Box<Fun>),
    /// A conditional, `if c { t } else { e }`.
    If(Box<If>),
    /// An application, `(f arg)`.
    App(Box<Expr>, Box<Expr>),
    /// An identifier occurrence.
    Id(String),
    /// A boolean literal.
    Bool(bool),
    /// An integer literal.
    Int(u64),
}

/// A function literal: the parameter name and the body.
#[derive(Debug)]
pub struct Fun {
    pub arg: String,
    pub expr: Expr,
}

/// A conditional: condition, then-branch and else-branch.
#[derive(Debug)]
pub struct If {
    pub cond: Expr,
    pub thn: Expr,
    pub els: Expr,
}

/// Number of nodes of an expression tree. Inference allocates at most one
/// fresh type variable per node, so this bounds the fresh-variable counter.
pub open spec fn expr_size(e: Expr) -> nat
    decreases e,
{
    match e {
        Expr::Fun(f) => 1 + expr_size(f.expr),
        Expr::If(b) => 1 + expr_size(b.cond) + expr_size(b.thn) + expr_size(b.els),
        Expr::App(e1, e2) => 1 + expr_size(*e1) + expr_size(*e2),
        Expr::Id(_) => 1,
        Expr::Bool(_) => 1,
        Expr::Int(_) => 1,
    }
}

} // verus!
