//! The type term algebra: primitive types, function types and type
//! variables, together with the spec-level operations that the contracts
//! of substitution and unification are stated over.

use vstd::prelude::*;

verus! {

/// A type of the object language. Types are compared structurally: two
/// `Fun` types are equal iff their domains and codomains are, two `TVar`s
/// iff their ids are.
#[derive(Debug, PartialEq, Eq)]
pub enum Type {
    /// A function type, domain and codomain.
    Fun(Box<Type>, Box<Type>),
    /// The type of booleans.
    Bool,
    /// The type of integers.
    Int,
    /// An unresolved type variable, identified by a unique integer.
    TVar(u64),
}

impl Clone for Type {
    /// A clone is structurally equal to the original.
    fn clone(&self) -> (res: Self)
        ensures
            res == *self,
        decreases self,
    {
        match self {
            Type::Fun(a, b) => Type::Fun(Box::new((**a).clone()), Box::new((**b).clone())),
            Type::Bool => Type::Bool,
            Type::Int => Type::Int,
            Type::TVar(x) => Type::TVar(*x),
        }
    }
}

/// Structural equality of two types, decided executably.
pub fn ty_eq(a: &Type, b: &Type) -> (r: bool)
    ensures
        r == (a == b),
    decreases a,
{
    match (a, b) {
        (Type::Fun(a1, b1), Type::Fun(a2, b2)) => ty_eq(&**a1, &**a2) && ty_eq(&**b1, &**b2),
        (Type::Bool, Type::Bool) => true,
        (Type::Int, Type::Int) => true,
        (Type::TVar(x), Type::TVar(y)) => *x == *y,
        _ => false,
    }
}

/// The set of ids of the type variables occurring in `t`.
pub open spec fn tvars(t: Type) -> Set<u64>
    decreases t,
{
    match t {
        Type::Fun(a, b) => tvars(*a).union(tvars(*b)),
        Type::Bool => Set::empty(),
        Type::Int => Set::empty(),
        Type::TVar(x) => Set::empty().insert(x),
    }
}

/// Number of nodes of a type term.
pub open spec fn tsize(t: Type) -> nat
    decreases t,
{
    match t {
        Type::Fun(a, b) => 1 + tsize(*a) + tsize(*b),
        Type::Bool => 1,
        Type::Int => 1,
        Type::TVar(_) => 1,
    }
}

/// Applying a substitution (as a mathematical map) to a type: every
/// variable with an entry is replaced by that entry's type, everything
/// else is unchanged.
pub open spec fn s_apply(s: Map<u64, Type>, t: Type) -> Type
    decreases t,
{
    match t {
        Type::Fun(a, b) => Type::Fun(Box::new(s_apply(s, *a)), Box::new(s_apply(s, *b))),
        Type::Bool => Type::Bool,
        Type::Int => Type::Int,
        Type::TVar(x) => if s.dom().contains(x) {
            s[x]
        } else {
            Type::TVar(x)
        },
    }
}

/// The singleton substitution `{v -> x}`.
pub open spec fn single(v: u64, x: Type) -> Map<u64, Type> {
    Map::empty().insert(v, x)
}

impl Type {
    /// True iff the type variable `tv` occurs anywhere in `self`.
    pub fn has_tv(&self, tv: u64) -> (r: bool)
        ensures
            r == tvars(*self).contains(tv),
        decreases self,
    {
        match self {
            Type::Fun(t1, t2) => t1.has_tv(tv) || t2.has_tv(tv),
            Type::Bool => false,
            Type::Int => false,
            Type::TVar(x) => tv == *x,
        }
    }
}

/// The variable set of any type is finite.
pub proof fn lemma_tvars_finite(t: Type)
    ensures
        tvars(t).finite(),
    decreases t,
{
    match t {
        Type::Fun(a, b) => {
            lemma_tvars_finite(*a);
            lemma_tvars_finite(*b);
        },
        _ => {},
    }
}

/// A substitution leaves a type unchanged when none of its keys occurs in
/// the type. In particular the empty substitution is the identity.
pub proof fn lemma_apply_absent(s: Map<u64, Type>, t: Type)
    requires
        forall|j: u64| s.dom().contains(j) ==> !tvars(t).contains(j),
    ensures
        s_apply(s, t) == t,
    decreases t,
{
    match t {
        Type::Fun(a, b) => {
            lemma_apply_absent(s, *a);
            lemma_apply_absent(s, *b);
        },
        _ => {},
    }
}

/// Every variable of `s_apply(single(v, x), t)` is either a variable of
/// `t` other than `v`, or a variable of `x`.
pub proof fn lemma_apply_single_vars(v: u64, x: Type, t: Type)
    ensures
        forall|j: u64|
            tvars(s_apply(single(v, x), t)).contains(j) ==> ((tvars(t).contains(j) && j != v)
                || tvars(x).contains(j)),
    decreases t,
{
    match t {
        Type::Fun(a, b) => {
            lemma_apply_single_vars(v, x, *a);
            lemma_apply_single_vars(v, x, *b);
        },
        _ => {},
    }
}

} // verus!
