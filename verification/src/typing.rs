//! Constraint generation: one walk over the expression tree that assigns
//! a type to every sub-expression, records equality constraints, and
//! allocates fresh type variables for parameters and free identifiers.

use vstd::prelude::*;

use vstd::string::StringExecFns;

use crate::ast::{expr_size, Expr, Fun, If};
use crate::context::Context;
use crate::subst::{clone_constraint, Constraint, Subst};
use crate::types::Type;
use crate::unify::{idempotent, solves, unify};

verus! {

/// The mutable inference state threaded through one run: the constraints
/// and context gathered so far, and the next unused type-variable id.
#[derive(Debug)]
pub struct State {
    pub cnstr: Constraint,
    pub ctx: Context,
    pub tv: u64,
}

/// The type of the built-in identifiers; every other name is free.
pub open spec fn builtin_type(name: Seq<char>) -> Option<Type> {
    if name == "true"@ || name == "false"@ {
        Some(Type::Bool)
    } else if name == "succ"@ || name == "pred"@ {
        Some(Type::Fun(Box::new(Type::Int), Box::new(Type::Int)))
    } else if name == "iszero"@ {
        Some(Type::Fun(Box::new(Type::Int), Box::new(Type::Bool)))
    } else {
        None
    }
}

/// What one step of constraint generation does for an identifier: a
/// built-in resolves to its fixed type; a name already in the context
/// resolves to its stored type; a new name gets a fresh variable that is
/// also recorded in the context.
pub open spec fn gen_id(name: Seq<char>, ctx: Map<Seq<char>, Type>, cn: Seq<(Type, Type)>, tv: nat) -> (
    Type,
    Map<Seq<char>, Type>,
    Seq<(Type, Type)>,
    nat,
) {
    if builtin_type(name) is Some {
        (builtin_type(name)->Some_0, ctx, cn, tv)
    } else if ctx.dom().contains(name) {
        (ctx[name], ctx, cn, tv)
    } else {
        (Type::TVar(tv as u64), ctx.insert(name, Type::TVar(tv as u64)), cn, tv + 1)
    }
}

/// Constraint generation over a conditional: the three parts in order,
/// then the constraints `type(cond) = Bool` and `type(thn) = type(els)`;
/// the conditional's type is the else-branch's.
pub open spec fn gen_if(i: If, ctx: Map<Seq<char>, Type>, cn: Seq<(Type, Type)>, tv: nat) -> (
    Type,
    Map<Seq<char>, Type>,
    Seq<(Type, Type)>,
    nat,
)
    decreases expr_size(i.cond) + expr_size(i.thn) + expr_size(i.els), 1int,
{
    let rc = gen(i.cond, ctx, cn, tv);
    let rt = gen(i.thn, rc.1, rc.2, rc.3);
    let re = gen(i.els, rt.1, rt.2, rt.3);
    (re.0, re.1, re.2.push((rc.0, Type::Bool)).push((rt.0, re.0)), re.3)
}

/// Constraint generation over a function literal: a fresh variable for
/// the parameter, recorded in the context before the body is walked.
pub open spec fn gen_fun(f: Fun, ctx: Map<Seq<char>, Type>, cn: Seq<(Type, Type)>, tv: nat) -> (
    Type,
    Map<Seq<char>, Type>,
    Seq<(Type, Type)>,
    nat,
)
    decreases expr_size(f.expr), 1int,
{
    let p = Type::TVar(tv as u64);
    let rb = gen(f.expr, ctx.insert(f.arg@, p), cn, tv + 1);
    (Type::Fun(Box::new(p), Box::new(rb.0)), rb.1, rb.2, rb.3)
}

/// Constraint generation over an application: the argument first, then
/// the function, then a fresh variable for the result and the constraint
/// `type(f) = Fun(type(arg), result)`.
pub open spec fn gen_app(e1: Expr, e2: Expr, ctx: Map<Seq<char>, Type>, cn: Seq<(Type, Type)>, tv: nat) -> (
    Type,
    Map<Seq<char>, Type>,
    Seq<(Type, Type)>,
    nat,
)
    decreases expr_size(e1) + expr_size(e2), 1int,
{
    let ra = gen(e2, ctx, cn, tv);
    let rf = gen(e1, ra.1, ra.2, ra.3);
    let tr = Type::TVar(rf.3 as u64);
    (tr, rf.1, rf.2.push((rf.0, Type::Fun(Box::new(ra.0), Box::new(tr)))), rf.3 + 1)
}

/// What constraint generation computes on an expression, given the state
/// so far: the expression's type and the new context, constraint list and
/// fresh-variable counter.
pub open spec fn gen(e: Expr, ctx: Map<Seq<char>, Type>, cn: Seq<(Type, Type)>, tv: nat) -> (
    Type,
    Map<Seq<char>, Type>,
    Seq<(Type, Type)>,
    nat,
)
    decreases expr_size(e), 0int,
{
    match e {
        Expr::Int(_) => (Type::Int, ctx, cn, tv),
        Expr::Bool(_) => (Type::Bool, ctx, cn, tv),
        Expr::Id(name) => gen_id(name@, ctx, cn, tv),
        Expr::If(b) => gen_if(*b, ctx, cn, tv),
        Expr::Fun(f) => gen_fun(*f, ctx, cn, tv),
        Expr::App(e1, e2) => gen_app(*e1, *e2, ctx, cn, tv),
    }
}

/// Constraint generation allocates at most one fresh variable per node,
/// and never takes the counter backwards.
pub proof fn lemma_gen_tv_bound(e: Expr, ctx: Map<Seq<char>, Type>, cn: Seq<(Type, Type)>, tv: nat)
    ensures
        tv <= gen(e, ctx, cn, tv).3 <= tv + expr_size(e),
    decreases expr_size(e), 2int,
{
    match e {
        Expr::Int(_) => {},
        Expr::Bool(_) => {},
        Expr::Id(_) => {},
        Expr::If(b) => {
            let rc = gen(b.cond, ctx, cn, tv);
            let rt = gen(b.thn, rc.1, rc.2, rc.3);
            lemma_gen_tv_bound(b.cond, ctx, cn, tv);
            lemma_gen_tv_bound(b.thn, rc.1, rc.2, rc.3);
            lemma_gen_tv_bound(b.els, rt.1, rt.2, rt.3);
        },
        Expr::Fun(f) => {
            lemma_gen_tv_bound(f.expr, ctx.insert(f.arg@, Type::TVar(tv as u64)), cn, tv + 1);
        },
        Expr::App(e1, e2) => {
            let ra = gen(*e2, ctx, cn, tv);
            lemma_gen_tv_bound(*e2, ctx, cn, tv);
            lemma_gen_tv_bound(*e1, ra.1, ra.2, ra.3);
        },
    }
}

impl State {
    /// All invariants of the state: the context has one entry per name.
    pub open spec fn wf(&self) -> bool {
        self.ctx.wf()
    }

    /// A fresh state: nothing collected, the counter at zero.
    pub fn new() -> (r: State)
        ensures
            r.wf(),
            r.ctx@ == Map::<Seq<char>, Type>::empty(),
            r.cnstr@ == Seq::<(Type, Type)>::empty(),
            r.tv == 0,
    {
        State { cnstr: Vec::new(), ctx: Context::empty(), tv: 0 }
    }

    /// Allocate the next fresh type variable.
    pub fn get_tv(&mut self) -> (r: Type)
        requires
            old(self).tv < u64::MAX,
        ensures
            r == Type::TVar(old(self).tv),
            final(self).tv == old(self).tv + 1,
            final(self).ctx == old(self).ctx,
            final(self).cnstr == old(self).cnstr,
    {
        let tv = self.tv;
        self.tv = self.tv + 1;
        Type::TVar(tv)
    }
}

/// Walk an expression, returning its type and growing the state as
/// `gen` describes.
pub fn typing_expr(e: &Expr, s: &mut State) -> (r: Type)
    requires
        old(s).wf(),
        old(s).tv + expr_size(*e) <= u64::MAX,
    ensures
        final(s).wf(),
        ({
            let g = gen(*e, old(s).ctx@, old(s).cnstr@, old(s).tv as nat);
            r == g.0 && final(s).ctx@ == g.1 && final(s).cnstr@ == g.2 && final(s).tv as nat == g.3
        }),
    decreases expr_size(*e), 0int,
{
    match e {
        Expr::Int(_) => Type::Int,
        Expr::Bool(_) => Type::Bool,
        Expr::If(b) => typing_if(&**b, s),
        Expr::Id(name) => typing_id(name, s),
        Expr::App(e1, e2) => typing_app(&**e1, &**e2, s),
        Expr::Fun(f) => typing_fun(&**f, s),
    }
}

/// Type a conditional as `gen_if` describes.
pub fn typing_if(e: &If, s: &mut State) -> (r: Type)
    requires
        old(s).wf(),
        old(s).tv + expr_size(e.cond) + expr_size(e.thn) + expr_size(e.els) <= u64::MAX,
    ensures
        final(s).wf(),
        ({
            let g = gen_if(*e, old(s).ctx@, old(s).cnstr@, old(s).tv as nat);
            r == g.0 && final(s).ctx@ == g.1 && final(s).cnstr@ == g.2 && final(s).tv as nat == g.3
        }),
    decreases expr_size(e.cond) + expr_size(e.thn) + expr_size(e.els), 1int,
{
    let ty_cond = typing_expr(&e.cond, s);
    proof {
        lemma_gen_tv_bound(e.cond, old(s).ctx@, old(s).cnstr@, old(s).tv as nat);
    }
    let ghost mid1 = *s;
    let ty_then = typing_expr(&e.thn, s);
    proof {
        lemma_gen_tv_bound(e.thn, mid1.ctx@, mid1.cnstr@, mid1.tv as nat);
    }
    let ty_els = typing_expr(&e.els, s);

    s.cnstr.push((ty_cond, Type::Bool));
    s.cnstr.push((ty_then, ty_els.clone()));

    ty_els
}

/// Type an identifier as `gen_id` describes: built-ins resolve to fixed
/// types and are never recorded; a known name resolves to its stored
/// type; a new name gets a fresh variable and a context entry.
pub fn typing_id(e: &String, s: &mut State) -> (r: Type)
    requires
        old(s).wf(),
        old(s).tv < u64::MAX,
    ensures
        final(s).wf(),
        ({
            let g = gen_id(e@, old(s).ctx@, old(s).cnstr@, old(s).tv as nat);
            r == g.0 && final(s).ctx@ == g.1 && final(s).cnstr@ == g.2 && final(s).tv as nat == g.3
        }),
{
    let tru = String::from_str("true");
    let fls = String::from_str("false");
    let suc = String::from_str("succ");
    let prd = String::from_str("pred");
    let isz = String::from_str("iszero");
    if *e == tru || *e == fls {
        Type::Bool
    } else if *e == suc || *e == prd {
        Type::Fun(Box::new(Type::Int), Box::new(Type::Int))
    } else if *e == isz {
        Type::Fun(Box::new(Type::Int), Box::new(Type::Bool))
    } else {
        let found = s.ctx.get(e);
        match found {
            Some(t) => t.clone(),
            None => {
                let tv = s.get_tv();
                s.ctx.insert(e.clone(), tv.clone());
                tv
            },
        }
    }
}

/// Type a function literal as `gen_fun` describes: the parameter's fresh
/// variable enters the context before the body is walked, overwriting any
/// earlier entry of the same name.
pub fn typing_fun(e: &Fun, s: &mut State) -> (r: Type)
    requires
        old(s).wf(),
        old(s).tv + 1 + expr_size(e.expr) <= u64::MAX,
    ensures
        final(s).wf(),
        ({
            let g = gen_fun(*e, old(s).ctx@, old(s).cnstr@, old(s).tv as nat);
            r == g.0 && final(s).ctx@ == g.1 && final(s).cnstr@ == g.2 && final(s).tv as nat == g.3
        }),
    decreases expr_size(e.expr), 1int,
{
    let targ = s.get_tv();
    s.ctx.insert(e.arg.clone(), targ.clone());

    let texp = typing_expr(&e.expr, s);

    Type::Fun(Box::new(targ), Box::new(texp))
}

/// Type an application as `gen_app` describes: the argument before the
/// function (a fresh-variable-numbering convention), then a fresh result
/// variable constrained by `type(f) = Fun(type(arg), result)`.
pub fn typing_app(e1: &Expr, e2: &Expr, s: &mut State) -> (r: Type)
    requires
        old(s).wf(),
        old(s).tv + expr_size(*e1) + expr_size(*e2) + 1 <= u64::MAX,
    ensures
        final(s).wf(),
        ({
            let g = gen_app(*e1, *e2, old(s).ctx@, old(s).cnstr@, old(s).tv as nat);
            r == g.0 && final(s).ctx@ == g.1 && final(s).cnstr@ == g.2 && final(s).tv as nat == g.3
        }),
    decreases expr_size(*e1) + expr_size(*e2), 1int,
{
    let t2 = typing_expr(e2, s);
    proof {
        lemma_gen_tv_bound(*e2, old(s).ctx@, old(s).cnstr@, old(s).tv as nat);
    }
    let ghost mid = *s;
    let t1 = typing_expr(e1, s);
    proof {
        lemma_gen_tv_bound(*e1, mid.ctx@, mid.cnstr@, mid.tv as nat);
    }
    let tres = s.get_tv();
    s.cnstr.push((t1, Type::Fun(Box::new(t2), Box::new(tres.clone()))));
    tres
}

/// Infer the type constraints of an expression: walk it once, then unify
/// the constraints. The result is the final context, the generated
/// constraint list, and the solving substitution — or `None` when the
/// constraints have no solution; context and constraints are returned
/// even then, for diagnostics.
pub fn infer(e: &Expr) -> (r: (Context, Constraint, Option<Subst>))
    requires
        expr_size(*e) <= u64::MAX,
    ensures
        ({
            let g = gen(*e, Map::<Seq<char>, Type>::empty(), Seq::<(Type, Type)>::empty(), 0);
            r.0.wf() && r.0@ == g.1 && r.1@ == g.2 && (match r.2 {
                Some(su) => su.wf() && solves(su@, g.2) && idempotent(su@),
                None => forall|m: Map<u64, Type>| !solves(m, g.2),
            }) && (g.2.len() == 0 ==> match r.2 {
                Some(su) => su@ == Map::<u64, Type>::empty(),
                None => false,
            })
        }),
{
    let mut s = State::new();
    typing_expr(e, &mut s);
    let State { cnstr, ctx, tv: _ } = s;
    let c = clone_constraint(&cnstr);
    (ctx, c, unify(cnstr))
}

/// Law: an integer literal is typed `Int` and touches nothing — whatever
/// context, constraints and counter the walk has reached. In particular
/// inference on a bare literal ends with an empty context, no constraints
/// and the empty substitution.
pub proof fn lemma_gen_int(n: u64, ctx: Map<Seq<char>, Type>, cn: Seq<(Type, Type)>, tv: nat)
    ensures
        gen(Expr::Int(n), ctx, cn, tv) == (Type::Int, ctx, cn, tv),
{
}

/// Law: a boolean literal is typed `Bool` and touches nothing.
pub proof fn lemma_gen_bool(b: bool, ctx: Map<Seq<char>, Type>, cn: Seq<(Type, Type)>, tv: nat)
    ensures
        gen(Expr::Bool(b), ctx, cn, tv) == (Type::Bool, ctx, cn, tv),
{
}

/// Law: `iszero` resolves to `Fun(Int, Bool)` without a context entry —
/// the name is never recorded, whatever the context holds.
pub proof fn lemma_gen_iszero(name: String, ctx: Map<Seq<char>, Type>, cn: Seq<(Type, Type)>, tv: nat)
    requires
        name@ == "iszero"@,
    ensures
        gen(Expr::Id(name), ctx, cn, tv) == (
            Type::Fun(Box::new(Type::Int), Box::new(Type::Bool)),
            ctx,
            cn,
            tv,
        ),
{
    reveal_strlit("iszero");
    reveal_strlit("true");
    reveal_strlit("false");
    reveal_strlit("succ");
    reveal_strlit("pred");
    assert(("iszero"@).len() == 6);
    assert(("true"@).len() == 4);
    assert(("false"@).len() == 5);
    assert(("succ"@).len() == 4);
    assert(("pred"@).len() == 4);
    assert(name@ != "true"@ && name@ != "false"@ && name@ != "succ"@ && name@ != "pred"@);
}

/// Law: a free identifier met with an empty context captures exactly one
/// entry, binding the name to the fresh variable `TVar(tv)`, and emits no
/// constraint.
pub proof fn lemma_gen_free_id(name: String, cn: Seq<(Type, Type)>, tv: nat)
    requires
        builtin_type(name@) is None,
    ensures
        gen(Expr::Id(name), Map::<Seq<char>, Type>::empty(), cn, tv) == (
            Type::TVar(tv as u64),
            Map::<Seq<char>, Type>::empty().insert(name@, Type::TVar(tv as u64)),
            cn,
            tv + 1,
        ),
{
}

} // verus!
