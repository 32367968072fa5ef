use hm_infer::ast::{Expr, Fun, If};
use hm_infer::subst::{apply_type, compose, Subst};
use hm_infer::typing::{infer, typing_expr, State};
use hm_infer::types::Type;
use hm_infer::unify::unify;

fn id(name: &str) -> Expr {
    Expr::Id(name.to_string())
}

fn app(f: Expr, a: Expr) -> Expr {
    Expr::App(Box::new(f), Box::new(a))
}

fn fun(arg: &str, body: Expr) -> Expr {
    Expr::Fun(Box::new(Fun { arg: arg.to_string(), expr: body }))
}

fn cond(c: Expr, t: Expr, e: Expr) -> Expr {
    Expr::If(Box::new(If { cond: c, thn: t, els: e }))
}

fn fun_ty(d: Type, c: Type) -> Type {
    Type::Fun(Box::new(d), Box::new(c))
}

#[test]
fn int_literal_infers_int() {
    let mut st = State::new();
    let t = typing_expr(&Expr::Int(42), &mut st);
    assert_eq!(t, Type::Int);

    let (ctx, c, s) = infer(&Expr::Int(42));
    assert_eq!(ctx.len(), 0);
    assert_eq!(c.len(), 0);
    let s = s.expect("a literal must unify");
    assert_eq!(s.len(), 0);
}

#[test]
fn bool_literal_infers_bool() {
    let mut st = State::new();
    let t = typing_expr(&Expr::Bool(false), &mut st);
    assert_eq!(t, Type::Bool);

    let (ctx, c, s) = infer(&Expr::Bool(true));
    assert_eq!(ctx.len(), 0);
    assert_eq!(c.len(), 0);
    assert_eq!(s.expect("a literal must unify").len(), 0);
}

#[test]
fn iszero_resolves_without_context_entry() {
    let mut st = State::new();
    let t = typing_expr(&id("iszero"), &mut st);
    assert_eq!(t, fun_ty(Type::Int, Type::Bool));
    assert_eq!(st.ctx.len(), 0);
    assert_eq!(st.cnstr.len(), 0);

    let (ctx, _, s) = infer(&id("iszero"));
    assert_eq!(ctx.len(), 0);
    assert!(s.is_some());
}

#[test]
fn builtins_resolve_to_fixed_types() {
    for name in ["succ", "pred"] {
        let mut st = State::new();
        let t = typing_expr(&id(name), &mut st);
        assert_eq!(t, fun_ty(Type::Int, Type::Int));
        assert_eq!(st.ctx.len(), 0);
    }
    for name in ["true", "false"] {
        let mut st = State::new();
        let t = typing_expr(&id(name), &mut st);
        assert_eq!(t, Type::Bool);
        assert_eq!(st.ctx.len(), 0);
    }
}

#[test]
fn free_variable_is_captured() {
    let (ctx, c, s) = infer(&id("x"));
    assert_eq!(ctx.len(), 1);
    assert_eq!(ctx.get(&"x".to_string()), Some(&Type::TVar(0)));
    assert_eq!(c.len(), 0);
    assert!(s.is_some());
}

#[test]
fn if_branches_unify() {
    let e = cond(Expr::Bool(true), Expr::Int(1), Expr::Int(2));

    let mut st = State::new();
    let t = typing_expr(&e, &mut st);
    assert_eq!(st.cnstr, vec![(Type::Bool, Type::Bool), (Type::Int, Type::Int)]);

    let (ctx, c, s) = infer(&e);
    assert_eq!(ctx.len(), 0);
    assert_eq!(c, vec![(Type::Bool, Type::Bool), (Type::Int, Type::Int)]);
    let s = s.expect("equal branches must unify");
    assert_eq!(apply_type(&s, &t), Type::Int);
}

#[test]
fn application_is_well_typed() {
    let e = app(id("iszero"), Expr::Int(5));

    let mut st = State::new();
    let t = typing_expr(&e, &mut st);
    assert_eq!(t, Type::TVar(0));

    let (_, _, s) = infer(&e);
    let s = s.expect("applying iszero to an integer must unify");
    assert_eq!(apply_type(&s, &t), Type::Bool);
}

#[test]
fn applying_a_non_function_is_rejected() {
    let (_, c, s) = infer(&app(Expr::Int(1), Expr::Int(2)));
    assert!(s.is_none());
    assert_eq!(c.len(), 1);
}

#[test]
fn occurs_check_rejects_self_application() {
    let e = fun("x", app(id("x"), id("x")));
    let (_, _, s) = infer(&e);
    assert!(s.is_none());
}

#[test]
fn compose_applies_second_then_first() {
    let mut s1 = Subst::empty();
    s1.insert(1, Type::Int);
    let mut s2 = Subst::empty();
    s2.insert(0, Type::TVar(1));

    let s = compose(&s1, &s2);
    assert_eq!(s.len(), 2);
    // the s2 entry is rewritten by s1; the s1-only entry is kept
    assert_eq!(s.get(0), Some(&Type::Int));
    assert_eq!(s.get(1), Some(&Type::Int));
    // apply(compose(s1, s2), t) == apply(s1, apply(s2, t))
    let t = Type::TVar(0);
    assert_eq!(apply_type(&s, &t), apply_type(&s1, &apply_type(&s2, &t)));
}

#[test]
fn compose_lets_second_take_precedence() {
    let mut s1 = Subst::empty();
    s1.insert(0, Type::Int);
    let mut s2 = Subst::empty();
    s2.insert(0, Type::Bool);

    let s = compose(&s1, &s2);
    assert_eq!(s.len(), 1);
    assert_eq!(s.get(0), Some(&Type::Bool));
}

#[test]
fn solved_substitution_is_idempotent() {
    let e = app(fun("f", app(id("f"), Expr::Int(3))), id("iszero"));
    let (_, _, s) = infer(&e);
    let s = s.expect("this application must unify");
    // re-applying the substitution to each of its own values changes nothing
    for v in 0..8u64 {
        if let Some(t) = s.get(v) {
            assert_eq!(&apply_type(&s, t), t);
        }
    }
}

#[test]
fn function_literal_binds_its_parameter() {
    let e = fun("x", id("x"));
    let mut st = State::new();
    let t = typing_expr(&e, &mut st);
    assert_eq!(t, fun_ty(Type::TVar(0), Type::TVar(0)));
    assert_eq!(st.ctx.len(), 1);
    assert_eq!(st.ctx.get(&"x".to_string()), Some(&Type::TVar(0)));
}

#[test]
fn parameter_overwrites_free_variable_of_same_name() {
    // the argument walks first, capturing x; the parameter then overwrites it
    let e = app(fun("x", id("x")), id("x"));
    let mut st = State::new();
    typing_expr(&e, &mut st);
    assert_eq!(st.ctx.len(), 1);
    assert_eq!(st.ctx.get(&"x".to_string()), Some(&Type::TVar(1)));
}

#[test]
fn application_constrains_function_type() {
    let e = app(id("f"), Expr::Int(7));
    let mut st = State::new();
    let t = typing_expr(&e, &mut st);
    // arg first: nothing fresh; f free: TVar(0); result: TVar(1)
    assert_eq!(t, Type::TVar(1));
    assert_eq!(st.cnstr, vec![(Type::TVar(0), fun_ty(Type::Int, Type::TVar(1)))]);

    let (_, _, s) = infer(&e);
    let s = s.expect("a free function variable must unify");
    assert_eq!(apply_type(&s, &Type::TVar(0)), fun_ty(Type::Int, Type::TVar(1)));
}

#[test]
fn inferred_function_type_substitutes_through() {
    let e = fun("f", app(id("f"), Expr::Int(3)));
    let mut st = State::new();
    let t = typing_expr(&e, &mut st);
    assert_eq!(t, fun_ty(Type::TVar(0), Type::TVar(1)));

    let (_, _, s) = infer(&e);
    let s = s.expect("must unify");
    assert_eq!(
        apply_type(&s, &t),
        fun_ty(fun_ty(Type::Int, Type::TVar(1)), Type::TVar(1)),
    );
}

#[test]
fn unify_of_no_constraints_is_empty() {
    let s = unify(Vec::new()).expect("nothing to solve");
    assert_eq!(s.len(), 0);
}

#[test]
fn unify_rejects_primitive_mismatch() {
    assert!(unify(vec![(Type::Int, Type::Bool)]).is_none());
}

#[test]
fn unify_rejects_direct_occurs_violation() {
    let c = vec![(Type::TVar(0), fun_ty(Type::TVar(0), Type::Int))];
    assert!(unify(c).is_none());
}

#[test]
fn unify_decomposes_function_types() {
    let c = vec![(
        fun_ty(Type::TVar(0), Type::Bool),
        fun_ty(Type::Int, Type::TVar(1)),
    )];
    let s = unify(c).expect("decomposition must solve this");
    assert_eq!(s.get(0), Some(&Type::Int));
    assert_eq!(s.get(1), Some(&Type::Bool));
}

#[test]
fn apply_type_rewrites_recursively() {
    let mut s = Subst::empty();
    s.insert(0, Type::Int);
    let t = fun_ty(Type::TVar(0), fun_ty(Type::Bool, Type::TVar(1)));
    assert_eq!(
        apply_type(&s, &t),
        fun_ty(Type::Int, fun_ty(Type::Bool, Type::TVar(1))),
    );
}

#[test]
fn has_tv_looks_into_structure() {
    let t = fun_ty(Type::TVar(3), fun_ty(Type::Bool, Type::TVar(1)));
    assert!(t.has_tv(3));
    assert!(t.has_tv(1));
    assert!(!t.has_tv(0));
    assert!(!Type::Int.has_tv(0));
}

#[test]
fn conditional_body_constrains_parameter() {
    // fun x { if x { 1 } else { 2 } } : the parameter must be boolean
    let e = fun("x", cond(id("x"), Expr::Int(1), Expr::Int(2)));
    let mut st = State::new();
    let t = typing_expr(&e, &mut st);
    assert_eq!(t, fun_ty(Type::TVar(0), Type::Int));

    let (_, _, s) = infer(&e);
    let s = s.expect("must unify");
    assert_eq!(apply_type(&s, &t), fun_ty(Type::Bool, Type::Int));
}

#[test]
fn nested_applications_chain_through() {
    // (iszero (succ 3))
    let e = app(id("iszero"), app(id("succ"), Expr::Int(3)));
    let mut st = State::new();
    let t = typing_expr(&e, &mut st);
    assert_eq!(t, Type::TVar(1));

    let (ctx, _, s) = infer(&e);
    assert_eq!(ctx.len(), 0);
    let s = s.expect("must unify");
    assert_eq!(apply_type(&s, &t), Type::Bool);
}

#[test]
fn condition_must_be_boolean() {
    let e = cond(Expr::Int(1), Expr::Int(2), Expr::Int(3));
    let (_, _, s) = infer(&e);
    assert!(s.is_none());
}
