//! Unification: solve a constraint list, producing a substitution under
//! which every constrained pair becomes structurally equal, or nothing
//! when the constraints have no solution.

use vstd::prelude::*;
use vstd::set_lib::lemma_len_subset;

use crate::subst::{apply_constraint, compose, compose_map, Constraint, Subst};
use crate::types::{
    lemma_apply_absent, lemma_apply_single_vars, lemma_tvars_finite, s_apply, single, tsize, tvars,
    ty_eq, Type,
};

verus! {

/// `m` solves a constraint list when applying it makes every pair equal.
pub open spec fn solves(m: Map<u64, Type>, c: Seq<(Type, Type)>) -> bool {
    forall|i: int| #![trigger c[i]] 0 <= i < c.len() ==> s_apply(m, c[i].0) == s_apply(m, c[i].1)
}

/// No variable of `t` is in `d`.
pub open spec fn no_vars_of(d: Set<u64>, t: Type) -> bool {
    forall|j: u64| #![trigger d.contains(j)] #![trigger tvars(t).contains(j)]
        d.contains(j) ==> !tvars(t).contains(j)
}

/// No variable of `d` occurs anywhere in the constraint list.
pub open spec fn sep(d: Set<u64>, c: Seq<(Type, Type)>) -> bool {
    forall|i: int| #![trigger c[i]]
        0 <= i < c.len() ==> no_vars_of(d, c[i].0) && no_vars_of(d, c[i].1)
}

/// No key of the substitution occurs in any of its values.
pub open spec fn range_ok(m: Map<u64, Type>) -> bool {
    forall|k: u64| #[trigger] m.dom().contains(k) ==> no_vars_of(m.dom(), m[k])
}

/// Applying the substitution to any of its own values is a no-op: no
/// unresolved chains remain.
pub open spec fn idempotent(m: Map<u64, Type>) -> bool {
    forall|k: u64| #[trigger] m.dom().contains(k) ==> s_apply(m, m[k]) == m[k]
}

/// The unifier's running claim: any solution of the remaining work,
/// composed with what is already decided, solves the original list.
pub open spec fn unify_inv(orig: Seq<(Type, Type)>, work: Seq<(Type, Type)>, acc: Map<u64, Type>) -> bool {
    forall|m: Map<u64, Type>| #[trigger] solves(m, work) ==> solves(compose_map(m, acc), orig)
}

/// All variable ids occurring in a constraint list.
pub open spec fn cvars(c: Seq<(Type, Type)>) -> Set<u64>
    decreases c.len(),
{
    if c.len() == 0 {
        Set::empty()
    } else {
        tvars(c[0].0).union(tvars(c[0].1)).union(cvars(c.drop_first()))
    }
}

/// Total size of the types in a constraint list.
pub open spec fn csize(c: Seq<(Type, Type)>) -> nat
    decreases c.len(),
{
    if c.len() == 0 {
        0
    } else {
        tsize(c[0].0) + tsize(c[0].1) + csize(c.drop_first())
    }
}

/// Every type has at least one node.
proof fn lemma_tsize_pos(t: Type)
    ensures
        tsize(t) >= 1,
{
    match t {
        Type::Fun(_, _) => {},
        Type::Bool => {},
        Type::Int => {},
        Type::TVar(_) => {},
    }
}

/// A variable of any pair of the list is in `cvars`.
proof fn lemma_cvars_elem(c: Seq<(Type, Type)>, i: int, k: u64)
    requires
        0 <= i < c.len(),
        tvars(c[i].0).contains(k) || tvars(c[i].1).contains(k),
    ensures
        cvars(c).contains(k),
    decreases c.len(),
{
    if i > 0 {
        assert(c.drop_first()[i - 1] == c[i]);
        lemma_cvars_elem(c.drop_first(), i - 1, k);
    }
}

/// A variable of `cvars` comes from some pair of the list.
proof fn lemma_cvars_origin(c: Seq<(Type, Type)>, k: u64)
    requires
        cvars(c).contains(k),
    ensures
        exists|i: int| #![trigger c[i]]
            0 <= i < c.len() && (tvars(c[i].0).contains(k) || tvars(c[i].1).contains(k)),
    decreases c.len(),
{
    if tvars(c[0].0).contains(k) || tvars(c[0].1).contains(k) {
    } else {
        lemma_cvars_origin(c.drop_first(), k);
        let i = choose|i: int| #![trigger c.drop_first()[i]]
            0 <= i < c.drop_first().len() && (tvars(c.drop_first()[i].0).contains(k) || tvars(
                c.drop_first()[i].1,
            ).contains(k));
        assert(c[i + 1] == c.drop_first()[i]);
    }
}

/// The variable set of a constraint list is finite.
proof fn lemma_cvars_finite(c: Seq<(Type, Type)>)
    ensures
        cvars(c).finite(),
    decreases c.len(),
{
    if c.len() > 0 {
        lemma_tvars_finite(c[0].0);
        lemma_tvars_finite(c[0].1);
        lemma_cvars_finite(c.drop_first());
    }
}

/// Re-associating a three-way composition does not change what applying
/// it does.
proof fn lemma_reassoc(m: Map<u64, Type>, b: Map<u64, Type>, a: Map<u64, Type>, t: Type)
    ensures
        s_apply(compose_map(compose_map(m, b), a), t) == s_apply(
            compose_map(m, compose_map(b, a)),
            t,
        ),
{
    crate::subst::lemma_compose_apply(compose_map(m, b), a, t);
    crate::subst::lemma_compose_apply(m, b, s_apply(a, t));
    crate::subst::lemma_compose_apply(m, compose_map(b, a), t);
    crate::subst::lemma_compose_apply(b, a, t);
}

/// The first pair binds `v` to `t2` (either way round).
spec fn binds_first(w0: Seq<(Type, Type)>, v: u64, t2: Type) -> bool {
    w0.len() > 0 && (w0[0] == (Type::TVar(v), t2) || w0[0] == (t2, Type::TVar(v)))
}

/// The rewritten remainder of the work list.
spec fn rewritten_rest(w0: Seq<(Type, Type)>, wn: Seq<(Type, Type)>, v: u64, t2: Type) -> bool {
    wn.len() == w0.len() - 1 && forall|i: int| #![trigger wn[i]]
        0 <= i < wn.len() ==> wn[i].0 == s_apply(single(v, t2), w0[i + 1].0) && wn[i].1 == s_apply(
            single(v, t2),
            w0[i + 1].1,
        )
}

/// Binding a variable that passes the occurs check preserves the
/// unifier's running claim.
proof fn lemma_bind_inv(
    orig: Seq<(Type, Type)>,
    w0: Seq<(Type, Type)>,
    wn: Seq<(Type, Type)>,
    d0: Map<u64, Type>,
    v: u64,
    t2: Type,
)
    requires
        binds_first(w0, v, t2),
        !tvars(t2).contains(v),
        rewritten_rest(w0, wn, v, t2),
        unify_inv(orig, w0, d0),
    ensures
        unify_inv(orig, wn, compose_map(single(v, t2), d0)),
{
    let b = single(v, t2);
    assert forall|m: Map<u64, Type>| #[trigger] solves(m, wn) implies solves(
        compose_map(m, compose_map(b, d0)),
        orig,
    ) by {
        let mb = compose_map(m, b);
        assert(solves(mb, w0)) by {
            assert forall|i: int| #![trigger w0[i]] 0 <= i < w0.len() implies s_apply(mb, w0[i].0)
                == s_apply(mb, w0[i].1) by {
                crate::subst::lemma_compose_apply(m, b, w0[i].0);
                crate::subst::lemma_compose_apply(m, b, w0[i].1);
                if i == 0 {
                    assert(s_apply(b, Type::TVar(v)) == t2);
                    assert(s_apply(b, t2) == t2) by {
                        lemma_apply_absent(b, t2);
                    }
                } else {
                    assert(wn[i - 1].0 == s_apply(b, w0[i].0));
                    assert(s_apply(m, wn[i - 1].0) == s_apply(m, wn[i - 1].1));
                }
            }
        }
        assert(solves(compose_map(mb, d0), orig));
        assert forall|i: int| #![trigger orig[i]] 0 <= i < orig.len() implies s_apply(
            compose_map(m, compose_map(b, d0)),
            orig[i].0,
        ) == s_apply(compose_map(m, compose_map(b, d0)), orig[i].1) by {
            lemma_reassoc(m, b, d0, orig[i].0);
            lemma_reassoc(m, b, d0, orig[i].1);
            assert(s_apply(compose_map(mb, d0), orig[i].0) == s_apply(
                compose_map(mb, d0),
                orig[i].1,
            ));
        }
    }
}

/// Binding preserves the separation invariants: the enlarged domain stays
/// out of both the new values and the rewritten work.
proof fn lemma_bind_sep(
    w0: Seq<(Type, Type)>,
    wn: Seq<(Type, Type)>,
    d0: Map<u64, Type>,
    v: u64,
    t2: Type,
)
    requires
        binds_first(w0, v, t2),
        !tvars(t2).contains(v),
        rewritten_rest(w0, wn, v, t2),
        range_ok(d0),
        sep(d0.dom(), w0),
    ensures
        range_ok(compose_map(single(v, t2), d0)),
        sep(compose_map(single(v, t2), d0).dom(), wn),
        !d0.dom().contains(v),
    decreases 0int,
{
    let b = single(v, t2);
    let nd = compose_map(b, d0);
    assert(tvars(Type::TVar(v)).contains(v));
    assert(!d0.dom().contains(v));
    assert(no_vars_of(d0.dom(), t2));
    assert(nd.dom() =~= d0.dom().insert(v));
    assert forall|k: u64| #[trigger] nd.dom().contains(k) implies no_vars_of(nd.dom(), nd[k]) by {
        if d0.dom().contains(k) {
            assert(nd[k] == s_apply(b, d0[k]));
            lemma_apply_single_vars(v, t2, d0[k]);
            assert forall|j: u64| nd.dom().contains(j) implies !tvars(nd[k]).contains(j) by {
                if tvars(nd[k]).contains(j) {
                    assert((tvars(d0[k]).contains(j) && j != v) || tvars(t2).contains(j));
                    assert(no_vars_of(d0.dom(), d0[k]));
                }
            }
        } else {
            assert(k == v);
            assert(nd[k] == t2);
            assert forall|j: u64| nd.dom().contains(j) implies !tvars(nd[k]).contains(j) by {
                if tvars(t2).contains(j) {
                    assert(j != v);
                    assert(!d0.dom().contains(j));
                }
            }
        }
    }
    assert forall|i: int| #![trigger wn[i]] 0 <= i < wn.len() implies no_vars_of(nd.dom(), wn[i].0)
        && no_vars_of(nd.dom(), wn[i].1) by {
        lemma_apply_single_vars(v, t2, w0[i + 1].0);
        lemma_apply_single_vars(v, t2, w0[i + 1].1);
        assert(no_vars_of(d0.dom(), w0[i + 1].0) && no_vars_of(d0.dom(), w0[i + 1].1));
        assert forall|j: u64| nd.dom().contains(j) implies !tvars(wn[i].0).contains(j) by {
            if tvars(wn[i].0).contains(j) {
                assert((tvars(w0[i + 1].0).contains(j) && j != v) || tvars(t2).contains(j));
            }
        }
        assert forall|j: u64| nd.dom().contains(j) implies !tvars(wn[i].1).contains(j) by {
            if tvars(wn[i].1).contains(j) {
                assert((tvars(w0[i + 1].1).contains(j) && j != v) || tvars(t2).contains(j));
            }
        }
    }
}

/// A substitution that already equates `v` and `t2` is unchanged, under
/// itself, by first binding `v` to `t2`.
proof fn lemma_solver_absorbs(m: Map<u64, Type>, v: u64, t2: Type, u: Type)
    requires
        s_apply(m, Type::TVar(v)) == s_apply(m, t2),
    ensures
        s_apply(m, s_apply(single(v, t2), u)) == s_apply(m, u),
    decreases u,
{
    match u {
        Type::Fun(a, b) => {
            lemma_solver_absorbs(m, v, t2, *a);
            lemma_solver_absorbs(m, v, t2, *b);
        },
        _ => {},
    }
}

/// A solver of the old work list solves the rewritten remainder after a
/// binding step.
proof fn lemma_bind_solvable(
    w0: Seq<(Type, Type)>,
    wn: Seq<(Type, Type)>,
    v: u64,
    t2: Type,
    m: Map<u64, Type>,
)
    requires
        binds_first(w0, v, t2),
        rewritten_rest(w0, wn, v, t2),
        solves(m, w0),
    ensures
        solves(m, wn),
{
    assert(s_apply(m, w0[0].0) == s_apply(m, w0[0].1));
    assert forall|i: int| #![trigger wn[i]] 0 <= i < wn.len() implies s_apply(m, wn[i].0)
        == s_apply(m, wn[i].1) by {
        lemma_solver_absorbs(m, v, t2, w0[i + 1].0);
        lemma_solver_absorbs(m, v, t2, w0[i + 1].1);
        assert(s_apply(m, w0[i + 1].0) == s_apply(m, w0[i + 1].1));
    }
}

/// No substitution can equate a variable with a bigger type that contains
/// it: the images' sizes differ.
proof fn lemma_occurs_unsolvable(m: Map<u64, Type>, v: u64, t: Type)
    requires
        tvars(t).contains(v),
        t != Type::TVar(v),
    ensures
        tsize(s_apply(m, t)) > tsize(s_apply(m, Type::TVar(v))),
    decreases t,
{
    match t {
        Type::Fun(a, b) => {
            if *a == Type::TVar(v) {
            } else if tvars(*a).contains(v) {
                lemma_occurs_unsolvable(m, v, *a);
            }
            if *b == Type::TVar(v) {
            } else if tvars(*b).contains(v) {
                lemma_occurs_unsolvable(m, v, *b);
            }
        },
        _ => {},
    }
}

/// No substitution can equate two distinct types that are both rigid at
/// the root (no variable, and not both functions).
proof fn lemma_rigid_mismatch(m: Map<u64, Type>, t1: Type, t2: Type)
    requires
        !(t1 is TVar),
        !(t2 is TVar),
        !(t1 is Fun && t2 is Fun),
        t1 != t2,
    ensures
        s_apply(m, t1) != s_apply(m, t2),
{
    match t1 {
        Type::Fun(a, b) => {
            assert(s_apply(m, t1) == Type::Fun(
                Box::new(s_apply(m, *a)),
                Box::new(s_apply(m, *b)),
            ));
        },
        _ => {},
    }
    match t2 {
        Type::Fun(a, b) => {
            assert(s_apply(m, t2) == Type::Fun(
                Box::new(s_apply(m, *a)),
                Box::new(s_apply(m, *b)),
            ));
        },
        _ => {},
    }
}

/// Binding strictly shrinks the set of variables left in the work list.
proof fn lemma_bind_measure(w0: Seq<(Type, Type)>, wn: Seq<(Type, Type)>, v: u64, t2: Type)
    requires
        binds_first(w0, v, t2),
        !tvars(t2).contains(v),
        rewritten_rest(w0, wn, v, t2),
    ensures
        cvars(wn).finite(),
        cvars(w0).finite(),
        cvars(wn).len() < cvars(w0).len(),
{
    lemma_cvars_finite(w0);
    lemma_cvars_finite(wn);
    assert(tvars(Type::TVar(v)).contains(v));
    lemma_cvars_elem(w0, 0, v);
    assert forall|k: u64| cvars(wn).contains(k) implies cvars(w0).remove(v).contains(k) by {
        lemma_cvars_origin(wn, k);
        let i = choose|i: int| #![trigger wn[i]]
            0 <= i < wn.len() && (tvars(wn[i].0).contains(k) || tvars(wn[i].1).contains(k));
        lemma_apply_single_vars(v, t2, w0[i + 1].0);
        lemma_apply_single_vars(v, t2, w0[i + 1].1);
        if tvars(t2).contains(k) {
            lemma_cvars_elem(w0, 0, k);
            assert(k != v);
        } else {
            assert(tvars(w0[i + 1].0).contains(k) || tvars(w0[i + 1].1).contains(k));
            assert(k != v);
            lemma_cvars_elem(w0, i + 1, k);
        }
    }
    lemma_len_subset(cvars(wn), cvars(w0).remove(v));
    assert(cvars(w0).remove(v).len() == cvars(w0).len() - 1);
}

/// Unify a constraint list: either a substitution that solves every
/// constraint — with no unresolved chains left in it — or `None` when two
/// constrained types cannot be made equal (a structural mismatch, or a
/// variable that would have to contain itself).
pub fn unify(c: Constraint) -> (r: Option<Subst>)
    ensures
        c@.len() == 0 ==> match r {
            Some(s) => s@ == Map::<u64, Type>::empty(),
            None => false,
        },
        match r {
            Some(s) => s.wf() && solves(s@, c@) && idempotent(s@),
            None => true,
        },
        r is None ==> forall|m: Map<u64, Type>| !solves(m, c@),
{
    let ghost orig = c@;
    let mut work = c;
    let mut acc = Subst::empty();
    proof {
        assert forall|m: Map<u64, Type>| #[trigger] solves(m, work@) implies solves(
            compose_map(m, acc@),
            orig,
        ) by {
            assert forall|i: int| #![trigger orig[i]] 0 <= i < orig.len() implies s_apply(
                compose_map(m, acc@),
                orig[i].0,
            ) == s_apply(compose_map(m, acc@), orig[i].1) by {
                crate::subst::lemma_compose_apply(m, acc@, orig[i].0);
                crate::subst::lemma_compose_apply(m, acc@, orig[i].1);
                lemma_apply_absent(acc@, orig[i].0);
                lemma_apply_absent(acc@, orig[i].1);
                assert(s_apply(m, work@[i].0) == s_apply(m, work@[i].1));
            }
        }
    }
    while work.len() > 0
        invariant
            orig == c@,
            acc.wf(),
            unify_inv(orig, work@, acc@),
            forall|m: Map<u64, Type>| #[trigger] solves(m, orig) ==> solves(m, work@),
            range_ok(acc@),
            sep(acc@.dom(), work@),
            orig.len() == 0 ==> (work@.len() == 0 && acc@ == Map::<u64, Type>::empty()),
        decreases cvars(work@).len(), csize(work@),
    {
        let ghost w0 = work@;
        let ghost d0 = acc@;
        let pair = work.remove(0);
        let ghost gpair = pair;
        proof {
            w0.remove_ensures(0);
            assert(work@ =~= w0.drop_first());
            assert(w0[0] == gpair);
        }
        if ty_eq(&pair.0, &pair.1) {
            proof {
                assert forall|m: Map<u64, Type>| #[trigger] solves(m, work@) implies solves(
                    compose_map(m, acc@),
                    orig,
                ) by {
                    assert(solves(m, w0)) by {
                        assert forall|i: int| #![trigger w0[i]] 0 <= i < w0.len() implies s_apply(
                            m,
                            w0[i].0,
                        ) == s_apply(m, w0[i].1) by {
                            if i > 0 {
                                assert(work@[i - 1] == w0[i]);
                            }
                        }
                    }
                }
                assert forall|i: int| #![trigger work@[i]] 0 <= i < work@.len() implies no_vars_of(
                    acc@.dom(),
                    work@[i].0,
                ) && no_vars_of(acc@.dom(), work@[i].1) by {
                    assert(work@[i] == w0[i + 1]);
                }
                assert forall|m: Map<u64, Type>| #[trigger] solves(m, orig) implies solves(
                    m,
                    work@,
                ) by {
                    assert(solves(m, w0));
                    assert forall|i: int| #![trigger work@[i]] 0 <= i < work@.len() implies s_apply(
                        m,
                        work@[i].0,
                    ) == s_apply(m, work@[i].1) by {
                        assert(work@[i] == w0[i + 1]);
                        assert(s_apply(m, w0[i + 1].0) == s_apply(m, w0[i + 1].1));
                    }
                }
                // the measure shrinks: same or fewer variables, smaller size
                lemma_cvars_finite(w0);
                lemma_cvars_finite(work@);
                assert forall|k: u64| cvars(work@).contains(k) implies cvars(w0).contains(k) by {
                    lemma_cvars_origin(work@, k);
                    let i = choose|i: int| #![trigger work@[i]]
                        0 <= i < work@.len() && (tvars(work@[i].0).contains(k) || tvars(
                            work@[i].1,
                        ).contains(k));
                    assert(work@[i] == w0[i + 1]);
                    lemma_cvars_elem(w0, i + 1, k);
                }
                lemma_len_subset(cvars(work@), cvars(w0));
                lemma_tsize_pos(gpair.0);
                lemma_tsize_pos(gpair.1);
                assert(csize(w0) == tsize(w0[0].0) + tsize(w0[0].1) + csize(work@));
            }
        } else {
            match pair {
                (Type::TVar(v), t2) => {
                    if !t2.has_tv(v) {
                        let ghost gt2 = t2;
                        let b = Subst::single(v, t2);
                        work = apply_constraint(&b, &work);
                        acc = compose(&b, &acc);
                        proof {
                            lemma_bind_inv(orig, w0, work@, d0, v, gt2);
                            lemma_bind_sep(w0, work@, d0, v, gt2);
                            lemma_bind_measure(w0, work@, v, gt2);
                            assert forall|m: Map<u64, Type>| #[trigger] solves(m, orig) implies
                                solves(m, work@) by {
                                assert(solves(m, w0));
                                lemma_bind_solvable(w0, work@, v, gt2, m);
                            }
                        }
                    } else {
                        proof {
                            assert forall|m: Map<u64, Type>| !solves(m, orig) by {
                                if solves(m, orig) {
                                    assert(solves(m, w0));
                                    assert(s_apply(m, w0[0].0) == s_apply(m, w0[0].1));
                                    lemma_occurs_unsolvable(m, v, t2);
                                }
                            }
                        }
                        return None;
                    }
                },
                (t1, Type::TVar(v)) => {
                    if !t1.has_tv(v) {
                        let ghost gt1 = t1;
                        let b = Subst::single(v, t1);
                        work = apply_constraint(&b, &work);
                        acc = compose(&b, &acc);
                        proof {
                            lemma_bind_inv(orig, w0, work@, d0, v, gt1);
                            lemma_bind_sep(w0, work@, d0, v, gt1);
                            lemma_bind_measure(w0, work@, v, gt1);
                            assert forall|m: Map<u64, Type>| #[trigger] solves(m, orig) implies
                                solves(m, work@) by {
                                assert(solves(m, w0));
                                lemma_bind_solvable(w0, work@, v, gt1, m);
                            }
                        }
                    } else {
                        proof {
                            assert forall|m: Map<u64, Type>| !solves(m, orig) by {
                                if solves(m, orig) {
                                    assert(solves(m, w0));
                                    assert(s_apply(m, w0[0].0) == s_apply(m, w0[0].1));
                                    lemma_occurs_unsolvable(m, v, t1);
                                }
                            }
                        }
                        return None;
                    }
                },
                (Type::Fun(a1, b1), Type::Fun(a2, b2)) => {
                    let ghost pa = (*a1, *a2);
                    let ghost pb = (*b1, *b2);
                    let ghost rest = work@;
                    work.insert(0, (*b1, *b2));
                    work.insert(0, (*a1, *a2));
                    proof {
                        let wn = work@;
                        rest.insert_ensures(0, pb);
                        rest.insert(0, pb).insert_ensures(0, pa);
                        assert(wn[0] == pa && wn[1] == pb);
                        assert(wn.len() == rest.len() + 2);
                        assert(w0[0].0 == Type::Fun(Box::new(pa.0), Box::new(pb.0)));
                        assert(w0[0].1 == Type::Fun(Box::new(pa.1), Box::new(pb.1)));
                        assert(forall|i: int| #![trigger wn[i]]
                            2 <= i < wn.len() ==> wn[i] == rest[i - 2]);
                        // the running claim survives decomposition
                        assert forall|m: Map<u64, Type>| #[trigger] solves(m, wn) implies solves(
                            compose_map(m, acc@),
                            orig,
                        ) by {
                            assert(solves(m, w0)) by {
                                assert forall|i: int| #![trigger w0[i]] 0 <= i < w0.len() implies
                                    s_apply(m, w0[i].0) == s_apply(m, w0[i].1) by {
                                    if i == 0 {
                                        assert(s_apply(m, wn[0].0) == s_apply(m, wn[0].1));
                                        assert(s_apply(m, wn[1].0) == s_apply(m, wn[1].1));
                                        assert(w0[0].0 == Type::Fun(
                                            Box::new(pa.0),
                                            Box::new(pb.0),
                                        ));
                                        assert(w0[0].1 == Type::Fun(
                                            Box::new(pa.1),
                                            Box::new(pb.1),
                                        ));
                                    } else {
                                        assert(wn[i + 1] == rest[i - 1]);
                                        assert(rest[i - 1] == w0[i]);
                                        assert(s_apply(m, wn[i + 1].0) == s_apply(m, wn[i + 1].1));
                                    }
                                }
                            }
                        }
                        // so does solvability: a solver of the function pair
                        // solves both component pairs
                        assert forall|m: Map<u64, Type>| #[trigger] solves(m, orig) implies solves(
                            m,
                            wn,
                        ) by {
                            assert(solves(m, w0));
                            assert(s_apply(m, w0[0].0) == s_apply(m, w0[0].1));
                            assert(s_apply(m, w0[0].0) == Type::Fun(
                                Box::new(s_apply(m, pa.0)),
                                Box::new(s_apply(m, pb.0)),
                            ));
                            assert(s_apply(m, w0[0].1) == Type::Fun(
                                Box::new(s_apply(m, pa.1)),
                                Box::new(s_apply(m, pb.1)),
                            ));
                            assert forall|i: int| #![trigger wn[i]] 0 <= i < wn.len() implies
                                s_apply(m, wn[i].0) == s_apply(m, wn[i].1) by {
                                if i >= 2 {
                                    assert(wn[i] == w0[i - 1]);
                                    assert(s_apply(m, w0[i - 1].0) == s_apply(m, w0[i - 1].1));
                                }
                            }
                        }
                        // separation survives decomposition
                        assert forall|i: int| #![trigger wn[i]] 0 <= i < wn.len() implies
                            no_vars_of(acc@.dom(), wn[i].0) && no_vars_of(acc@.dom(), wn[i].1) by {
                            if i < 2 {
                                assert(no_vars_of(acc@.dom(), w0[0].0) && no_vars_of(
                                    acc@.dom(),
                                    w0[0].1,
                                ));
                                assert(tvars(w0[0].0) == tvars(pa.0).union(tvars(pb.0)));
                                assert(tvars(w0[0].1) == tvars(pa.1).union(tvars(pb.1)));
                            } else {
                                assert(wn[i] == rest[i - 2]);
                                assert(rest[i - 2] == w0[i - 1]);
                            }
                        }
                        // the measure shrinks: same variables, two nodes fewer
                        lemma_cvars_finite(w0);
                        lemma_cvars_finite(wn);
                        assert forall|k: u64| cvars(wn).contains(k) implies cvars(w0).contains(
                            k,
                        ) by {
                            lemma_cvars_origin(wn, k);
                            let i = choose|i: int| #![trigger wn[i]]
                                0 <= i < wn.len() && (tvars(wn[i].0).contains(k) || tvars(
                                    wn[i].1,
                                ).contains(k));
                            if i < 2 {
                                lemma_cvars_elem(w0, 0, k);
                            } else {
                                lemma_cvars_elem(w0, i - 1, k);
                            }
                        }
                        lemma_len_subset(cvars(wn), cvars(w0));
                        let mid = rest.insert(0, pb);
                        assert(wn.drop_first() =~= mid);
                        assert(mid.drop_first() =~= rest);
                        assert(mid[0] == pb);
                        assert(csize(mid) == tsize(pb.0) + tsize(pb.1) + csize(rest));
                        assert(csize(wn) == tsize(pa.0) + tsize(pa.1) + csize(mid));
                        assert(csize(w0) == tsize(w0[0].0) + tsize(w0[0].1) + csize(rest));
                        assert(tsize(w0[0].0) == 1 + tsize(pa.0) + tsize(pb.0));
                        assert(tsize(w0[0].1) == 1 + tsize(pa.1) + tsize(pb.1));
                    }
                },
                _ => {
                    proof {
                        assert forall|m: Map<u64, Type>| !solves(m, orig) by {
                            if solves(m, orig) {
                                assert(solves(m, w0));
                                assert(s_apply(m, w0[0].0) == s_apply(m, w0[0].1));
                                lemma_rigid_mismatch(m, gpair.0, gpair.1);
                            }
                        }
                    }
                    return None;
                },
            }
        }
    }
    proof {
        assert(solves(Map::<u64, Type>::empty(), work@));
        assert(solves(compose_map(Map::<u64, Type>::empty(), acc@), orig));
        assert forall|i: int| #![trigger orig[i]] 0 <= i < orig.len() implies s_apply(
            acc@,
            orig[i].0,
        ) == s_apply(acc@, orig[i].1) by {
            crate::subst::lemma_compose_apply(Map::<u64, Type>::empty(), acc@, orig[i].0);
            crate::subst::lemma_compose_apply(Map::<u64, Type>::empty(), acc@, orig[i].1);
            lemma_apply_absent(Map::<u64, Type>::empty(), s_apply(acc@, orig[i].0));
            lemma_apply_absent(Map::<u64, Type>::empty(), s_apply(acc@, orig[i].1));
            assert(s_apply(compose_map(Map::<u64, Type>::empty(), acc@), orig[i].0) == s_apply(
                compose_map(Map::<u64, Type>::empty(), acc@),
                orig[i].1,
            ));
        }
        assert forall|k: u64| #[trigger] acc@.dom().contains(k) implies s_apply(acc@, acc@[k])
            == acc@[k] by {
            lemma_apply_absent(acc@, acc@[k]);
        }
    }
    Some(acc)
}

} // verus!
