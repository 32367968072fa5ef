//! Substitutions: finite mappings from type-variable ids to types, with
//! application to types and constraint lists, and composition.

use vstd::prelude::*;

use crate::types::{s_apply, Type};

verus! {

/// The constraint list: an ordered sequence of pairs of types, each
/// asserting that its two types must be equal.
pub type Constraint = Vec<(Type, Type)>;

/// The mathematical map described by an association list, later entries
/// taking precedence (entries here never share a key, so precedence never
/// actually decides anything).
pub open spec fn map_of(s: Seq<(u64, Type)>) -> Map<u64, Type>
    decreases s.len(),
{
    if s.len() == 0 {
        Map::empty()
    } else {
        map_of(s.drop_last()).insert(s.last().0, s.last().1)
    }
}

/// No two entries share a key.
pub open spec fn uniq_keys(s: Seq<(u64, Type)>) -> bool {
    forall|i: int, j: int| 0 <= i < j < s.len() ==> (#[trigger] s[i]).0 != (#[trigger] s[j]).0
}

/// A finite mapping from type-variable id to type. The occurs check at
/// insertion time (in the unifier) keeps every entry free of its own key.
#[derive(Debug)]
pub struct Subst {
    entries: Vec<(u64, Type)>,
}

impl View for Subst {
    type V = Map<u64, Type>;

    closed spec fn view(&self) -> Map<u64, Type> {
        map_of(self.entries@)
    }
}

/// A key present in the list is in the map, with the value of its last
/// entry; a key of the map comes from some entry.
proof fn lemma_map_of_dom(s: Seq<(u64, Type)>, k: u64)
    ensures
        map_of(s).dom().contains(k) <==> exists|i: int|
            0 <= i < s.len() && (#[trigger] s[i]).0 == k,
    decreases s.len(),
{
    if s.len() > 0 {
        lemma_map_of_dom(s.drop_last(), k);
        if s.last().0 == k {
            assert(s[s.len() - 1].0 == k);
        } else if map_of(s).dom().contains(k) {
            let i = choose|i: int| 0 <= i < s.drop_last().len() && (#[trigger] s.drop_last()[i]).0 == k;
            assert(s[i].0 == k);
        } else {
            assert forall|i: int| 0 <= i < s.len() implies (#[trigger] s[i]).0 != k by {
                if i < s.len() - 1 {
                    assert(s.drop_last()[i] == s[i]);
                }
            }
        }
    }
}

/// With unique keys, the entry at any index gives the map's value at its key.
proof fn lemma_map_of_index(s: Seq<(u64, Type)>, i: int)
    requires
        uniq_keys(s),
        0 <= i < s.len(),
    ensures
        map_of(s).dom().contains(s[i].0),
        map_of(s)[s[i].0] == s[i].1,
    decreases s.len(),
{
    lemma_map_of_dom(s, s[i].0);
    if i == s.len() - 1 {
    } else {
        assert(uniq_keys(s.drop_last())) by {
            assert forall|a: int, b: int| 0 <= a < b < s.drop_last().len() implies (#[trigger] s.drop_last()[a]).0
                != (#[trigger] s.drop_last()[b]).0 by {
                assert(s.drop_last()[a] == s[a]);
                assert(s.drop_last()[b] == s[b]);
            }
        }
        assert(s.drop_last()[i] == s[i]);
        lemma_map_of_index(s.drop_last(), i);
        assert(s[i].0 != s.last().0);
    }
}

impl Subst {
    /// Keys are unique, so lookups are position-independent.
    pub closed spec fn wf(&self) -> bool {
        uniq_keys(self.entries@)
    }

    /// The identity substitution: no entries.
    pub fn empty() -> (r: Subst)
        ensures
            r.wf(),
            r@ == Map::<u64, Type>::empty(),
    {
        Subst { entries: Vec::new() }
    }

    /// The singleton substitution `{v -> t}`.
    pub fn single(v: u64, t: Type) -> (r: Subst)
        ensures
            r.wf(),
            r@ == crate::types::single(v, t),
    {
        let mut entries: Vec<(u64, Type)> = Vec::new();
        entries.push((v, t));
        proof {
            assert(entries@.drop_last() =~= Seq::<(u64, Type)>::empty());
            assert(map_of(entries@.drop_last()) == Map::<u64, Type>::empty());
            assert(map_of(entries@) == Map::<u64, Type>::empty().insert(v, t));
        }
        Subst { entries }
    }

    /// Number of entries.
    pub fn len(&self) -> (r: usize)
        requires
            self.wf(),
        ensures
            r == self@.dom().len(),
    {
        proof {
            lemma_map_of_len(self.entries@);
        }
        self.entries.len()
    }

    /// Look a variable up.
    pub fn get(&self, v: u64) -> (r: Option<&Type>)
        requires
            self.wf(),
        ensures
            match r {
                Some(t) => self@.dom().contains(v) && *t == self@[v],
                None => !self@.dom().contains(v),
            },
    {
        let n = self.entries.len();
        let mut i: usize = 0;
        while i < n
            invariant
                n == self.entries@.len(),
                self.wf(),
                0 <= i <= n,
                forall|j: int| 0 <= j < i ==> (#[trigger] self.entries@[j]).0 != v,
            decreases n - i,
        {
            if self.entries[i].0 == v {
                proof {
                    lemma_map_of_index(self.entries@, i as int);
                }
                return Some(&self.entries[i].1);
            }
            i += 1;
        }
        proof {
            lemma_map_of_dom(self.entries@, v);
        }
        None
    }

    /// Add or overwrite the entry for `v`.
    pub fn insert(&mut self, v: u64, t: Type)
        requires
            old(self).wf(),
        ensures
            final(self).wf(),
            final(self)@ == old(self)@.insert(v, t),
    {
        let n = self.entries.len();
        let mut i: usize = 0;
        while i < n
            invariant
                n == self.entries@.len(),
                self.wf(),
                self.entries@ == old(self).entries@,
                0 <= i <= n,
                forall|j: int| 0 <= j < i ==> (#[trigger] self.entries@[j]).0 != v,
            decreases n - i,
        {
            if self.entries[i].0 == v {
                self.entries[i] = (v, t);
                proof {
                    lemma_map_of_update(old(self).entries@, i as int, (v, t));
                }
                return ;
            }
            i += 1;
        }
        self.entries.push((v, t));
        proof {
            assert(self.entries@.drop_last() =~= old(self).entries@);
            lemma_map_of_dom(old(self).entries@, v);
        }
    }
}

/// With unique keys the map has exactly one key per entry.
proof fn lemma_map_of_len(s: Seq<(u64, Type)>)
    requires
        uniq_keys(s),
    ensures
        map_of(s).dom().finite(),
        map_of(s).dom().len() == s.len(),
    decreases s.len(),
{
    if s.len() > 0 {
        assert(uniq_keys(s.drop_last())) by {
            assert forall|a: int, b: int| 0 <= a < b < s.drop_last().len() implies (#[trigger] s.drop_last()[a]).0
                != (#[trigger] s.drop_last()[b]).0 by {
                assert(s.drop_last()[a] == s[a]);
                assert(s.drop_last()[b] == s[b]);
            }
        }
        lemma_map_of_len(s.drop_last());
        lemma_map_of_dom(s.drop_last(), s.last().0);
        assert forall|i: int| 0 <= i < s.drop_last().len() implies (#[trigger] s.drop_last()[i]).0 != s.last().0 by {
            assert(s.drop_last()[i] == s[i]);
            assert(s[i].0 != s[s.len() - 1].0);
        }
        assert(!map_of(s.drop_last()).dom().contains(s.last().0));
    }
}

/// Overwriting the entry that holds a key rewrites the map at that key.
proof fn lemma_map_of_update(s: Seq<(u64, Type)>, i: int, p: (u64, Type))
    requires
        uniq_keys(s),
        0 <= i < s.len(),
        p.0 == s[i].0,
    ensures
        uniq_keys(s.update(i, p)),
        map_of(s.update(i, p)) == map_of(s).insert(p.0, p.1),
    decreases s.len(),
{
    let su = s.update(i, p);
    assert forall|a: int, b: int| 0 <= a < b < su.len() implies (#[trigger] su[a]).0 != (#[trigger] su[b]).0 by {
        assert(s[a].0 != s[b].0);
    }
    if i == s.len() - 1 {
        assert(su.drop_last() =~= s.drop_last());
        assert(map_of(su) == map_of(s.drop_last()).insert(p.0, p.1));
        assert(map_of(s).insert(p.0, p.1) =~= map_of(s.drop_last()).insert(p.0, p.1));
    } else {
        assert(uniq_keys(s.drop_last())) by {
            assert forall|a: int, b: int| 0 <= a < b < s.drop_last().len() implies (#[trigger] s.drop_last()[a]).0
                != (#[trigger] s.drop_last()[b]).0 by {
                assert(s.drop_last()[a] == s[a]);
                assert(s.drop_last()[b] == s[b]);
            }
        }
        assert(s.drop_last()[i] == s[i]);
        lemma_map_of_update(s.drop_last(), i, p);
        assert(su.drop_last() =~= s.drop_last().update(i, p));
        assert(su.last() == s.last());
        assert(s.last().0 != p.0) by {
            assert(s[i].0 != s[s.len() - 1].0);
        }
        assert(map_of(su) == map_of(s.drop_last()).insert(p.0, p.1).insert(s.last().0, s.last().1));
        assert(map_of(s.drop_last()).insert(p.0, p.1).insert(s.last().0, s.last().1) =~= map_of(
            s.drop_last(),
        ).insert(s.last().0, s.last().1).insert(p.0, p.1));
    }
}

/// Structurally rewrite a type by a substitution: every variable with an
/// entry is replaced (by a clone of) that entry's type.
pub fn apply_type(s: &Subst, t: &Type) -> (r: Type)
    requires
        s.wf(),
    ensures
        r == s_apply(s@, *t),
    decreases t,
{
    match t {
        Type::Bool => Type::Bool,
        Type::Int => Type::Int,
        Type::Fun(e1, e2) => {
            let t1 = apply_type(s, &**e1);
            let t2 = apply_type(s, &**e2);
            Type::Fun(Box::new(t1), Box::new(t2))
        },
        Type::TVar(tv) => match s.get(*tv) {
            Some(ty) => ty.clone(),
            None => Type::TVar(*tv),
        },
    }
}

/// Apply a substitution to both members of every pair of a constraint
/// list, preserving order and length.
pub fn apply_constraint(s: &Subst, c: &Constraint) -> (r: Constraint)
    requires
        s.wf(),
    ensures
        r@.len() == c@.len(),
        forall|i: int|
            0 <= i < c@.len() ==> (#[trigger] r@[i]).0 == s_apply(s@, c@[i].0) && r@[i].1
                == s_apply(s@, c@[i].1),
{
    let n = c.len();
    let mut r: Constraint = Vec::new();
    let mut i: usize = 0;
    while i < n
        invariant
            n == c@.len(),
            s.wf(),
            0 <= i <= n,
            r@.len() == i,
            forall|j: int|
                0 <= j < i ==> (#[trigger] r@[j]).0 == s_apply(s@, c@[j].0) && r@[j].1 == s_apply(
                    s@,
                    c@[j].1,
                ),
        decreases n - i,
    {
        let t1 = apply_type(s, &c[i].0);
        let t2 = apply_type(s, &c[i].1);
        r.push((t1, t2));
        i += 1;
    }
    r
}

/// The composition of two substitutions as a mathematical map: every key
/// of `s2` maps to its value rewritten by `s1`; a key of `s1` alone keeps
/// its value.
pub open spec fn compose_map(s1: Map<u64, Type>, s2: Map<u64, Type>) -> Map<u64, Type> {
    Map::new(
        |k: u64| s1.dom().contains(k) || s2.dom().contains(k),
        |k: u64|
            if s2.dom().contains(k) {
                s_apply(s1, s2[k])
            } else {
                s1[k]
            },
    )
}

/// The law composition is made for: applying `compose_map(s1, s2)` is
/// applying `s2` first and `s1` second.
pub proof fn lemma_compose_apply(s1: Map<u64, Type>, s2: Map<u64, Type>, t: Type)
    ensures
        s_apply(compose_map(s1, s2), t) == s_apply(s1, s_apply(s2, t)),
    decreases t,
{
    match t {
        Type::Fun(a, b) => {
            lemma_compose_apply(s1, s2, *a);
            lemma_compose_apply(s1, s2, *b);
        },
        _ => {},
    }
}

/// Compose two substitutions: the result applies `s2` first, then `s1`.
/// Keys present in both keep the `s2`-derived, rewritten value.
pub fn compose(s1: &Subst, s2: &Subst) -> (r: Subst)
    requires
        s1.wf(),
        s2.wf(),
    ensures
        r.wf(),
        r@ == compose_map(s1@, s2@),
        forall|t: Type| s_apply(r@, t) == s_apply(s1@, s_apply(s2@, t)),
{
    let mut r = Subst::empty();
    // first the entries of s1, unchanged
    let n1 = s1.entries.len();
    let mut j: usize = 0;
    while j < n1
        invariant
            n1 == s1.entries@.len(),
            s1.wf(),
            r.wf(),
            0 <= j <= n1,
            r@ == map_of(s1.entries@.take(j as int)),
        decreases n1 - j,
    {
        let e = clone_entry(&s1.entries[j]);
        r.insert(e.0, e.1);
        proof {
            assert(s1.entries@.take(j as int + 1).drop_last() =~= s1.entries@.take(j as int));
            assert(s1.entries@.take(j as int + 1).last() == s1.entries@[j as int]);
        }
        j += 1;
    }
    proof {
        assert(s1.entries@.take(n1 as int) =~= s1.entries@);
    }
    // then the entries of s2, rewritten by s1; they take precedence
    let n2 = s2.entries.len();
    let mut i: usize = 0;
    while i < n2
        invariant
            n1 == s1.entries@.len(),
            n2 == s2.entries@.len(),
            s1.wf(),
            s2.wf(),
            r.wf(),
            0 <= i <= n2,
            forall|k: u64|
                #[trigger] r@.dom().contains(k) <==> (s1@.dom().contains(k) || map_of(
                    s2.entries@.take(i as int),
                ).dom().contains(k)),
            forall|k: u64|
                #[trigger] r@.dom().contains(k) ==> r@[k] == (if map_of(
                    s2.entries@.take(i as int),
                ).dom().contains(k) {
                    s_apply(s1@, map_of(s2.entries@.take(i as int))[k])
                } else {
                    s1@[k]
                }),
        decreases n2 - i,
    {
        let e = clone_entry(&s2.entries[i]);
        let t = apply_type(s1, &e.1);
        r.insert(e.0, t);
        proof {
            assert(s2.entries@.take(i as int + 1).drop_last() =~= s2.entries@.take(i as int));
            assert(s2.entries@.take(i as int + 1).last() == s2.entries@[i as int]);
            assert(map_of(s2.entries@.take(i as int + 1)) == map_of(s2.entries@.take(i as int)).insert(
                s2.entries@[i as int].0,
                s2.entries@[i as int].1,
            ));
        }
        i += 1;
    }
    proof {
        assert(s2.entries@.take(n2 as int) =~= s2.entries@);
        assert(r@ =~= compose_map(s1@, s2@));
        assert forall|t: Type| s_apply(r@, t) == s_apply(s1@, s_apply(s2@, t)) by {
            lemma_compose_apply(s1@, s2@, t);
        }
    }
    r
}

/// A structural copy of one entry.
fn clone_entry(e: &(u64, Type)) -> (r: (u64, Type))
    ensures
        r == *e,
{
    (e.0, e.1.clone())
}

/// A structural copy of a constraint list.
pub fn clone_constraint(c: &Constraint) -> (r: Constraint)
    ensures
        r@ == c@,
{
    let n = c.len();
    let mut r: Constraint = Vec::new();
    let mut i: usize = 0;
    while i < n
        invariant
            n == c@.len(),
            0 <= i <= n,
            r@.len() == i,
            forall|j: int| 0 <= j < i ==> #[trigger] r@[j] == c@[j],
        decreases n - i,
    {
        let t1 = c[i].0.clone();
        let t2 = c[i].1.clone();
        r.push((t1, t2));
        i += 1;
    }
    proof {
        assert(r@ =~= c@);
    }
    r
}

} // verus!
