//! The typing context: a mapping from identifier name to type. It grows
//! during constraint generation; a function parameter overwrites an
//! earlier entry of the same name (there is no scope restoration).

use vstd::prelude::*;

use crate::types::Type;

verus! {

/// The mathematical map described by an association list, later entries
/// taking precedence.
pub open spec fn ctx_map_of(s: Seq<(String, Type)>) -> Map<Seq<char>, Type>
    decreases s.len(),
{
    if s.len() == 0 {
        Map::empty()
    } else {
        ctx_map_of(s.drop_last()).insert(s.last().0@, s.last().1)
    }
}

/// No two entries name the same identifier.
pub open spec fn ctx_uniq_keys(s: Seq<(String, Type)>) -> bool {
    forall|i: int, j: int| 0 <= i < j < s.len() ==> (#[trigger] s[i]).0@ != (#[trigger] s[j]).0@
}

/// A mapping from identifier name to type, with one entry per name.
#[derive(Debug)]
pub struct Context {
    entries: Vec<(String, Type)>,
}

impl View for Context {
    type V = Map<Seq<char>, Type>;

    closed spec fn view(&self) -> Map<Seq<char>, Type> {
        ctx_map_of(self.entries@)
    }
}

/// A key of the map comes from some entry, and conversely.
proof fn lemma_ctx_map_of_dom(s: Seq<(String, Type)>, k: Seq<char>)
    ensures
        ctx_map_of(s).dom().contains(k) <==> exists|i: int|
            0 <= i < s.len() && (#[trigger] s[i]).0@ == k,
    decreases s.len(),
{
    if s.len() > 0 {
        lemma_ctx_map_of_dom(s.drop_last(), k);
        if s.last().0@ == k {
            assert(s[s.len() - 1].0@ == k);
        } else if ctx_map_of(s).dom().contains(k) {
            let i = choose|i: int|
                0 <= i < s.drop_last().len() && (#[trigger] s.drop_last()[i]).0@ == k;
            assert(s[i].0@ == k);
        } else {
            assert forall|i: int| 0 <= i < s.len() implies (#[trigger] s[i]).0@ != k by {
                if i < s.len() - 1 {
                    assert(s.drop_last()[i] == s[i]);
                }
            }
        }
    }
}

/// With unique keys, the entry at any index gives the map's value at its key.
proof fn lemma_ctx_map_of_index(s: Seq<(String, Type)>, i: int)
    requires
        ctx_uniq_keys(s),
        0 <= i < s.len(),
    ensures
        ctx_map_of(s).dom().contains(s[i].0@),
        ctx_map_of(s)[s[i].0@] == s[i].1,
    decreases s.len(),
{
    lemma_ctx_map_of_dom(s, s[i].0@);
    if i == s.len() - 1 {
    } else {
        assert(ctx_uniq_keys(s.drop_last())) by {
            assert forall|a: int, b: int|
                0 <= a < b < s.drop_last().len() implies (#[trigger] s.drop_last()[a]).0@
                != (#[trigger] s.drop_last()[b]).0@ by {
                assert(s.drop_last()[a] == s[a]);
                assert(s.drop_last()[b] == s[b]);
            }
        }
        assert(s.drop_last()[i] == s[i]);
        lemma_ctx_map_of_index(s.drop_last(), i);
        assert(s[i].0@ != s.last().0@);
    }
}

/// With unique keys the map has exactly one key per entry.
proof fn lemma_ctx_map_of_len(s: Seq<(String, Type)>)
    requires
        ctx_uniq_keys(s),
    ensures
        ctx_map_of(s).dom().finite(),
        ctx_map_of(s).dom().len() == s.len(),
    decreases s.len(),
{
    if s.len() > 0 {
        assert(ctx_uniq_keys(s.drop_last())) by {
            assert forall|a: int, b: int|
                0 <= a < b < s.drop_last().len() implies (#[trigger] s.drop_last()[a]).0@
                != (#[trigger] s.drop_last()[b]).0@ by {
                assert(s.drop_last()[a] == s[a]);
                assert(s.drop_last()[b] == s[b]);
            }
        }
        lemma_ctx_map_of_len(s.drop_last());
        lemma_ctx_map_of_dom(s.drop_last(), s.last().0@);
        assert forall|i: int|
            0 <= i < s.drop_last().len() implies (#[trigger] s.drop_last()[i]).0@ != s.last().0@ by {
            assert(s.drop_last()[i] == s[i]);
            assert(s[i].0@ != s[s.len() - 1].0@);
        }
        assert(!ctx_map_of(s.drop_last()).dom().contains(s.last().0@));
    }
}

/// Overwriting the entry that holds a key rewrites the map at that key.
proof fn lemma_ctx_map_of_update(s: Seq<(String, Type)>, i: int, p: (String, Type))
    requires
        ctx_uniq_keys(s),
        0 <= i < s.len(),
        p.0@ == s[i].0@,
    ensures
        ctx_uniq_keys(s.update(i, p)),
        ctx_map_of(s.update(i, p)) == ctx_map_of(s).insert(p.0@, p.1),
    decreases s.len(),
{
    let su = s.update(i, p);
    assert forall|a: int, b: int| 0 <= a < b < su.len() implies (#[trigger] su[a]).0@
        != (#[trigger] su[b]).0@ by {
        assert(s[a].0@ != s[b].0@);
    }
    if i == s.len() - 1 {
        assert(su.drop_last() =~= s.drop_last());
        assert(ctx_map_of(su) == ctx_map_of(s.drop_last()).insert(p.0@, p.1));
        assert(ctx_map_of(s).insert(p.0@, p.1) =~= ctx_map_of(s.drop_last()).insert(p.0@, p.1));
    } else {
        assert(ctx_uniq_keys(s.drop_last())) by {
            assert forall|a: int, b: int|
                0 <= a < b < s.drop_last().len() implies (#[trigger] s.drop_last()[a]).0@
                != (#[trigger] s.drop_last()[b]).0@ by {
                assert(s.drop_last()[a] == s[a]);
                assert(s.drop_last()[b] == s[b]);
            }
        }
        assert(s.drop_last()[i] == s[i]);
        lemma_ctx_map_of_update(s.drop_last(), i, p);
        assert(su.drop_last() =~= s.drop_last().update(i, p));
        assert(su.last() == s.last());
        assert(s.last().0@ != p.0@) by {
            assert(s[i].0@ != s[s.len() - 1].0@);
        }
        assert(ctx_map_of(su) == ctx_map_of(s.drop_last()).insert(p.0@, p.1).insert(
            s.last().0@,
            s.last().1,
        ));
        assert(ctx_map_of(s.drop_last()).insert(p.0@, p.1).insert(s.last().0@, s.last().1)
            =~= ctx_map_of(s.drop_last()).insert(s.last().0@, s.last().1).insert(p.0@, p.1));
    }
}

impl Context {
    /// Names are unique, so lookups are position-independent.
    pub closed spec fn wf(&self) -> bool {
        ctx_uniq_keys(self.entries@)
    }

    /// The empty context.
    pub fn empty() -> (r: Context)
        ensures
            r.wf(),
            r@ == Map::<Seq<char>, Type>::empty(),
    {
        Context { entries: Vec::new() }
    }

    /// Number of entries.
    pub fn len(&self) -> (r: usize)
        requires
            self.wf(),
        ensures
            r == self@.dom().len(),
    {
        proof {
            lemma_ctx_map_of_len(self.entries@);
        }
        self.entries.len()
    }

    /// Look a name up.
    pub fn get(&self, name: &String) -> (r: Option<&Type>)
        requires
            self.wf(),
        ensures
            match r {
                Some(t) => self@.dom().contains(name@) && *t == self@[name@],
                None => !self@.dom().contains(name@),
            },
    {
        let n = self.entries.len();
        let mut i: usize = 0;
        while i < n
            invariant
                n == self.entries@.len(),
                self.wf(),
                0 <= i <= n,
                forall|j: int| 0 <= j < i ==> (#[trigger] self.entries@[j]).0@ != name@,
            decreases n - i,
        {
            if self.entries[i].0 == *name {
                proof {
                    lemma_ctx_map_of_index(self.entries@, i as int);
                }
                return Some(&self.entries[i].1);
            }
            i += 1;
        }
        proof {
            lemma_ctx_map_of_dom(self.entries@, name@);
        }
        None
    }

    /// Add or overwrite the entry for `name`.
    pub fn insert(&mut self, name: String, t: Type)
        requires
            old(self).wf(),
        ensures
            final(self).wf(),
            final(self)@ == old(self)@.insert(name@, t),
    {
        let n = self.entries.len();
        let mut i: usize = 0;
        while i < n
            invariant
                n == self.entries@.len(),
                self.wf(),
                self.entries@ == old(self).entries@,
                0 <= i <= n,
                forall|j: int| 0 <= j < i ==> (#[trigger] self.entries@[j]).0@ != name@,
            decreases n - i,
        {
            if self.entries[i].0 == name {
                let ghost gname = name;
                let ghost gt = t;
                self.entries[i] = (name, t);
                proof {
                    lemma_ctx_map_of_update(old(self).entries@, i as int, (gname, gt));
                }
                return ;
            }
            i += 1;
        }
        self.entries.push((name, t));
        proof {
            assert(self.entries@.drop_last() =~= old(self).entries@);
            lemma_ctx_map_of_dom(old(self).entries@, self.entries@.last().0@);
        }
    }
}

} // verus!
