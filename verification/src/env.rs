//! The variable environment: a mutable mapping from identifier to value,
//! keys unique, insertion order irrelevant. The interpreter inserts and
//! overwrites bindings but never removes one.

use vstd::prelude::*;
use crate::value::Value;
use crate::value::val_wf;

verus! {

/// The name-to-value binding set visible to expression evaluation.
pub struct Environment {
    entries: Vec<(String, Value)>,
}

/// The mapping an entry list denotes; later entries would win, and the
/// well-formedness below keeps keys unique.
spec fn entries_map(s: Seq<(String, Value)>) -> Map<Seq<char>, Value>
    decreases s.len(),
{
    if s.len() == 0 {
        Map::empty()
    } else {
        entries_map(s.drop_last()).insert(s.last().0@, s.last().1)
    }
}

impl View for Environment {
    type V = Map<Seq<char>, Value>;

    closed spec fn view(&self) -> Map<Seq<char>, Value> {
        entries_map(self.entries@)
    }
}

/// An entry with no later entry of the same key denotes its own binding.
proof fn lemma_map_present(s: Seq<(String, Value)>, i: int)
    requires
        0 <= i < s.len(),
        forall|j: int| i < j < s.len() ==> s[j].0@ != s[i].0@,
    ensures
        entries_map(s).contains_key(s[i].0@),
        entries_map(s)[s[i].0@] == s[i].1,
    decreases s.len(),
{
    if i < s.len() - 1 {
        lemma_map_present(s.drop_last(), i);
    }
}

/// A key under no entry is not in the map.
proof fn lemma_map_absent(s: Seq<(String, Value)>, k: Seq<char>)
    requires
        forall|j: int| 0 <= j < s.len() ==> s[j].0@ != k,
    ensures
        !entries_map(s).contains_key(k),
    decreases s.len(),
{
    if s.len() > 0 {
        lemma_map_absent(s.drop_last(), k);
    }
}

/// Replacing the entry that holds a key updates that key's binding.
proof fn lemma_map_update(s: Seq<(String, Value)>, i: int, e: (String, Value))
    requires
        0 <= i < s.len(),
        e.0@ == s[i].0@,
        forall|j: int| i < j < s.len() ==> s[j].0@ != s[i].0@,
    ensures
        entries_map(s.update(i, e)) == entries_map(s).insert(e.0@, e.1),
    decreases s.len(),
{
    let t = s.update(i, e);
    if i == s.len() - 1 {
        assert(t.drop_last() =~= s.drop_last());
        assert(entries_map(t) =~= entries_map(s).insert(e.0@, e.1));
    } else {
        assert(t.drop_last() =~= s.drop_last().update(i, e));
        lemma_map_update(s.drop_last(), i, e);
        assert(entries_map(t) =~= entries_map(s).insert(e.0@, e.1));
    }
}

/// Entry lists equal under the view denote equal maps.
proof fn lemma_map_congruent(s: Seq<(String, Value)>, t: Seq<(String, Value)>)
    requires
        s.len() == t.len(),
        forall|j: int| 0 <= j < s.len() ==> t[j].0@ == s[j].0@ && t[j].1 == s[j].1,
    ensures
        entries_map(t) == entries_map(s),
    decreases s.len(),
{
    if s.len() > 0 {
        lemma_map_congruent(s.drop_last(), t.drop_last());
        assert(entries_map(t) =~= entries_map(s));
    }
}

impl Environment {
    /// Keys are pairwise distinct and every stored value is well-formed.
    pub closed spec fn wf(&self) -> bool {
        &&& forall|i: int, j: int|
            #![trigger self.entries@[i].0@, self.entries@[j].0@]
            0 <= i < j < self.entries@.len() ==> self.entries@[i].0@ != self.entries@[j].0@
        &&& forall|i: int|
            0 <= i < self.entries@.len() ==> val_wf(#[trigger] self.entries@[i].1)
    }

    /// An empty environment.
    pub fn new() -> (e: Environment)
        ensures
            e@ == Map::<Seq<char>, Value>::empty(),
            e.wf(),
    {
        Environment { entries: Vec::new() }
    }

    /// Look a name up; exactly the bindings in the view are found.
    pub fn lookup(&self, name: &String) -> (r: Option<Value>)
        requires
            self.wf(),
        ensures
            r == if self@.contains_key(name@) {
                Some(self@[name@])
            } else {
                None::<Value>
            },
            r matches Some(v) ==> val_wf(v),
    {
        let n = self.entries.len();
        let mut i: usize = 0;
        while i < n
            invariant
                0 <= i <= n,
                n == self.entries@.len(),
                self.wf(),
                forall|j: int| 0 <= j < i ==> self.entries@[j].0@ != name@,
            decreases n - i,
        {
            if self.entries[i].0.eq(name) {
                proof {
                    lemma_map_present(self.entries@, i as int);
                }
                return Some(self.entries[i].1);
            }
            i += 1;
        }
        proof {
            lemma_map_absent(self.entries@, name@);
        }
        None
    }

    /// Bind `name` to `v`, overwriting any prior binding.
    pub fn insert(&mut self, name: String, v: Value)
        requires
            old(self).wf(),
            val_wf(v),
        ensures
            final(self).wf(),
            final(self)@ == old(self)@.insert(name@, v),
    {
        let ghost s0 = old(self).entries@;
        let ghost nv = name@;
        let n = self.entries.len();
        let mut i: usize = 0;
        while i < n
            invariant
                0 <= i <= n,
                n == self.entries@.len(),
                self.entries@ == s0,
                s0 == old(self).entries@,
                entries_map(s0) == old(self)@,
                self.wf(),
                val_wf(v),
                nv == name@,
                forall|j: int| 0 <= j < i ==> self.entries@[j].0@ != name@,
            decreases n - i,
        {
            if self.entries[i].0.eq(&name) {
                self.entries.set(i, (name, v));
                proof {
                    let e = self.entries@[i as int];
                    assert(e.0@ == nv && e.1 == v);
                    assert(self.entries@ == s0.update(i as int, e));
                    lemma_map_update(s0, i as int, e);
                    assert(entries_map(self.entries@) == entries_map(s0).insert(nv, v));
                    assert forall|p: int, q: int|
                        #![trigger self.entries@[p].0@, self.entries@[q].0@]
                        0 <= p < q < self.entries@.len() implies self.entries@[p].0@
                        != self.entries@[q].0@ by {
                        assert(s0[p].0@ != s0[q].0@);
                    }
                }
                return ;
            }
            i += 1;
        }
        self.entries.push((name, v));
        proof {
            assert(self.entries@.drop_last() =~= s0);
            assert(entries_map(self.entries@) == entries_map(s0).insert(nv, v));
            assert forall|p: int, q: int|
                #![trigger self.entries@[p].0@, self.entries@[q].0@]
                0 <= p < q < self.entries@.len() implies self.entries@[p].0@
                != self.entries@[q].0@ by {
                if q < self.entries@.len() - 1 {
                    assert(s0[p].0@ != s0[q].0@);
                } else {
                    assert(s0[p].0@ != nv);
                }
            }
        }
    }

    /// An independent copy denoting the same mapping; evaluation works on a
    /// copy so that a failing line leaves the caller's environment untouched.
    pub fn duplicate(&self) -> (e: Environment)
        requires
            self.wf(),
        ensures
            e@ == self@,
            e.wf(),
    {
        let n = self.entries.len();
        let mut out: Vec<(String, Value)> = Vec::new();
        let mut i: usize = 0;
        while i < n
            invariant
                0 <= i <= n,
                n == self.entries@.len(),
                self.wf(),
                out@.len() == i,
                forall|j: int|
                    0 <= j < i ==> #[trigger] out@[j].0@ == self.entries@[j].0@ && out@[j].1
                        == self.entries@[j].1,
            decreases n - i,
        {
            let key = self.entries[i].0.clone();
            let val = self.entries[i].1;
            out.push((key, val));
            i += 1;
        }
        proof {
            lemma_map_congruent(self.entries@, out@);
            assert forall|j: int| 0 <= j < out@.len() implies val_wf(#[trigger] out@[j].1) by {
                assert(out@[j].0@ == self.entries@[j].0@);
                assert(val_wf(self.entries@[j].1));
            }
            assert forall|p: int, q: int|
                #![trigger out@[p].0@, out@[q].0@]
                0 <= p < q < out@.len() implies out@[p].0@ != out@[q].0@ by {
                assert(out@[p].0@ == self.entries@[p].0@);
                assert(out@[q].0@ == self.entries@[q].0@);
                assert(self.entries@[p].0@ != self.entries@[q].0@);
            }
        }
        Environment { entries: out }
    }
}

} // verus!
