//! The variable store: a mapping from variable names to their last-assigned
//! numeric values, owned by one calculator session. Values are the opaque
//! 64-bit payloads that the host computes with.
//!
//! The store is a vector of name/value pairs whose keys are unique, and its
//! mathematical shape is a [`Map`] from name characters to values.

use vstd::prelude::*;

verus! {

/// The map that a sequence of name/value pairs stands for; an earlier pair
/// hides a later one with the same name.
pub open spec fn entries_map(s: Seq<(String, u64)>) -> Map<Seq<char>, u64>
    decreases s.len(),
{
    if s.len() == 0 {
        Map::empty()
    } else {
        entries_map(s.drop_first()).insert(s[0].0@, s[0].1)
    }
}

/// The variable store of one calculator session.
pub struct Environment {
    entries: Vec<(String, u64)>,
}

impl View for Environment {
    type V = Map<Seq<char>, u64>;

    closed spec fn view(&self) -> Map<Seq<char>, u64> {
        entries_map(self.entries@)
    }
}

proof fn lemma_entries_map_absent(s: Seq<(String, u64)>, key: Seq<char>)
    requires
        forall|k: int| 0 <= k < s.len() ==> s[k].0@ != key,
    ensures
        !entries_map(s).dom().contains(key),
    decreases s.len(),
{
    if s.len() > 0 {
        assert(s[0].0@ != key);
        lemma_entries_map_absent(s.drop_first(), key);
    }
}

proof fn lemma_entries_map_push_absent(s: Seq<(String, u64)>, p: (String, u64))
    requires
        forall|k: int| 0 <= k < s.len() ==> s[k].0@ != p.0@,
    ensures
        entries_map(s.push(p)) == entries_map(s).insert(p.0@, p.1),
    decreases s.len(),
{
    if s.len() == 0 {
        assert(s.push(p).drop_first() =~= Seq::<(String, u64)>::empty());
        assert(s.push(p)[0] == p);
        assert(entries_map(s.push(p)) == entries_map(s.push(p).drop_first()).insert(p.0@, p.1));
        assert(entries_map(s.push(p)) =~= entries_map(s).insert(p.0@, p.1));
    } else {
        assert(s.push(p).drop_first() =~= s.drop_first().push(p));
        assert(s.push(p)[0] == s[0]);
        lemma_entries_map_push_absent(s.drop_first(), p);
        assert(entries_map(s.push(p)) == entries_map(s.drop_first().push(p)).insert(
            s[0].0@,
            s[0].1,
        ));
        assert(entries_map(s.push(p)) =~= entries_map(s).insert(p.0@, p.1));
    }
}

proof fn lemma_entries_map_update_found(s: Seq<(String, u64)>, i: int, p: (String, u64))
    requires
        0 <= i < s.len(),
        s[i].0@ == p.0@,
        forall|k: int| 0 <= k < i ==> s[k].0@ != p.0@,
    ensures
        entries_map(s.update(i, p)) == entries_map(s).insert(p.0@, p.1),
    decreases s.len(),
{
    if i == 0 {
        assert(s.update(0, p).drop_first() =~= s.drop_first());
        assert(s.update(0, p)[0] == p);
        assert(entries_map(s.update(0, p)) =~= entries_map(s).insert(p.0@, p.1));
    } else {
        assert(s.update(i, p).drop_first() =~= s.drop_first().update(i - 1, p));
        assert(s.update(i, p)[0] == s[0]);
        assert(forall|k: int|
            0 <= k < i - 1 ==> s.drop_first()[k] == s[k + 1] && s[k + 1].0@ != p.0@);
        lemma_entries_map_update_found(s.drop_first(), i - 1, p);
        assert(entries_map(s.update(i, p)) == entries_map(s.drop_first()).insert(
            p.0@,
            p.1,
        ).insert(s[0].0@, s[0].1));
        assert(s[0].0@ != p.0@);
        assert(entries_map(s.update(i, p)) =~= entries_map(s).insert(p.0@, p.1));
    }
}

impl Environment {
    /// The keys of the store are unique.
    pub closed spec fn wf(&self) -> bool {
        forall|i: int, j: int|
            0 <= i < j < self.entries@.len() ==> self.entries@[i].0@ != self.entries@[j].0@
    }

    /// An empty store.
    pub fn new() -> (e: Self)
        ensures
            e.wf(),
            e@ == Map::<Seq<char>, u64>::empty(),
    {
        let e = Environment { entries: Vec::new() };
        proof {
            assert(e@ =~= Map::<Seq<char>, u64>::empty());
        }
        e
    }

    /// The value last assigned to `name`, if any.
    pub fn get(&self, name: &String) -> (r: Option<u64>)
        ensures
            match r {
                Some(v) => self@.dom().contains(name@) && self@[name@] == v,
                None => !self@.dom().contains(name@),
            },
    {
        let n = self.entries.len();
        let mut i: usize = 0;
        proof {
            assert(self.entries@.skip(0) =~= self.entries@);
        }
        loop
            invariant
                i <= n,
                n == self.entries@.len(),
                forall|k: int| 0 <= k < i ==> self.entries@[k].0@ != name@,
                entries_map(self.entries@).dom().contains(name@) == entries_map(
                    self.entries@.skip(i as int),
                ).dom().contains(name@),
                entries_map(self.entries@).dom().contains(name@) ==> entries_map(
                    self.entries@,
                )[name@] == entries_map(self.entries@.skip(i as int))[name@],
            ensures
                i <= n,
                n == self.entries@.len(),
                i < n ==> self.entries@[i as int].0@ == name@ && self@.dom().contains(name@)
                    && self@[name@] == self.entries@[i as int].1,
                i == n ==> !self@.dom().contains(name@),
            decreases n - i,
        {
            if i >= n {
                proof {
                    assert(self.entries@.skip(i as int) =~= Seq::<(String, u64)>::empty());
                }
                break;
            }
            if self.entries[i].0 == *name {
                proof {
                    let rest = self.entries@.skip(i as int);
                    assert(rest[0] == self.entries@[i as int]);
                    assert(entries_map(rest) == entries_map(rest.drop_first()).insert(
                        rest[0].0@,
                        rest[0].1,
                    ));
                }
                break;
            }
            proof {
                let rest = self.entries@.skip(i as int);
                assert(rest[0] == self.entries@[i as int]);
                assert(rest.drop_first() =~= self.entries@.skip(i + 1 as int));
                assert(entries_map(rest) == entries_map(rest.drop_first()).insert(
                    rest[0].0@,
                    rest[0].1,
                ));
            }
            i = i + 1;
        }
        if i < self.entries.len() {
            Some(self.entries[i].1)
        } else {
            None
        }
    }

    /// Assign `value` to `name`, overwriting any prior value.
    pub fn set(&mut self, name: String, value: u64)
        requires
            old(self).wf(),
        ensures
            final(self).wf(),
            final(self)@ == old(self)@.insert(name@, value),
    {
        let n = self.entries.len();
        let mut i: usize = 0;
        loop
            invariant
                i <= n,
                n == self.entries@.len(),
                self.entries@ == old(self).entries@,
                forall|k: int| 0 <= k < i ==> self.entries@[k].0@ != name@,
            ensures
                i <= n,
                n == self.entries@.len(),
                self.entries@ == old(self).entries@,
                forall|k: int| 0 <= k < i ==> self.entries@[k].0@ != name@,
                i < n ==> self.entries@[i as int].0@ == name@,
            decreases n - i,
        {
            if i >= n {
                break;
            }
            if self.entries[i].0 == name {
                break;
            }
            i = i + 1;
        }
        if i < self.entries.len() {
            proof {
                lemma_entries_map_update_found(
                    self.entries@,
                    i as int,
                    (name, value),
                );
            }
            self.entries.set(i, (name, value));
        } else {
            proof {
                lemma_entries_map_push_absent(self.entries@, (name, value));
            }
            self.entries.push((name, value));
        }
    }

    /// A copy of the store, entry for entry.
    pub fn snapshot(&self) -> (e: Self)
        ensures
            e@ == self@,
            e.wf() == self.wf(),
    {
        let n = self.entries.len();
        let mut out: Vec<(String, u64)> = Vec::new();
        let mut i: usize = 0;
        while i < n
            invariant
                i <= n,
                n == self.entries@.len(),
                out@ == self.entries@.subrange(0, i as int),
            decreases n - i,
        {
            let pair = (self.entries[i].0.clone(), self.entries[i].1);
            proof {
                assert(pair == self.entries@[i as int]);
            }
            out.push(pair);
            proof {
                assert(self.entries@.subrange(0, i + 1 as int) =~= self.entries@.subrange(
                    0,
                    i as int,
                ).push(self.entries@[i as int]));
            }
            i = i + 1;
        }
        proof {
            assert(out@ =~= self.entries@);
        }
        let result = Environment { entries: out };
        proof {
            assert(result.entries@ == self.entries@);
            assert(result.wf() == self.wf());
            assert(result@ == self@);
        }
        result
    }
}

} // verus!
