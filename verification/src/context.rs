//! The evaluated context: an owned mapping from variable name to value.

use vstd::prelude::*;

use crate::value::{ValueModel, VariableValue};

verus! {

/// An evaluated context, mapping each assigned variable name to its final
/// value. It is modeled as a `Map` from name characters to [`ValueModel`].
#[derive(Debug, PartialEq, Eq)]
pub struct ApmlContext {
    entries: Vec<(String, VariableValue)>,
}

/// The mapping described by an entry list; a later entry overrides an
/// earlier one with the same name.
pub open spec fn entries_map(s: Seq<(String, VariableValue)>) -> Map<Seq<char>, ValueModel>
    decreases s.len(),
{
    if s.len() == 0 {
        Map::empty()
    } else {
        entries_map(s.drop_last()).insert(s.last().0@, s.last().1@)
    }
}

/// Whether the names of an entry list are pairwise distinct.
pub open spec fn keys_distinct(s: Seq<(String, VariableValue)>) -> bool {
    forall|i: int, j: int| 0 <= i < j < s.len() ==> s[i].0@ != s[j].0@
}

proof fn lemma_entries_map_contains(s: Seq<(String, VariableValue)>, k: Seq<char>)
    ensures
        entries_map(s).contains_key(k) <==> (exists|i: int| 0 <= i < s.len() && s[i].0@ == k),
    decreases s.len(),
{
    if s.len() > 0 {
        lemma_entries_map_contains(s.drop_last(), k);
        if s.last().0@ == k {
            assert(s[s.len() - 1].0@ == k);
        } else if entries_map(s).contains_key(k) {
            let i = choose|i: int| 0 <= i < s.len() - 1 && s.drop_last()[i].0@ == k;
            assert(s[i].0@ == k);
        } else if exists|i: int| 0 <= i < s.len() && s[i].0@ == k {
            let i = choose|i: int| 0 <= i < s.len() && s[i].0@ == k;
            assert(s.drop_last()[i].0@ == k);
        }
    }
}

proof fn lemma_entries_map_value(s: Seq<(String, VariableValue)>, i: int)
    requires
        keys_distinct(s),
        0 <= i < s.len(),
    ensures
        entries_map(s).contains_key(s[i].0@),
        entries_map(s)[s[i].0@] == s[i].1@,
    decreases s.len(),
{
    if i < s.len() - 1 {
        assert(keys_distinct(s.drop_last())) by {
            assert(forall|a: int, b: int|
                0 <= a < b < s.len() - 1 ==> s.drop_last()[a].0@ == s[a].0@ && s.drop_last()[b].0@
                    == s[b].0@);
        }
        lemma_entries_map_value(s.drop_last(), i);
        assert(s.drop_last()[i] == s[i]);
        assert(s.last().0@ != s[i].0@);
    }
}

impl View for ApmlContext {
    type V = Map<Seq<char>, ValueModel>;

    closed spec fn view(&self) -> Map<Seq<char>, ValueModel> {
        entries_map(self.entries@)
    }
}

impl ApmlContext {
    /// Well-formedness: each name occurs at most once in the store.
    pub closed spec fn wf(&self) -> bool {
        keys_distinct(self.entries@)
    }

    /// Gets a variable value, or `None` if the name is not assigned.
    #[must_use]
    pub fn get(&self, name: &str) -> (r: Option<&VariableValue>)
        requires
            self.wf(),
        ensures
            match r {
                Some(v) => self@.contains_key(name@) && v@ == self@[name@],
                None => !self@.contains_key(name@),
            },
    {
        let owned = String::from_str(name);
        let mut i: usize = 0;
        while i < self.entries.len()
            invariant
                self.wf(),
                owned@ == name@,
                i <= self.entries@.len(),
                forall|k: int| 0 <= k < i ==> self.entries@[k].0@ != name@,
            decreases self.entries@.len() - i,
        {
            if self.entries[i].0 == owned {
                proof {
                    lemma_entries_map_value(self.entries@, i as int);
                }
                return Some(&self.entries[i].1);
            }
            i += 1;
        }
        proof {
            lemma_entries_map_contains(self.entries@, name@);
        }
        None
    }

    /// Gets a variable value, or an empty string value if the name is not
    /// assigned.
    #[must_use]
    pub fn read(&self, name: &str) -> (r: VariableValue)
        requires
            self.wf(),
        ensures
            r@ == if self@.contains_key(name@) {
                self@[name@]
            } else {
                ValueModel::Text(Seq::<char>::empty())
            },
    {
        match self.get(name) {
            Some(v) => v.clone(),
            None => VariableValue::default(),
        }
    }

    /// Gets a mutable reference to a variable value, or `None` if the
    /// name is not assigned. Writing through the reference overwrites
    /// the variable's value in the context.
    #[must_use]
    pub fn get_mut(&mut self, name: &str) -> (r: Option<&mut VariableValue>)
        requires
            old(self).wf(),
        ensures
            match r {
                Some(v) => old(self)@.contains_key(name@) && (*v)@ == old(self)@[name@]
                    && final(self)@ == old(self)@.insert(name@, (*final(v))@)
                    && final(self).wf(),
                None => !old(self)@.contains_key(name@) && final(self)@ == old(self)@
                    && final(self).wf(),
            },
    {
        let ghost s0 = self.entries@;
        let owned = String::from_str(name);
        let mut i: usize = 0;
        while i < self.entries.len()
            invariant
                self.entries@ == s0,
                old(self).entries@ == s0,
                keys_distinct(s0),
                owned@ == name@,
                i <= s0.len(),
                forall|k: int| 0 <= k < i ==> s0[k].0@ != name@,
            decreases s0.len() - i,
        {
            if self.entries[i].0 == owned {
                proof {
                    lemma_entries_map_value(s0, i as int);
                }
                let entry = &mut self.entries[i];
                proof {
                    lemma_entries_map_update_value(s0, i as int);
                }
                return Some(&mut entry.1);
            }
            i += 1;
        }
        proof {
            lemma_entries_map_contains(s0, name@);
        }
        None
    }

    /// Removes a variable, returning its value if it was assigned.
    pub fn remove(&mut self, name: &str) -> (r: Option<VariableValue>)
        requires
            old(self).wf(),
        ensures
            final(self).wf(),
            final(self)@ == old(self)@.remove(name@),
            match r {
                Some(v) => old(self)@.contains_key(name@) && v@ == old(self)@[name@],
                None => !old(self)@.contains_key(name@),
            },
    {
        let ghost s0 = self.entries@;
        let owned = String::from_str(name);
        let mut i: usize = 0;
        while i < self.entries.len()
            invariant
                self.entries@ == s0,
                old(self).entries@ == s0,
                keys_distinct(s0),
                owned@ == name@,
                i <= s0.len(),
                forall|k: int| 0 <= k < i ==> s0[k].0@ != name@,
            decreases s0.len() - i,
        {
            if self.entries[i].0 == owned {
                let entry = self.entries.remove(i);
                proof {
                    lemma_entries_map_value(s0, i as int);
                    lemma_entries_map_remove(s0, i as int);
                    assert(keys_distinct(self.entries@)) by {
                        assert(forall|a: int, b: int|
                            0 <= a < b < s0.len() - 1 ==> #[trigger] s0.remove(i as int)[a].0@
                                != #[trigger] s0.remove(i as int)[b].0@) by {
                            assert(forall|a: int|
                                0 <= a < s0.len() - 1 ==> #[trigger] s0.remove(i as int)[a] == if a
                                    < i {
                                    s0[a]
                                } else {
                                    s0[a + 1]
                                });
                        }
                    }
                }
                return Some(entry.1);
            }
            i += 1;
        }
        proof {
            lemma_entries_map_contains(s0, name@);
            assert(self@ =~= self@.remove(name@));
        }
        None
    }

    /// Inserts a variable, overwriting any earlier value under the same
    /// name.
    pub fn insert(&mut self, name: String, value: VariableValue)
        requires
            old(self).wf(),
        ensures
            final(self).wf(),
            final(self)@ == old(self)@.insert(name@, value@),
    {
        let _ = self.remove(name.as_str());
        let ghost s1 = self.entries@;
        proof {
            lemma_entries_map_contains(s1, name@);
        }
        self.entries.push((name, value));
        proof {
            assert(self.entries@.drop_last() =~= s1);
            assert(self@ =~= old(self)@.insert(name@, value@));
        }
    }

    /// Returns the assigned variable names, each exactly once.
    pub fn keys(&self) -> (r: Vec<String>)
        requires
            self.wf(),
        ensures
            forall|k: Seq<char>| #[trigger]
                self@.contains_key(k) <==> (exists|i: int| 0 <= i < r@.len() && r@[i]@ == k),
            forall|i: int, j: int| 0 <= i < j < r@.len() ==> r@[i]@ != r@[j]@,
    {
        let mut out: Vec<String> = Vec::new();
        let mut i: usize = 0;
        while i < self.entries.len()
            invariant
                self.wf(),
                i <= self.entries@.len(),
                out@.len() == i,
                forall|k: int| 0 <= k < i ==> out@[k]@ == self.entries@[k].0@,
            decreases self.entries@.len() - i,
        {
            out.push(self.entries[i].0.clone());
            i += 1;
        }
        proof {
            let es = self.entries@;
            assert forall|k: Seq<char>| #[trigger] self@.contains_key(k) implies (exists|i: int|
                0 <= i < out@.len() && out@[i]@ == k) by {
                lemma_entries_map_contains(es, k);
                let i = choose|i: int| 0 <= i < es.len() && es[i].0@ == k;
                assert(out@[i]@ == k);
            }
            assert forall|k: Seq<char>| (exists|i: int| 0 <= i < out@.len() && out@[i]@ == k)
                implies #[trigger] self@.contains_key(k) by {
                lemma_entries_map_contains(es, k);
                let i = choose|i: int| 0 <= i < out@.len() && out@[i]@ == k;
                assert(es[i].0@ == k);
            }
        }
        out
    }
}

proof fn lemma_entries_map_remove(s: Seq<(String, VariableValue)>, i: int)
    requires
        keys_distinct(s),
        0 <= i < s.len(),
    ensures
        entries_map(s.remove(i)) == entries_map(s).remove(s[i].0@),
    decreases s.len(),
{
    lemma_entries_map_contains(s.drop_last(), s[i].0@);
    assert(keys_distinct(s.drop_last())) by {
        assert(forall|a: int, b: int|
            0 <= a < b < s.len() - 1 ==> s.drop_last()[a].0@ == s[a].0@ && s.drop_last()[b].0@
                == s[b].0@);
    }
    if i == s.len() - 1 {
        assert(s.remove(i) =~= s.drop_last());
        assert(!entries_map(s.drop_last()).contains_key(s[i].0@));
        assert(entries_map(s.drop_last()) =~= entries_map(s).remove(s[i].0@));
    } else {
        lemma_entries_map_remove(s.drop_last(), i);
        assert(s.remove(i).drop_last() =~= s.drop_last().remove(i));
        assert(s.remove(i).last() == s.last());
        assert(s.drop_last()[i] == s[i]);
        assert(s.last().0@ != s[i].0@);
        assert(entries_map(s.remove(i)) == entries_map(s.drop_last().remove(i)).insert(
            s.last().0@,
            s.last().1@,
        ));
        assert(entries_map(s.drop_last()).remove(s[i].0@).insert(s.last().0@, s.last().1@)
            =~= entries_map(s.drop_last()).insert(s.last().0@, s.last().1@).remove(s[i].0@));
    }
}

proof fn lemma_update_one(s: Seq<(String, VariableValue)>, i: int, v: VariableValue)
    requires
        keys_distinct(s),
        0 <= i < s.len(),
    ensures
        entries_map(s.update(i, (s[i].0, v))) == entries_map(s).insert(s[i].0@, v@),
        keys_distinct(s.update(i, (s[i].0, v))),
    decreases s.len(),
{
    let su = s.update(i, (s[i].0, v));
    assert(keys_distinct(su)) by {
        assert(forall|a: int| 0 <= a < s.len() ==> #[trigger] su[a].0@ == s[a].0@);
    }
    assert(keys_distinct(s.drop_last())) by {
        assert(forall|a: int, b: int|
            0 <= a < b < s.len() - 1 ==> s.drop_last()[a].0@ == s[a].0@ && s.drop_last()[b].0@
                == s[b].0@);
    }
    if i == s.len() - 1 {
        assert(su.drop_last() =~= s.drop_last());
        assert(entries_map(su) =~= entries_map(s).insert(s[i].0@, v@));
    } else {
        lemma_update_one(s.drop_last(), i, v);
        assert(su.drop_last() =~= s.drop_last().update(i, (s[i].0, v)));
        assert(s.drop_last()[i] == s[i]);
        assert(su.last() == s.last());
        assert(s.last().0@ != s[i].0@);
        assert(entries_map(s.drop_last()).insert(s[i].0@, v@).insert(s.last().0@, s.last().1@)
            =~= entries_map(s.drop_last()).insert(s.last().0@, s.last().1@).insert(s[i].0@, v@));
    }
}

proof fn lemma_entries_map_update_value(s: Seq<(String, VariableValue)>, i: int)
    requires
        keys_distinct(s),
        0 <= i < s.len(),
    ensures
        forall|v: VariableValue|
            entries_map(#[trigger] s.update(i, (s[i].0, v))) == entries_map(s).insert(
                s[i].0@,
                v@,
            ),
        forall|v: VariableValue| keys_distinct(#[trigger] s.update(i, (s[i].0, v))),
{
    assert forall|v: VariableValue|
        entries_map(#[trigger] s.update(i, (s[i].0, v))) == entries_map(s).insert(s[i].0@, v@)
            && keys_distinct(s.update(i, (s[i].0, v))) by {
        lemma_update_one(s, i, v);
    }
}

impl Clone for ApmlContext {
    /// Clones the context; the copy models the same mapping.
    fn clone(&self) -> (r: Self)
        ensures
            r@ == self@,
            r.wf(),
    {
        let ghost s0 = self.entries@;
        let mut out = ApmlContext { entries: Vec::new() };
        let mut i: usize = 0;
        while i < self.entries.len()
            invariant
                self.entries@ == s0,
                i <= s0.len(),
                out.wf(),
                out@ == entries_map(s0.take(i as int)),
            decreases s0.len() - i,
        {
            let name = self.entries[i].0.clone();
            let value = self.entries[i].1.clone();
            out.insert(name, value);
            proof {
                assert(s0.take(i + 1).drop_last() =~= s0.take(i as int));
                assert(s0.take(i + 1).last() == s0[i as int]);
            }
            i += 1;
        }
        proof {
            assert(s0.take(s0.len() as int) =~= s0);
        }
        out
    }
}

impl Default for ApmlContext {
    /// The default context is empty.
    fn default() -> (r: Self)
        ensures
            r.wf(),
            r@ == Map::<Seq<char>, ValueModel>::empty(),
    {
        ApmlContext { entries: Vec::new() }
    }
}

} // verus!
