//! An associative table keyed by text, in the order in which its keys came.
use crate::text::same;
use vstd::prelude::*;
use vstd::string::*;

verus! {

/// Entries keyed by text. No key occurs twice in a well-formed table.
#[derive(Debug)]
pub struct Table<V> {
    /// The entries, in the order in which their keys came.
    pub entries: Vec<(String, V)>,
}

/// The index of the first entry with the given key, or the length where there is none.
pub open spec fn index_of<V>(s: Seq<(String, V)>, key: Seq<char>) -> nat
    decreases s.len(),
{
    if s.len() == 0 || s[0].0@ == key {
        0
    } else {
        1 + index_of(s.skip(1), key)
    }
}

/// What a list of entries says of a key: the value of the first entry with that key.
pub open spec fn lookup<V>(s: Seq<(String, V)>, key: Seq<char>) -> Option<V> {
    if index_of(s, key) < s.len() {
        Some(s[index_of(s, key) as int].1)
    } else {
        None
    }
}

/// No key occurs twice.
pub open spec fn distinct<V>(s: Seq<(String, V)>) -> bool {
    forall|i: int, j: int| 0 <= i < j < s.len() ==> (#[trigger] s[i]).0@ != (#[trigger] s[j]).0@
}

pub proof fn lemma_index_of<V>(s: Seq<(String, V)>, key: Seq<char>)
    ensures
        index_of(s, key) <= s.len(),
        forall|i: int| 0 <= i < index_of(s, key) ==> (#[trigger] s[i]).0@ != key,
        index_of(s, key) < s.len() ==> s[index_of(s, key) as int].0@ == key,
    decreases s.len(),
{
    if s.len() > 0 && s[0].0@ != key {
        lemma_index_of(s.skip(1), key);
        assert forall|i: int| 0 <= i < index_of(s, key) implies (#[trigger] s[i]).0@ != key by {
            if i > 0 {
                assert(s[i] == s.skip(1)[i - 1]);
            }
        }
    }
}

pub proof fn lemma_index_unique<V>(s: Seq<(String, V)>, key: Seq<char>, n: nat)
    requires
        n <= s.len(),
        forall|i: int| 0 <= i < n ==> (#[trigger] s[i]).0@ != key,
        n < s.len() ==> s[n as int].0@ == key,
    ensures
        index_of(s, key) == n,
{
    lemma_index_of(s, key);
    let m = index_of(s, key);
    if m < n {
        assert(s[m as int].0@ != key);
    } else if n < m {
        assert(s[n as int].0@ != key);
    }
}

/// In a list without repeated keys, an entry is what its key looks up.
pub proof fn lemma_lookup_entry<V>(s: Seq<(String, V)>, i: int)
    requires
        distinct(s),
        0 <= i < s.len(),
    ensures
        lookup(s, s[i].0@) == Some(s[i].1),
{
    lemma_index_unique(s, s[i].0@, i as nat);
}

impl<V> Table<V> {
    /// No key occurs twice.
    pub open spec fn wf(&self) -> bool {
        distinct(self.entries@)
    }

    /// What the table says of a key.
    pub open spec fn get_spec(&self, key: Seq<char>) -> Option<V> {
        lookup(self.entries@, key)
    }

    /// An empty table.
    pub fn new() -> (r: Self)
        ensures
            r.wf(),
            r.entries@.len() == 0,
    {
        Table { entries: Vec::new() }
    }

    /// Whether the table has no entries.
    pub fn is_empty(&self) -> (r: bool)
        ensures
            r == (self.entries@.len() == 0),
    {
        self.entries.len() == 0
    }

    /// The index of the first entry with a key, or the number of entries.
    pub fn position(&self, key: &str) -> (r: usize)
        ensures
            r == index_of(self.entries@, key@),
            r <= self.entries@.len(),
    {
        let mut i: usize = 0;
        while i < self.entries.len() && !same(self.entries[i].0.as_str(), key)
            invariant
                i <= self.entries.len(),
                forall|j: int| 0 <= j < i ==> (#[trigger] self.entries@[j]).0@ != key@,
            decreases self.entries.len() - i,
        {
            i += 1;
        }
        proof {
            lemma_index_unique(self.entries@, key@, i as nat);
        }
        i
    }

    /// The value of a key.
    pub fn get(&self, key: &str) -> (r: Option<&V>)
        ensures
            match r {
                Some(value) => self.get_spec(key@) == Some(*value),
                None => self.get_spec(key@) is None,
            },
    {
        let at = self.position(key);
        if at < self.entries.len() {
            Some(&self.entries[at].1)
        } else {
            None
        }
    }

    /// Give a key a value: in the place of the value it has, or else in a new entry at the end.
    pub fn insert(&mut self, key: String, value: V)
        requires
            old(self).wf(),
        ensures
            final(self).wf(),
            final(self).entries@ == ({
                let at = index_of(old(self).entries@, key@);
                if at < old(self).entries@.len() {
                    old(self).entries@.update(at as int, (key, value))
                } else {
                    old(self).entries@.push((key, value))
                }
            }),
            forall|k: Seq<char>| #[trigger]
                final(self).get_spec(k) == if k == key@ {
                    Some(value)
                } else {
                    old(self).get_spec(k)
                },
    {
        let at = self.position(key.as_str());
        let ghost before = self.entries@;
        proof {
            lemma_index_of(before, key@);
        }
        if at < self.entries.len() {
            self.entries.set(at, (key, value));
        } else {
            self.entries.push((key, value));
        }
        proof {
            let after = self.entries@;
            assert forall|i: int, j: int| 0 <= i < j < after.len() implies (#[trigger] after[i]).0@
                != (#[trigger] after[j]).0@ by {
                if i < before.len() && j < before.len() {
                    assert(before[i].0@ != before[j].0@);
                }
            }
            assert forall|k: Seq<char>| #[trigger]
                self.get_spec(k) == (if k == key@ {
                    Some(value)
                } else {
                    lookup(before, k)
                }) by {
                lemma_index_of(before, k);
                lemma_index_of(after, k);
                let n = index_of(before, k);
                if k == key@ {
                    lemma_lookup_entry(after, at as int);
                    assert(after[at as int].0@ == k);
                } else {
                    if n < before.len() {
                        assert(after[n as int] == before[n as int]);
                        lemma_lookup_entry(after, n as int);
                    } else {
                        let m = index_of(after, k);
                        if m < after.len() {
                            assert(after[m as int].0@ == k);
                            assert(m != at);
                            assert(after[m as int] == before[m as int]);
                        }
                    }
                }
            }
        }
    }

    /// Add the entries of another table; where both have a key, the other's value stays.
    pub fn extend(&mut self, other: Table<V>)
        requires
            old(self).wf(),
            other.wf(),
        ensures
            final(self).wf(),
            forall|k: Seq<char>| #[trigger]
                final(self).get_spec(k) == match other.get_spec(k) {
                    Some(value) => Some(value),
                    None => old(self).get_spec(k),
                },
    {
        let mut rest = other;
        let ghost all = rest.entries@;
        let ghost mut done: nat = 0;
        let ghost start = self.entries@;
        assert(all.take(0) =~= Seq::<(String, V)>::empty());
        while rest.entries.len() > 0
            invariant
                done <= all.len(),
                distinct(all),
                rest.entries@ == all.skip(done as int),
                self.wf(),
                forall|k: Seq<char>| #[trigger]
                    self.get_spec(k) == match lookup(all.take(done as int), k) {
                        Some(value) => Some(value),
                        None => lookup(start, k),
                    },
            decreases rest.entries.len(),
        {
            let ghost before = *self;
            let (key, value) = rest.entries.remove(0);
            self.insert(key, value);
            proof {
                let entry = all[done as int];
                assert(entry == (key, value));
                let old_part = all.take(done as int);
                let new_part = all.take(done as int + 1);
                assert(new_part =~= old_part.push(entry));
                assert(distinct(new_part));
                assert forall|k: Seq<char>| #[trigger]
                    self.get_spec(k) == (match lookup(new_part, k) {
                        Some(value) => Some(value),
                        None => lookup(start, k),
                    }) by {
                    lemma_index_of(old_part, k);
                    lemma_index_of(new_part, k);
                    assert(before.get_spec(k) == match lookup(old_part, k) {
                        Some(value) => Some(value),
                        None => lookup(start, k),
                    });
                    let n = index_of(old_part, k);
                    if k == key@ {
                        lemma_lookup_entry(new_part, done as int);
                        assert(new_part[done as int] == entry);
                    } else if n < old_part.len() {
                        assert(new_part[n as int] == old_part[n as int]);
                        lemma_lookup_entry(new_part, n as int);
                    } else {
                        let m = index_of(new_part, k);
                        if m < new_part.len() {
                            assert(new_part[m as int].0@ == k);
                            assert(m != done);
                            assert(new_part[m as int] == old_part[m as int]);
                        }
                    }
                }
                assert(all.skip(done as int).remove(0) =~= all.skip(done as int + 1));
                done = done + 1;
            }
        }
        assert(all.take(done as int) =~= all);
    }
}

} // verus!
