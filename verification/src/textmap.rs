//! A small map from texts to values.

use vstd::prelude::*;

verus! {

/// A map from texts to values, kept as a list in which a later entry replaces
/// an earlier one with the same key.
#[derive(Debug, PartialEq, Eq)]
pub struct TextMap<V> {
    /// The entries.
    pub entries: Vec<(String, V)>,
}

/// The value that `entries` hold for `key`.
pub open spec fn lookup<V>(entries: Seq<(String, V)>, key: Seq<char>) -> Option<V>
    decreases entries.len(),
{
    if entries.len() == 0 {
        None
    } else if entries.last().0@ == key {
        Some(entries.last().1)
    } else {
        lookup(entries.drop_last(), key)
    }
}

impl<V> TextMap<V> {
    /// The value for `key`.
    pub open spec fn value(self, key: Seq<char>) -> Option<V> {
        lookup(self.entries@, key)
    }

    /// The empty map.
    pub fn new() -> (r: TextMap<V>)
        ensures
            r.entries@.len() == 0,
            forall|k: Seq<char>| #[trigger] r.value(k) is None,
    {
        TextMap { entries: Vec::new() }
    }

    /// Whether the map holds nothing.
    pub fn is_empty(&self) -> (r: bool)
        ensures
            r == (self.entries@.len() == 0),
            r ==> forall|k: Seq<char>| #[trigger] self.value(k) is None,
    {
        self.entries.len() == 0
    }

    /// Leaves `key` without a value.
    pub fn remove(&mut self, key: &str)
        ensures
            forall|k: Seq<char>| #[trigger]
                final(self).value(k) == if k == key@ {
                    None
                } else {
                    old(self).value(k)
                },
    {
        let ghost before = self.entries@;
        let mut i: usize = 0;
        while i < self.entries.len()
            invariant
                i <= self.entries@.len(),
                forall|j: int| 0 <= j < i ==> (#[trigger] self.entries@[j]).0@ != key@,
                forall|k: Seq<char>|
                    k != key@ ==> #[trigger] lookup(self.entries@, k) == lookup(before, k),
            decreases self.entries@.len() - i,
        {
            if crate::text::same_text(self.entries[i].0.as_str(), key) {
                let ghost now = self.entries@;
                proof {
                    assert forall|k: Seq<char>| k != key@ implies #[trigger] lookup(
                        now.remove(i as int),
                        k,
                    ) == lookup(now, k) by {
                        lookup_without(now, i as int, k);
                    }
                }
                let _ = self.entries.remove(i);
            } else {
                i = i + 1;
            }
        }
        proof {
            lookup_absent(self.entries@, key@);
        }
    }

    /// Makes `value` the value for `key`.
    pub fn insert(&mut self, key: String, value: V)
        ensures
            forall|k: Seq<char>| #[trigger]
                final(self).value(k) == if k == key@ {
                    Some(value)
                } else {
                    old(self).value(k)
                },
    {
        self.remove(key.as_str());
        let ghost middle = *self;
        self.entries.push((key, value));
        assert(self.entries@.drop_last() =~= middle.entries@);
        assert forall|k: Seq<char>| #[trigger] self.value(k) == if k == key@ {
            Some(value)
        } else {
            old(self).value(k)
        } by {
            assert(middle.value(k) == lookup(middle.entries@, k));
        }
    }
}

proof fn lookup_without<V>(entries: Seq<(String, V)>, i: int, k: Seq<char>)
    requires
        0 <= i < entries.len(),
        entries[i].0@ != k,
    ensures
        lookup(entries.remove(i), k) == lookup(entries, k),
    decreases entries.len(),
{
    let rest = entries.remove(i);
    if i == entries.len() - 1 {
        assert(rest =~= entries.drop_last());
    } else {
        assert(rest.last() == entries.last());
        assert(rest.drop_last() =~= entries.drop_last().remove(i));
        lookup_without(entries.drop_last(), i, k);
    }
}

proof fn lookup_absent<V>(entries: Seq<(String, V)>, k: Seq<char>)
    requires
        forall|j: int| 0 <= j < entries.len() ==> (#[trigger] entries[j]).0@ != k,
    ensures
        lookup(entries, k) is None,
    decreases entries.len(),
{
    if entries.len() > 0 {
        assert(entries.last() == entries[entries.len() - 1]);
        assert forall|j: int| 0 <= j < entries.drop_last().len() implies (
        #[trigger] entries.drop_last()[j]).0@ != k by {
            assert(entries.drop_last()[j] == entries[j]);
        }
        lookup_absent(entries.drop_last(), k);
    }
}

impl<V: Copy> TextMap<V> {
    /// The value for `key`.
    pub fn get(&self, key: &str) -> (r: Option<V>)
        ensures
            r == self.value(key@),
    {
        let mut n: usize = self.entries.len();
        assert(self.entries@.take(n as int) =~= self.entries@);
        while n > 0
            invariant
                n <= self.entries@.len(),
                lookup(self.entries@, key@) == lookup(self.entries@.take(n as int), key@),
            decreases n,
        {
            assert(self.entries@.take(n as int).drop_last() =~= self.entries@.take(n - 1));
            assert(self.entries@.take(n as int).last() == self.entries@[n - 1]);
            if crate::text::same_text(self.entries[n - 1].0.as_str(), key) {
                return Some(self.entries[n - 1].1);
            }
            n = n - 1;
        }
        None
    }
}

impl<V: Copy> Clone for TextMap<V> {
    fn clone(&self) -> (r: TextMap<V>)
        ensures
            r.entries@ == self.entries@,
    {
        let mut entries: Vec<(String, V)> = Vec::new();
        let mut i: usize = 0;
        while i < self.entries.len()
            invariant
                i <= self.entries@.len(),
                entries@ == self.entries@.take(i as int),
            decreases self.entries@.len() - i,
        {
            entries.push((self.entries[i].0.clone(), self.entries[i].1));
            i = i + 1;
            assert(entries@ =~= self.entries@.take(i as int));
        }
        assert(entries@ =~= self.entries@);
        TextMap { entries }
    }
}

/// The value for a key is that of the last entry with that key.
pub proof fn the_last_entry_counts<V>(entries: Seq<(String, V)>, key: Seq<char>, i: int)
    requires
        0 <= i < entries.len(),
        entries[i].0@ == key,
        forall|j: int| i < j < entries.len() ==> (#[trigger] entries[j]).0@ != key,
    ensures
        lookup(entries, key) == Some(entries[i].1),
    decreases entries.len(),
{
    if i < entries.len() - 1 {
        let front = entries.drop_last();
        assert(entries.last() == entries[entries.len() - 1]);
        assert forall|j: int| i < j < front.len() implies (#[trigger] front[j]).0@ != key by {
            assert(front[j] == entries[j]);
        }
        the_last_entry_counts(front, key, i);
    }
}

/// A key that no entry has is without a value.
pub proof fn keys_without_an_entry_have_no_value<V>(entries: Seq<(String, V)>, key: Seq<char>)
    requires
        forall|j: int| 0 <= j < entries.len() ==> (#[trigger] entries[j]).0@ != key,
    ensures
        lookup(entries, key) is None,
{
    lookup_absent(entries, key);
}

} // verus!
