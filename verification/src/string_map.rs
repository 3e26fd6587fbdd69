//! A map from texts to values, small enough to be searched in order.
use vstd::prelude::*;
use crate::text::same_text;

verus! {

/// A map keyed by text. Entries are kept in the order in which they were set,
/// and a later entry hides an earlier one of the same key.
pub struct StringMap<V> {
    entries: Vec<(String, V)>,
}

/// What a list of entries maps: the last entry of a key decides.
pub open spec fn entries_map<V>(entries: Seq<(String, V)>) -> Map<Seq<char>, V>
    decreases entries.len(),
{
    if entries.len() == 0 {
        Map::empty()
    } else {
        entries_map(entries.drop_last()).insert(entries.last().0@, entries.last().1)
    }
}

/// Entries of other keys after position `n` change nothing for `key`.
proof fn lemma_later_keys_differ<V>(entries: Seq<(String, V)>, n: int, key: Seq<char>)
    requires
        0 <= n <= entries.len(),
        forall|i: int| n <= i < entries.len() ==> (#[trigger] entries[i]).0@ != key,
    ensures
        entries_map(entries).contains_key(key) == entries_map(entries.take(n)).contains_key(key),
        entries_map(entries).contains_key(key) ==> entries_map(entries)[key] == entries_map(
            entries.take(n),
        )[key],
    decreases entries.len(),
{
    if n == entries.len() {
        assert(entries.take(n) =~= entries);
    } else {
        let shorter = entries.drop_last();
        assert forall|i: int| n <= i < shorter.len() implies (#[trigger] shorter[i]).0@ != key by {
            assert(shorter[i] == entries[i]);
        }
        lemma_later_keys_differ(shorter, n, key);
        assert(shorter.take(n) =~= entries.take(n));
        assert(entries[entries.len() - 1].0@ != key);
    }
}

impl<V> View for StringMap<V> {
    type V = Map<Seq<char>, V>;

    closed spec fn view(&self) -> Map<Seq<char>, V> {
        entries_map(self.entries@)
    }
}

impl<V> StringMap<V> {
    pub fn new() -> (r: StringMap<V>)
        ensures
            r@ == Map::<Seq<char>, V>::empty(),
    {
        StringMap { entries: Vec::new() }
    }

    /// Sets one key; what it held before is hidden.
    pub fn insert(&mut self, key: String, value: V)
        ensures
            final(self)@ == old(self)@.insert(key@, value),
    {
        self.entries.push((key, value));
        assert(self.entries@.drop_last() =~= old(self).entries@);
    }

    pub fn get(&self, key: &str) -> (r: Option<&V>)
        ensures
            match r {
                Some(v) => self@.contains_key(key@) && self@[key@] == *v,
                None => !self@.contains_key(key@),
            },
    {
        let mut n: usize = self.entries.len();
        while n > 0
            invariant
                n <= self.entries.len(),
                forall|i: int|
                    n <= i < self.entries.len() ==> (#[trigger] self.entries@[i]).0@ != key@,
            decreases n,
        {
            if same_text(self.entries[n - 1].0.as_str(), key) {
                proof {
                    lemma_later_keys_differ(self.entries@, n as int, key@);
                    assert(self.entries@.take(n as int).last() == self.entries@[n - 1]);
                }
                return Some(&self.entries[n - 1].1);
            }
            n -= 1;
        }
        proof {
            lemma_later_keys_differ(self.entries@, 0, key@);
        }
        None
    }
}

} // verus!
