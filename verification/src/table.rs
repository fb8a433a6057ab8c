//! A map from texts to values that remembers the order in which its keys
//! came. It is a list of pairs in which the first pair with a key counts;
//! inserting never adds a key twice.

use vstd::prelude::*;

verus! {

/// The position of the first pair with `key`, or the length of the list
/// where no pair has it.
pub open spec fn position_of<V>(entries: Seq<(Seq<char>, V)>, key: Seq<char>) -> int
    decreases entries.len(),
{
    if entries.len() == 0 {
        0
    } else if entries[0].0 == key {
        0
    } else {
        1 + position_of(entries.skip(1), key)
    }
}

/// `position_of` is the least position that holds the key.
pub proof fn lemma_position_of<V>(entries: Seq<(Seq<char>, V)>, key: Seq<char>)
    ensures
        0 <= position_of(entries, key) <= entries.len(),
        position_of(entries, key) < entries.len() ==> entries[position_of(entries, key)].0 == key,
        forall|k: int| 0 <= k < position_of(entries, key) ==> (#[trigger] entries[k]).0 != key,
    decreases entries.len(),
{
    if entries.len() > 0 && entries[0].0 != key {
        let rest = entries.skip(1);
        lemma_position_of(rest, key);
        assert forall|k: int| 0 <= k < position_of(entries, key) implies (#[trigger] entries[k]).0
            != key by {
            if k > 0 {
                assert(entries[k] == rest[k - 1]);
            }
        }
    }
}

/// A position that holds the key, with no earlier one that does, is the
/// key's position.
pub proof fn lemma_position_is<V>(entries: Seq<(Seq<char>, V)>, key: Seq<char>, p: int)
    requires
        0 <= p <= entries.len(),
        p < entries.len() ==> entries[p].0 == key,
        forall|k: int| 0 <= k < p ==> (#[trigger] entries[k]).0 != key,
    ensures
        position_of(entries, key) == p,
{
    lemma_position_of(entries, key);
    let q = position_of(entries, key);
    if q < p {
        assert(entries[q].0 != key);
    }
}

/// Two lists with the same keys hold each key at the same place.
pub proof fn lemma_same_positions<V, W>(
    a: Seq<(Seq<char>, V)>,
    b: Seq<(Seq<char>, W)>,
    key: Seq<char>,
)
    requires
        a.len() == b.len(),
        forall|i: int| 0 <= i < a.len() ==> (#[trigger] a[i]).0 == (#[trigger] b[i]).0,
    ensures
        position_of(a, key) == position_of(b, key),
    decreases a.len(),
{
    if a.len() > 0 {
        assert(a[0].0 == b[0].0);
        if a[0].0 != key {
            assert forall|i: int| 0 <= i < a.skip(1).len() implies (#[trigger] a.skip(1)[i]).0 == (
            #[trigger] b.skip(1)[i]).0 by {
                assert(a[i + 1].0 == b[i + 1].0);
            }
            lemma_same_positions(a.skip(1), b.skip(1), key);
        }
    }
}

/// The value of the first pair with `key`, if there is one.
pub open spec fn lookup<V>(entries: Seq<(Seq<char>, V)>, key: Seq<char>) -> Option<V> {
    if position_of(entries, key) < entries.len() {
        Some(entries[position_of(entries, key)].1)
    } else {
        None
    }
}

/// The list with `value` beside `key`: in the place of the first pair with
/// the key, or as a new last pair where the key was not there.
pub open spec fn inserted<V>(entries: Seq<(Seq<char>, V)>, key: Seq<char>, value: V) -> Seq<
    (Seq<char>, V),
> {
    if position_of(entries, key) < entries.len() {
        entries.update(position_of(entries, key), (key, value))
    } else {
        entries.push((key, value))
    }
}

/// No two pairs of the list have one key.
pub open spec fn distinct_keys<V>(entries: Seq<(Seq<char>, V)>) -> bool {
    forall|i: int, j: int|
        0 <= i < j < entries.len() ==> (#[trigger] entries[i]).0 != (#[trigger] entries[j]).0
}

/// Inserting keeps the keys distinct, and the key then has the value.
pub proof fn lemma_inserted<V>(entries: Seq<(Seq<char>, V)>, key: Seq<char>, value: V)
    ensures
        lookup(inserted(entries, key, value), key) == Some(value),
        distinct_keys(entries) ==> distinct_keys(inserted(entries, key, value)),
        forall|other: Seq<char>|
            other != key ==> lookup(inserted(entries, key, value), other) == lookup(
                entries,
                other,
            ),
{
    lemma_position_of(entries, key);
    let p = position_of(entries, key);
    let after = inserted(entries, key, value);
    lemma_position_is(after, key, p);
    assert forall|other: Seq<char>| other != key implies lookup(after, other) == lookup(
        entries,
        other,
    ) by {
        lemma_position_of(entries, other);
        let q = position_of(entries, other);
        if q < entries.len() {
            assert(q != p);
        }
        lemma_position_is(after, other, if q < entries.len() {
            q
        } else {
            after.len() as int
        });
    }
}

/// A map keyed by text. Keys keep the order of their first insertion.
pub struct StrMap<V> {
    entries: Vec<(String, V)>,
}

impl<V> StrMap<V> {
    /// The pairs of the map, in the order of their first insertion.
    pub closed spec fn entries(&self) -> Seq<(Seq<char>, V)> {
        Seq::new(self.entries@.len(), |i: int| (self.entries@[i].0@, self.entries@[i].1))
    }

    /// The value that stands beside `key`, if the key is there.
    pub open spec fn get_spec(&self, key: Seq<char>) -> Option<V> {
        lookup(self.entries(), key)
    }

    /// A map without keys.
    pub fn new() -> (r: Self)
        ensures
            r.entries() == Seq::<(Seq<char>, V)>::empty(),
    {
        let r = StrMap { entries: Vec::new() };
        assert(r.entries() =~= Seq::<(Seq<char>, V)>::empty());
        r
    }

    /// The number of pairs.
    pub fn len(&self) -> (n: usize)
        ensures
            n == self.entries().len(),
    {
        self.entries.len()
    }

    /// The key at a position.
    pub(crate) fn key(&self, i: usize) -> (r: &String)
        requires
            i < self.entries().len(),
        ensures
            r@ == self.entries()[i as int].0,
    {
        &self.entries[i].0
    }

    /// The value at a position.
    pub(crate) fn value(&self, i: usize) -> (r: &V)
        requires
            i < self.entries().len(),
        ensures
            *r == self.entries()[i as int].1,
    {
        &self.entries[i].1
    }

    /// Where the first pair with `key` stands, or the number of pairs where
    /// there is none.
    pub fn position(&self, key: &str) -> (r: usize)
        ensures
            r == position_of(self.entries(), key@),
            r <= self.entries().len(),
    {
        let wanted: String = key.to_owned();
        let mut i: usize = 0;
        while i < self.entries.len()
            invariant
                i <= self.entries@.len(),
                wanted@ == key@,
                forall|k: int| 0 <= k < i ==> (#[trigger] self.entries()[k]).0 != key@,
            decreases self.entries.len() - i,
        {
            if self.entries[i].0 == wanted {
                proof {
                    lemma_position_is(self.entries(), key@, i as int);
                }
                return i;
            }
            i = i + 1;
        }
        proof {
            lemma_position_is(self.entries(), key@, i as int);
        }
        i
    }

    /// The value that stands beside `key`, if the key is there.
    pub fn get(&self, key: &str) -> (r: Option<&V>)
        ensures
            match r {
                Some(v) => self.get_spec(key@) == Some(*v),
                None => self.get_spec(key@) is None,
            },
    {
        let i = self.position(key);
        if i < self.entries.len() {
            Some(&self.entries[i].1)
        } else {
            None
        }
    }

    /// Puts `value` beside `key`: in the place of the value that the key
    /// had, or with the key as the last one if it was not there.
    pub fn insert(&mut self, key: String, value: V)
        ensures
            final(self).entries() == inserted(old(self).entries(), key@, value),
    {
        let i = self.position(key.as_str());
        if i < self.entries.len() {
            self.entries.push((key, value));
            self.entries.swap_remove(i);
        } else {
            self.entries.push((key, value));
        }
        assert(self.entries() =~= inserted(old(self).entries(), key@, value));
    }

    /// The pairs themselves, in their order.
    pub(crate) fn into_entries(self) -> (r: Vec<(String, V)>)
        ensures
            r@.len() == self.entries().len(),
            forall|i: int|
                0 <= i < r@.len() ==> (#[trigger] r@[i]).0@ == self.entries()[i].0 && r@[i].1
                    == self.entries()[i].1,
    {
        self.entries
    }

    /// Adds a pair at the end, whether or not the key is there already.
    pub(crate) fn push(&mut self, key: String, value: V)
        ensures
            final(self).entries() == old(self).entries().push((key@, value)),
    {
        self.entries.push((key, value));
        assert(self.entries() =~= old(self).entries().push((key@, value)));
    }

    /// Puts `value` at a position and hands out the value that stood there.
    pub(crate) fn replace(&mut self, i: usize, value: V) -> (r: V)
        requires
            i < old(self).entries().len(),
        ensures
            r == old(self).entries()[i as int].1,
            final(self).entries() == old(self).entries().update(
                i as int,
                (old(self).entries()[i as int].0, value),
            ),
    {
        let key = self.entries[i].0.clone();
        self.entries.push((key, value));
        let r = self.entries.swap_remove(i);
        assert(self.entries() =~= old(self).entries().update(
            i as int,
            (old(self).entries()[i as int].0, value),
        ));
        r.1
    }
}

} // verus!
