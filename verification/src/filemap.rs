//! A map from zone-rooted keys to entries that keeps the order in which
//! its keys first came.

use vstd::prelude::*;

verus! {

/// The index of the first entry of `entries` under `key`, or the length of
/// `entries` where there is none.
pub open spec fn index_of_key<T>(entries: Seq<(Seq<char>, T)>, key: Seq<char>) -> int
    decreases entries.len(),
{
    if entries.len() == 0 {
        0
    } else if entries[0].0 == key {
        0
    } else {
        1 + index_of_key(entries.drop_first(), key)
    }
}

/// Whether `entries` holds an entry under `key`.
pub open spec fn has_key<T>(entries: Seq<(Seq<char>, T)>, key: Seq<char>) -> bool {
    index_of_key(entries, key) < entries.len()
}

/// The entry of `entries` under `key`.
pub open spec fn lookup<T>(entries: Seq<(Seq<char>, T)>, key: Seq<char>) -> Option<T> {
    if has_key(entries, key) {
        Some(entries[index_of_key(entries, key)].1)
    } else {
        None
    }
}

/// `entries` with `value` under `key`: in place of the value that the key
/// had, or at the end where the key is new.
pub open spec fn put<T>(entries: Seq<(Seq<char>, T)>, key: Seq<char>, value: T) -> Seq<
    (Seq<char>, T),
> {
    if has_key(entries, key) {
        entries.update(index_of_key(entries, key), (key, value))
    } else {
        entries.push((key, value))
    }
}

/// No key occurs twice in `entries`.
pub open spec fn distinct_keys<T>(entries: Seq<(Seq<char>, T)>) -> bool {
    forall|i: int, j: int|
        0 <= i < entries.len() && 0 <= j < entries.len() && i != j ==> entries[i].0 != entries[j].0
}

/// What `index_of_key` finds: no entry before it has the key, and the entry
/// at it, if there is one, has.
pub proof fn lemma_index_of_key<T>(entries: Seq<(Seq<char>, T)>, key: Seq<char>)
    ensures
        0 <= index_of_key(entries, key) <= entries.len(),
        forall|j: int| 0 <= j < index_of_key(entries, key) ==> (#[trigger] entries[j]).0 != key,
        has_key(entries, key) ==> entries[index_of_key(entries, key)].0 == key,
        has_key(entries, key) <==> exists|j: int|
            0 <= j < entries.len() && (#[trigger] entries[j]).0 == key,
    decreases entries.len(),
{
    if entries.len() > 0 && entries[0].0 != key {
        let rest = entries.drop_first();
        lemma_index_of_key(rest, key);
        let r = index_of_key(rest, key);
        assert forall|j: int| 0 <= j < 1 + r implies (#[trigger] entries[j]).0 != key by {
            if j > 0 {
                assert(entries[j] == rest[j - 1]);
            }
        }
        if has_key(entries, key) {
            assert(entries[1 + r] == rest[r]);
        }
        if exists|j: int| 0 <= j < entries.len() && (#[trigger] entries[j]).0 == key {
            let j = choose|j: int| 0 <= j < entries.len() && (#[trigger] entries[j]).0 == key;
            assert(rest[j - 1] == entries[j]);
        }
    }
}

/// An entry found at `i` with no equal key before it is the one that
/// `index_of_key` finds.
pub proof fn lemma_index_of_key_is<T>(entries: Seq<(Seq<char>, T)>, key: Seq<char>, i: int)
    requires
        0 <= i <= entries.len(),
        forall|j: int| 0 <= j < i ==> (#[trigger] entries[j]).0 != key,
        i < entries.len() ==> entries[i].0 == key,
    ensures
        index_of_key(entries, key) == i,
{
    lemma_index_of_key(entries, key);
    let r = index_of_key(entries, key);
    if r < i {
        assert(entries[r].0 != key);
    }
    if i < r {
        assert(entries[i].0 != key);
    }
}

/// `put` keeps keys apart, stores the value under the key, and leaves every
/// other key as it was.
pub proof fn lemma_put<T>(entries: Seq<(Seq<char>, T)>, key: Seq<char>, value: T)
    requires
        distinct_keys(entries),
    ensures
        distinct_keys(put(entries, key, value)),
        lookup(put(entries, key, value), key) == Some(value),
        forall|other: Seq<char>|
            other != key ==> lookup(put(entries, key, value), other) == lookup(entries, other),
{
    let after = put(entries, key, value);
    lemma_index_of_key(entries, key);
    let at = index_of_key(entries, key);
    assert(distinct_keys(after)) by {
        assert forall|i: int, j: int|
            0 <= i < after.len() && 0 <= j < after.len() && i != j implies after[i].0
            != after[j].0 by {
            if has_key(entries, key) {
                assert(after[i].0 == entries[i].0);
                assert(after[j].0 == entries[j].0);
            } else {
                if i < entries.len() {
                    assert(after[i] == entries[i]);
                }
                if j < entries.len() {
                    assert(after[j] == entries[j]);
                }
            }
        }
    }
    assert(after[at] == (key, value));
    assert forall|j: int| 0 <= j < at implies (#[trigger] after[j]).0 != key by {
        assert(after[j] == entries[j]);
    }
    lemma_index_of_key_is(after, key, at);
    assert forall|other: Seq<char>| other != key implies lookup(after, other) == lookup(
        entries,
        other,
    ) by {
        lemma_index_of_key(entries, other);
        let o = index_of_key(entries, other);
        assert forall|j: int| 0 <= j < o && j < after.len() implies (#[trigger] after[j]).0
            != other by {
            if j < entries.len() && j != at {
                assert(after[j] == entries[j]);
            }
        }
        if o < entries.len() {
            assert(o != at);
            assert(after[o] == entries[o]);
            lemma_index_of_key_is(after, other, o);
        } else {
            if !has_key(entries, key) {
                assert(after[o].0 == key);
                assert forall|j: int| 0 <= j < after.len() implies (#[trigger] after[j]).0
                    != other by {
                    if j < entries.len() {
                        assert(after[j] == entries[j]);
                    }
                }
                lemma_index_of_key_is(after, other, after.len() as int);
            } else {
                lemma_index_of_key_is(after, other, o);
            }
        }
    }
}

/// A map from keys to entries of type `T`, with each key once.
///
/// The entries stand in the order in which their keys were first put in; a
/// later value for a key takes the place of the earlier one. A key is
/// looked up by going through the entries in order.
pub struct FileMap<T> {
    keys: Vec<String>,
    values: Vec<T>,
}

impl<T> FileMap<T> {
    /// The keys with their values, in order.
    pub closed spec fn entries(&self) -> Seq<(Seq<char>, T)> {
        Seq::new(self.keys@.len(), |i: int| (self.keys@[i]@, self.values@[i]))
    }

    /// The map is well formed: every key has its value, and no key occurs
    /// twice.
    pub closed spec fn wf(&self) -> bool {
        self.keys@.len() == self.values@.len() && distinct_keys(self.entries())
    }

    /// The map as a mathematical one.
    pub open spec fn view(&self) -> Map<Seq<char>, T> {
        Map::new(
            |k: Seq<char>| has_key(self.entries(), k),
            |k: Seq<char>| self.entries()[index_of_key(self.entries(), k)].1,
        )
    }

    /// In a well-formed map no key occurs twice.
    pub proof fn lemma_distinct(&self)
        requires
            self.wf(),
        ensures
            distinct_keys(self.entries()),
    {
    }

    /// The empty map.
    pub fn new() -> (r: Self)
        ensures
            r.wf(),
            r.entries() == Seq::<(Seq<char>, T)>::empty(),
    {
        let r = FileMap { keys: Vec::new(), values: Vec::new() };
        proof {
            assert(r.entries() =~= Seq::<(Seq<char>, T)>::empty());
        }
        r
    }

    /// The number of keys.
    pub fn len(&self) -> (r: usize)
        requires
            self.wf(),
        ensures
            r == self.entries().len(),
    {
        self.keys.len()
    }

    /// The key at position `i`.
    pub fn key(&self, i: usize) -> (r: &String)
        requires
            self.wf(),
            i < self.entries().len(),
        ensures
            r@ == self.entries()[i as int].0,
    {
        &self.keys[i]
    }

    /// The value at position `i`.
    pub fn value(&self, i: usize) -> (r: &T)
        requires
            self.wf(),
            i < self.entries().len(),
        ensures
            *r == self.entries()[i as int].1,
    {
        &self.values[i]
    }

    /// The position of `key`, or the number of keys where the map does not
    /// hold it.
    pub fn position(&self, key: &String) -> (r: usize)
        requires
            self.wf(),
        ensures
            r == index_of_key(self.entries(), key@),
    {
        let mut i: usize = 0;
        while i < self.keys.len()
            invariant
                i <= self.keys@.len(),
                self.keys@.len() == self.entries().len(),
                forall|j: int| 0 <= j < i ==> (#[trigger] self.entries()[j]).0 != key@,
            decreases self.keys.len() - i,
        {
            if self.keys[i] == *key {
                proof {
                    assert(self.entries()[i as int].0 == key@);
                    lemma_index_of_key_is(self.entries(), key@, i as int);
                }
                return i;
            }
            proof {
                assert(self.entries()[i as int].0 == self.keys@[i as int]@);
            }
            i += 1;
        }
        proof {
            lemma_index_of_key_is(self.entries(), key@, i as int);
        }
        i
    }

    /// Whether the map holds `key`.
    pub fn contains_key(&self, key: &String) -> (r: bool)
        requires
            self.wf(),
        ensures
            r == has_key(self.entries(), key@),
            r == self@.contains_key(key@),
    {
        self.position(key) < self.keys.len()
    }

    /// The value under `key`.
    pub fn get(&self, key: &String) -> (r: Option<&T>)
        requires
            self.wf(),
        ensures
            r.is_some() == has_key(self.entries(), key@),
            r.is_some() ==> Some(*r.unwrap()) == lookup(self.entries(), key@),
            r.is_some() ==> *r.unwrap() == self@[key@],
    {
        let at = self.position(key);
        if at < self.keys.len() {
            Some(&self.values[at])
        } else {
            None
        }
    }

    /// Puts `value` under `key`, in place of the value that the key had.
    pub fn insert(&mut self, key: String, value: T)
        requires
            old(self).wf(),
        ensures
            final(self).wf(),
            final(self).entries() == put(old(self).entries(), key@, value),
            final(self)@ == old(self)@.insert(key@, value),
    {
        let at = self.position(&key);
        proof {
            lemma_put(self.entries(), key@, value);
            lemma_index_of_key(self.entries(), key@);
        }
        let ghost before = self.entries();
        if at < self.keys.len() {
            self.values.set(at, value);
            proof {
                let after = before.update(at as int, (key@, value));
                assert(before[at as int].0 == key@);
                assert(self.entries().len() == after.len());
                assert forall|i: int| 0 <= i < after.len() implies self.entries()[i]
                    == after[i] by {
                    if i != at {
                        assert(before[i] == (self.keys@[i]@, self.values@[i]));
                    }
                }
                assert(self.entries() =~= after);
            }
        } else {
            self.keys.push(key);
            self.values.push(value);
            proof {
                let after = before.push((key@, value));
                assert(self.entries().len() == after.len());
                assert forall|i: int| 0 <= i < after.len() implies self.entries()[i]
                    == after[i] by {
                    if i < before.len() {
                        assert(before[i] == (self.keys@[i]@, self.values@[i]));
                    }
                }
                assert(self.entries() =~= after);
            }
        }
        proof {
            assert(self.entries() == put(before, key@, value));
            assert forall|k: Seq<char>| #[trigger]
                self@.contains_key(k) == old(self)@.insert(key@, value).contains_key(k) by {
                if k != key@ {
                    assert(lookup(self.entries(), k) == lookup(old(self).entries(), k));
                }
            }
            assert forall|k: Seq<char>| self@.contains_key(k) implies #[trigger] self@[k] == old(
                self,
            )@.insert(key@, value)[k] by {
                if k != key@ {
                    assert(lookup(self.entries(), k) == lookup(old(self).entries(), k));
                }
            }
            assert(self@ =~= old(self)@.insert(key@, value));
        }
    }
}

} // verus!
