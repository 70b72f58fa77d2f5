//! A small keyed table: character-sequence keys, each bound to one value,
//! held in insertion order and searched front to back.

use crate::text::{first_index, lemma_first_index, lemma_first_index_is_first, lower, lower_matches};
use vstd::prelude::*;

verus! {

/// One binding of a table.
struct Entry<V> {
    key: Vec<char>,
    value: V,
}

/// Keys bound to values. The table's meaning is the map returned by
/// [`Table::map`]; no key is bound twice in it, whatever the entries hold.
pub struct Table<V> {
    entries: Vec<Entry<V>>,
}

impl<V> Table<V> {
    /// The keys of the entries, in order.
    pub closed spec fn keys(&self) -> Seq<Seq<char>> {
        Seq::new(self.entries@.len(), |i: int| self.entries@[i].key@)
    }

    /// The value of the entry at `i`.
    pub closed spec fn value_at(&self, i: int) -> V {
        self.entries@[i].value
    }

    /// The bindings: a key is bound when some entry has it, and it is bound
    /// to the value of the first such entry.
    pub open spec fn map(&self) -> Map<Seq<char>, V> {
        Map::new(
            |k: Seq<char>| first_index(self.keys(), k) < self.keys().len(),
            |k: Seq<char>| self.value_at(first_index(self.keys(), k) as int),
        )
    }

    /// Whether no key stands in two entries. It holds of a new table, and
    /// binding a key keeps it.
    pub closed spec fn no_key_twice(&self) -> bool {
        forall|i: int, j: int|
            0 <= i < j < self.keys().len() ==> self.keys()[i] != self.keys()[j]
    }

    /// A table without bindings.
    pub fn new() -> (table: Self)
        ensures
            table.map() == Map::<Seq<char>, V>::empty(),
            table.no_key_twice(),
    {
        let table = Table { entries: Vec::new() };
        assert(table.keys() =~= Seq::<Seq<char>>::empty());
        assert(table.map() =~= Map::<Seq<char>, V>::empty());
        table
    }

    /// The position of the first entry whose key is the ASCII lower-case
    /// form of `chars[from..to]`.
    fn position(&self, chars: &Vec<char>, from: usize, to: usize) -> (r: Option<usize>)
        requires
            from <= to <= chars.len(),
        ensures
            r matches Some(i) ==> i < self.keys().len() && i == first_index(
                self.keys(),
                lower(chars@.subrange(from as int, to as int)),
            ),
            r is None ==> first_index(
                self.keys(),
                lower(chars@.subrange(from as int, to as int)),
            ) == self.keys().len(),
    {
        let ghost wanted = lower(chars@.subrange(from as int, to as int));
        let mut i: usize = 0;
        while i < self.entries.len()
            invariant
                from <= to <= chars.len(),
                i <= self.entries.len(),
                wanted == lower(chars@.subrange(from as int, to as int)),
                forall|k: int| 0 <= k < i ==> self.keys()[k] != wanted,
            decreases self.entries.len() - i,
        {
            if lower_matches(chars, from, to, &self.entries[i].key) {
                proof {
                    lemma_first_index(self.keys(), wanted, i as int);
                }
                return Some(i);
            }
            i += 1;
        }
        proof {
            lemma_first_index(self.keys(), wanted, i as int);
        }
        None
    }

    /// The value bound to the ASCII lower-case form of `chars[from..to]`.
    pub fn get(&self, chars: &Vec<char>, from: usize, to: usize) -> (r: Option<&V>)
        requires
            from <= to <= chars.len(),
        ensures
            r matches Some(v) ==> self.map().contains_key(
                lower(chars@.subrange(from as int, to as int)),
            ) && *v == self.map()[lower(chars@.subrange(from as int, to as int))],
            r is None ==> !self.map().contains_key(lower(chars@.subrange(from as int, to as int))),
    {
        match self.position(chars, from, to) {
            Some(i) => Some(&self.entries[i].value),
            None => None,
        }
    }

    /// Binds `key` to `value`, replacing the value that `key` was bound to.
    pub fn insert(&mut self, key: Vec<char>, value: V)
        ensures
            final(self).map() == old(self).map().insert(key@, value),
            old(self).no_key_twice() ==> final(self).no_key_twice(),
    {
        let ghost before = *self;
        let ghost wanted = key@;
        let mut i: usize = 0;
        while i < self.entries.len()
            invariant
                *self == before,
                before == *old(self),
                i <= self.entries.len(),
                wanted == key@,
                forall|k: int| 0 <= k < i ==> self.keys()[k] != wanted,
            decreases self.entries.len() - i,
        {
            if same_chars(&self.entries[i].key, &key) {
                proof {
                    lemma_first_index(self.keys(), wanted, i as int);
                }
                self.entries.set(i, Entry { key, value });
                assert(self.keys() =~= before.keys());
                assert forall|k: Seq<char>|
                    k != wanted && first_index(self.keys(), k)
                        < self.keys().len() implies self.value_at(
                    first_index(self.keys(), k) as int,
                ) == before.value_at(first_index(self.keys(), k) as int) by {
                    lemma_first_index_is_first(self.keys(), k);
                }
                assert(self.map() =~= before.map().insert(wanted, value));
                return ;
            }
            i += 1;
        }
        self.entries.push(Entry { key, value });
        proof {
            lemma_first_index(before.keys(), wanted, before.keys().len() as int);
            assert(self.keys() =~= before.keys().push(wanted));
            assert forall|k: Seq<char>|
                first_index(self.keys(), k) == (if k == wanted || first_index(before.keys(), k)
                    < before.keys().len() {
                    first_index(before.keys(), k)
                } else {
                    self.keys().len()
                }) by {
                lemma_first_index_is_first(before.keys(), k);
                let at = first_index(before.keys(), k) as int;
                if k == wanted || at < before.keys().len() {
                    lemma_first_index(self.keys(), k, at);
                } else {
                    lemma_first_index(self.keys(), k, self.keys().len() as int);
                }
            }
            assert(self.map() =~= before.map().insert(wanted, value));
        }
    }
}

/// Whether two character vectors hold the same characters.
pub fn same_chars(a: &Vec<char>, b: &Vec<char>) -> (r: bool)
    ensures
        r == (a@ == b@),
{
    if a.len() != b.len() {
        return false;
    }
    let mut i: usize = 0;
    while i < a.len()
        invariant
            a.len() == b.len(),
            i <= a.len(),
            forall|k: int| 0 <= k < i ==> a@[k] == b@[k],
        decreases a.len() - i,
    {
        if a[i] != b[i] {
            return false;
        }
        i += 1;
    }
    assert(a@ =~= b@);
    true
}

} // verus!
