//! Interning tables: which structural key was seen first, second, third.
//!
//! A key is a list of lists of integers. Equality and hashing of such lists
//! are the standard library's own, element by element, so the insertion-ordered
//! hash map of the `indexmap` crate finds a key exactly when an equal list was
//! inserted before.

use indexmap::IndexMap;
use vstd::prelude::*;

verus! {

/// `indexmap::IndexMap`, the hash map that keeps its entries in the order
/// of insertion. Nothing is known of what a value of it holds but what the
/// functions below say.
#[verifier::external_type_specification]
#[verifier::external_body]
#[verifier::reject_recursive_types(K)]
#[verifier::reject_recursive_types(V)]
#[verifier::reject_recursive_types(S)]
pub struct ExIndexMap<K, V, S>(IndexMap<K, V, S>);

/// A structural key as mathematics sees it.
pub open spec fn key_view(key: Vec<Vec<u64>>) -> Seq<Seq<u64>> {
    key@.map_values(|part: Vec<u64>| part@)
}

/// The entries of a map, in the order in which their keys were inserted.
pub uninterp spec fn index_map_entries(map: IndexMap<Vec<Vec<u64>>, usize>) -> Seq<
    (Seq<Seq<u64>>, usize),
>;

/// Whether `key` is the key of an entry of `entries`.
pub open spec fn has_key(entries: Seq<(Seq<Seq<u64>>, usize)>, key: Seq<Seq<u64>>) -> bool {
    exists|i: int| 0 <= i < entries.len() && (#[trigger] entries[i]).0 == key
}

/// `IndexMap::new` makes a map without entries.
#[verifier::external_body]
pub(crate) fn index_map_new() -> (map: IndexMap<Vec<Vec<u64>>, usize>)
    ensures
        index_map_entries(map) == Seq::<(Seq<Seq<u64>>, usize)>::empty(),
{
    IndexMap::new()
}

/// `IndexMap::get` returns the value stored for a key equal to `key`, and
/// `None` when no entry has such a key.
#[verifier::external_body]
pub(crate) fn index_map_get(map: &IndexMap<Vec<Vec<u64>>, usize>, key: &Vec<Vec<u64>>) -> (found:
    Option<usize>)
    ensures
        match found {
            Some(value) => exists|i: int|
                0 <= i < index_map_entries(*map).len() && #[trigger] index_map_entries(*map)[i]
                    == (key_view(*key), value),
            None => !has_key(index_map_entries(*map), key_view(*key)),
        },
{
    map.get(key).copied()
}

/// `IndexMap::insert` with a key that no entry has puts the new entry last
/// and leaves the others as they were.
#[verifier::external_body]
pub(crate) fn index_map_insert(
    map: &mut IndexMap<Vec<Vec<u64>>, usize>,
    key: Vec<Vec<u64>>,
    value: usize,
)
    requires
        !has_key(index_map_entries(*old(map)), key_view(key)),
    ensures
        index_map_entries(*final(map)) == index_map_entries(*old(map)).push(
            (key_view(key), value),
        ),
{
    map.insert(key, value);
}

/// `IndexMap::len` returns the number of entries.
#[verifier::external_body]
pub(crate) fn index_map_len(map: &IndexMap<Vec<Vec<u64>>, usize>) -> (n: usize)
    ensures
        n == index_map_entries(*map).len(),
{
    map.len()
}

/// The key of a text: the code of each character.
pub open spec fn text_key(s: Seq<char>) -> Seq<u64> {
    s.map_values(|c: char| c as u64)
}

/// Characters with the same code are the same character.
pub proof fn lemma_char_code_injective(a: char, b: char)
    requires
        a as u64 == b as u64,
    ensures
        a == b,
{
}

/// Texts with the same key are the same text.
pub proof fn lemma_text_key_injective(a: Seq<char>, b: Seq<char>)
    requires
        text_key(a) == text_key(b),
    ensures
        a == b,
{
    assert(a.len() == text_key(a).len());
    assert(b.len() == text_key(b).len());
    assert forall|i: int| 0 <= i < a.len() implies a[i] == b[i] by {
        assert(text_key(a)[i] == a[i] as u64);
        assert(text_key(b)[i] == b[i] as u64);
        lemma_char_code_injective(a[i], b[i]);
    }
    assert(a =~= b);
}

/// The code of an integer between `-2^63` and `2^64 - 1`: itself, or its
/// two's complement when it is negative.
pub open spec fn whole_code(n: int) -> u64 {
    if n < 0 {
        (n + 0x1_0000_0000_0000_0000) as u64
    } else {
        n as u64
    }
}

/// The key of a text.
pub fn text_key_of(s: &Vec<char>) -> (key: Vec<u64>)
    ensures
        key@ == text_key(s@),
{
    let mut key: Vec<u64> = Vec::new();
    let mut i: usize = 0;
    while i < s.len()
        invariant
            i <= s.len(),
            key@.len() == i,
            forall|j: int| 0 <= j < i ==> key@[j] == s@[j] as u64,
        decreases s.len() - i,
    {
        key.push(s[i] as u64);
        i += 1;
    }
    assert(key@ =~= text_key(s@));
    key
}

/// A table that numbers structural keys in the order in which they are first
/// seen: the first key gets 0, the next new one 1, and so on.
#[derive(Debug)]
pub struct Interner {
    map: IndexMap<Vec<Vec<u64>>, usize>,
}

impl View for Interner {
    type V = Seq<Seq<Seq<u64>>>;

    /// The keys, in the order of their numbers.
    closed spec fn view(&self) -> Seq<Seq<Seq<u64>>> {
        index_map_entries(self.map).map_values(|entry: (Seq<Seq<u64>>, usize)| entry.0)
    }
}

impl Interner {
    /// The entries are numbered in order and no key occurs twice.
    pub closed spec fn wf(self) -> bool {
        &&& forall|i: int|
            0 <= i < index_map_entries(self.map).len() ==> (#[trigger] index_map_entries(
                self.map,
            )[i]).1 == i
        &&& forall|i: int, j: int|
            0 <= i < j < index_map_entries(self.map).len() ==> (#[trigger] index_map_entries(
                self.map,
            )[i]).0 != (#[trigger] index_map_entries(self.map)[j]).0
    }

    /// A table without keys.
    pub fn new() -> (r: Interner)
        ensures
            r.wf(),
            r@ == Seq::<Seq<Seq<u64>>>::empty(),
    {
        let r = Interner { map: index_map_new() };
        assert(r@ =~= Seq::<Seq<Seq<u64>>>::empty());
        r
    }

    /// A well-formed table holds no key twice.
    pub proof fn lemma_no_duplicates(self)
        requires
            self.wf(),
        ensures
            self@.no_duplicates(),
    {
        self.lemma_view();
    }

    proof fn lemma_view(self)
        requires
            self.wf(),
        ensures
            self@.len() == index_map_entries(self.map).len(),
            self@.no_duplicates(),
            forall|i: int|
                0 <= i < self@.len() ==> #[trigger] self@[i] == index_map_entries(self.map)[i].0,
    {
        assert forall|i: int, j: int| 0 <= i < self@.len() && 0 <= j < self@.len() && i != j implies self@[i]
            != self@[j] by {
            if i < j {
                assert(index_map_entries(self.map)[i].0 != index_map_entries(self.map)[j].0);
            } else {
                assert(index_map_entries(self.map)[j].0 != index_map_entries(self.map)[i].0);
            }
        }
    }

    /// The number of `key`, if the table holds it.
    pub fn find(&self, key: &Vec<Vec<u64>>) -> (r: Option<usize>)
        requires
            self.wf(),
        ensures
            match r {
                Some(n) => n < self@.len() && self@[n as int] == key_view(*key),
                None => !self@.contains(key_view(*key)),
            },
    {
        proof {
            self.lemma_view();
        }
        let found = index_map_get(&self.map, key);
        proof {
            match found {
                Some(value) => {
                    let i = choose|i: int|
                        0 <= i < index_map_entries(self.map).len() && #[trigger] index_map_entries(
                            self.map,
                        )[i] == (key_view(*key), value);
                    assert(index_map_entries(self.map)[i].1 == i);
                    assert(self@[i] == key_view(*key));
                },
                None => {
                    if self@.contains(key_view(*key)) {
                        let i = choose|i: int| 0 <= i < self@.len() && self@[i] == key_view(*key);
                        assert(index_map_entries(self.map)[i].0 == key_view(*key));
                        assert(has_key(index_map_entries(self.map), key_view(*key)));
                    }
                },
            }
        }
        found
    }

    /// Gives a key that the table does not hold the next number.
    pub fn add(&mut self, key: Vec<Vec<u64>>) -> (n: usize)
        requires
            old(self).wf(),
            !old(self)@.contains(key_view(key)),
        ensures
            final(self).wf(),
            n == old(self)@.len(),
            final(self)@ == old(self)@.push(key_view(key)),
    {
        proof {
            self.lemma_view();
            if has_key(index_map_entries(self.map), key_view(key)) {
                let i = choose|i: int|
                    0 <= i < index_map_entries(self.map).len() && (#[trigger] index_map_entries(
                        self.map,
                    )[i]).0 == key_view(key);
                assert(self@[i] == key_view(key));
            }
        }
        let n: usize = index_map_len(&self.map);
        let ghost before = index_map_entries(self.map);
        let ghost before_keys = self@;
        let ghost added = key_view(key);
        index_map_insert(&mut self.map, key, n);
        proof {
            let after = index_map_entries(self.map);
            assert(after == before.push((added, n)));
            assert forall|i: int, j: int| 0 <= i < j < after.len() implies (#[trigger] after[i]).0 != (
            #[trigger] after[j]).0 by {
                if j < n {
                    assert(before[i].0 != before[j].0);
                } else {
                    assert(before_keys[i] == before[i].0);
                    assert(before_keys.contains(before_keys[i]));
                }
            }
            assert(self@ =~= before_keys.push(added));
        }
        n
    }
}

} // verus!
