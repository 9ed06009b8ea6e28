//! A keyed collection: string keys mapped to owned values, held as a
//! vector of pairs whose keys are strictly ascending.
//!
//! Rooms and homes are such collections. Keeping the entries sorted
//! makes the keys unique, gives lookups and removals an exact map
//! semantics, and makes the report order deterministic: walking the
//! entries front to back is walking the keys in ascending lexical
//! order.

use vstd::prelude::*;
use vstd::std_specs::vec::{vec_index, vec_index_mut};
use crate::order::{
    KeyOrder, lemma_lex_lt_asymmetric, lemma_lex_lt_irreflexive, lemma_lex_lt_transitive,
    lex_lt, str_compare,
};

verus! {

/// The finite map that an association sequence denotes; later entries
/// win, though a sorted sequence never repeats a key.
pub open spec fn assoc_map<V>(s: Seq<(Seq<char>, V)>) -> Map<Seq<char>, V>
    decreases s.len(),
{
    if s.len() == 0 {
        Map::empty()
    } else {
        assoc_map(s.drop_last()).insert(s.last().0, s.last().1)
    }
}

/// The keys of the entries are pairwise strictly ascending.
pub open spec fn keys_sorted<V>(s: Seq<(Seq<char>, V)>) -> bool {
    forall|i: int, j: int| 0 <= i < j < s.len() ==> lex_lt(#[trigger] s[i].0, #[trigger] s[j].0)
}

/// Sorted keys are pairwise distinct.
pub proof fn lemma_sorted_keys_distinct<V>(s: Seq<(Seq<char>, V)>)
    requires
        keys_sorted(s),
    ensures
        forall|i: int, j: int|
            0 <= i < s.len() && 0 <= j < s.len() && i != j ==> #[trigger] s[i].0 != #[trigger] s[j].0,
{
    assert forall|i: int, j: int|
        0 <= i < s.len() && 0 <= j < s.len() && i != j implies #[trigger] s[i].0 != #[trigger] s[j].0 by {
        if i < j {
            if s[i].0 == s[j].0 {
                lemma_lex_lt_irreflexive(s[i].0);
            }
        } else {
            if s[i].0 == s[j].0 {
                lemma_lex_lt_irreflexive(s[j].0);
            }
        }
    }
}

/// Dropping the last entry keeps the keys sorted.
pub proof fn lemma_sorted_drop_last<V>(s: Seq<(Seq<char>, V)>)
    requires
        keys_sorted(s),
        s.len() > 0,
    ensures
        keys_sorted(s.drop_last()),
{
    assert forall|i: int, j: int|
        0 <= i < j < s.drop_last().len() implies lex_lt(
        #[trigger] s.drop_last()[i].0,
        #[trigger] s.drop_last()[j].0,
    ) by {
        assert(s.drop_last()[i] == s[i]);
        assert(s.drop_last()[j] == s[j]);
    }
}

/// The map contains a key exactly when some entry holds it.
pub proof fn lemma_assoc_contains<V>(s: Seq<(Seq<char>, V)>, k: Seq<char>)
    ensures
        assoc_map(s).contains_key(k) <==> exists|i: int| 0 <= i < s.len() && #[trigger] s[i].0 == k,
    decreases s.len(),
{
    if s.len() > 0 {
        lemma_assoc_contains(s.drop_last(), k);
        if s.last().0 == k {
            assert(s[s.len() - 1].0 == k);
        } else {
            if assoc_map(s).contains_key(k) {
                let i = choose|i: int| 0 <= i < s.drop_last().len() && #[trigger] s.drop_last()[i].0 == k;
                assert(s[i].0 == k);
            }
            if exists|i: int| 0 <= i < s.len() && #[trigger] s[i].0 == k {
                let i = choose|i: int| 0 <= i < s.len() && #[trigger] s[i].0 == k;
                assert(s.drop_last()[i] == s[i]);
            }
        }
    }
}

/// Each entry of a sorted sequence is what the map holds at its key.
pub proof fn lemma_assoc_index<V>(s: Seq<(Seq<char>, V)>, i: int)
    requires
        keys_sorted(s),
        0 <= i < s.len(),
    ensures
        assoc_map(s).contains_key(s[i].0),
        assoc_map(s)[s[i].0] == s[i].1,
    decreases s.len(),
{
    lemma_sorted_keys_distinct(s);
    if i == s.len() - 1 {
    } else {
        lemma_sorted_drop_last(s);
        lemma_assoc_index(s.drop_last(), i);
        assert(s.drop_last()[i] == s[i]);
    }
}

/// A sorted sequence's map has one key per entry.
pub proof fn lemma_assoc_len<V>(s: Seq<(Seq<char>, V)>)
    requires
        keys_sorted(s),
    ensures
        assoc_map(s).dom().finite(),
        assoc_map(s).dom().len() == s.len(),
    decreases s.len(),
{
    if s.len() > 0 {
        lemma_sorted_drop_last(s);
        lemma_assoc_len(s.drop_last());
        lemma_sorted_keys_distinct(s);
        lemma_assoc_contains(s.drop_last(), s.last().0);
        assert forall|i: int|
            0 <= i < s.drop_last().len() implies #[trigger] s.drop_last()[i].0 != s.last().0 by {
            assert(s.drop_last()[i] == s[i]);
            assert(s[i].0 != s[s.len() - 1].0);
        }
        assert(!assoc_map(s.drop_last()).contains_key(s.last().0));
    }
}

/// Replacing the value at an entry is inserting at its key.
pub proof fn lemma_assoc_update<V>(s: Seq<(Seq<char>, V)>, i: int, v: V)
    requires
        keys_sorted(s),
        0 <= i < s.len(),
    ensures
        assoc_map(s.update(i, (s[i].0, v))) == assoc_map(s).insert(s[i].0, v),
    decreases s.len(),
{
    let t = s.update(i, (s[i].0, v));
    lemma_sorted_keys_distinct(s);
    if i == s.len() - 1 {
        assert(t.drop_last() =~= s.drop_last());
        assert(assoc_map(t) =~= assoc_map(s).insert(s[i].0, v));
    } else {
        lemma_sorted_drop_last(s);
        lemma_assoc_update(s.drop_last(), i, v);
        assert(s.drop_last()[i] == s[i]);
        assert(t.drop_last() =~= s.drop_last().update(i, (s[i].0, v)));
        assert(t.last() == s.last());
        assert(assoc_map(t) =~= assoc_map(s).insert(s[i].0, v));
    }
}

/// Placing a fresh key at a position is inserting it into the map.
pub proof fn lemma_assoc_insert_at<V>(s: Seq<(Seq<char>, V)>, i: int, k: Seq<char>, v: V)
    requires
        0 <= i <= s.len(),
        forall|j: int| 0 <= j < s.len() ==> #[trigger] s[j].0 != k,
    ensures
        assoc_map(s.insert(i, (k, v))) == assoc_map(s).insert(k, v),
    decreases s.len() - i,
{
    let t = s.insert(i, (k, v));
    if i == s.len() {
        assert(t.drop_last() =~= s);
        assert(t.last() == (k, v));
    } else {
        assert(t.last() == s.last());
        assert(t.drop_last() =~= s.drop_last().insert(i, (k, v)));
        assert forall|j: int| 0 <= j < s.drop_last().len() implies #[trigger] s.drop_last()[j].0 != k by {
            assert(s.drop_last()[j] == s[j]);
        }
        lemma_assoc_insert_at(s.drop_last(), i, k, v);
        assert(s.last().0 != k);
        assert(assoc_map(t) =~= assoc_map(s).insert(k, v));
    }
}

/// Taking an entry out is removing its key from the map.
pub proof fn lemma_assoc_remove_at<V>(s: Seq<(Seq<char>, V)>, i: int)
    requires
        keys_sorted(s),
        0 <= i < s.len(),
    ensures
        assoc_map(s.remove(i)) == assoc_map(s).remove(s[i].0),
    decreases s.len(),
{
    let t = s.remove(i);
    lemma_sorted_keys_distinct(s);
    if i == s.len() - 1 {
        assert(t =~= s.drop_last());
        lemma_sorted_drop_last(s);
        lemma_assoc_contains(s.drop_last(), s.last().0);
        assert forall|j: int|
            0 <= j < s.drop_last().len() implies #[trigger] s.drop_last()[j].0 != s.last().0 by {
            assert(s.drop_last()[j] == s[j]);
        }
        assert(!assoc_map(s.drop_last()).contains_key(s.last().0));
        assert(assoc_map(t) =~= assoc_map(s).remove(s[i].0));
    } else {
        lemma_sorted_drop_last(s);
        lemma_assoc_remove_at(s.drop_last(), i);
        assert(s.drop_last()[i] == s[i]);
        assert(t.last() == s.last());
        assert(t.drop_last() =~= s.drop_last().remove(i));
        assert(s.last().0 != s[i].0);
        assert(assoc_map(t) =~= assoc_map(s).remove(s[i].0));
    }
}

/// Inserting a key between its sorted neighbours keeps the keys sorted.
pub proof fn lemma_sorted_insert_at<V>(s: Seq<(Seq<char>, V)>, i: int, k: Seq<char>, v: V)
    requires
        keys_sorted(s),
        0 <= i <= s.len(),
        forall|j: int| 0 <= j < i ==> lex_lt(#[trigger] s[j].0, k),
        i < s.len() ==> lex_lt(k, s[i].0),
    ensures
        keys_sorted(s.insert(i, (k, v))),
{
    let t = s.insert(i, (k, v));
    assert forall|x: int, y: int|
        0 <= x < y < t.len() implies lex_lt(#[trigger] t[x].0, #[trigger] t[y].0) by {
        if y < i {
            assert(t[x] == s[x]);
            assert(t[y] == s[y]);
        } else if x < i && y == i {
            assert(t[x] == s[x]);
        } else if x < i && y > i {
            assert(t[x] == s[x]);
            assert(t[y] == s[y - 1]);
        } else if x == i {
            assert(t[y] == s[y - 1]);
            if y - 1 > i {
                lemma_lex_lt_transitive(k, s[i].0, s[y - 1].0);
            }
        } else {
            assert(t[x] == s[x - 1]);
            assert(t[y] == s[y - 1]);
        }
    }
}

/// A finite map has exactly one sorted association sequence: sorted
/// sequences that denote the same map are the same sequence. This is
/// what makes a report deterministic, whatever the insertion order was.
pub proof fn lemma_sorted_assoc_canonical<V>(s1: Seq<(Seq<char>, V)>, s2: Seq<(Seq<char>, V)>)
    requires
        keys_sorted(s1),
        keys_sorted(s2),
        assoc_map(s1) == assoc_map(s2),
    ensures
        s1 == s2,
    decreases s1.len(),
{
    if s1.len() == 0 {
        if s2.len() > 0 {
            lemma_assoc_contains(s1, s2.last().0);
            lemma_assoc_contains(s2, s2.last().0);
            assert(s2[s2.len() - 1].0 == s2.last().0);
        }
        assert(s1 =~= s2);
    } else if s2.len() == 0 {
        lemma_assoc_contains(s1, s1.last().0);
        lemma_assoc_contains(s2, s1.last().0);
        assert(s1[s1.len() - 1].0 == s1.last().0);
    } else {
        let k1 = s1.last().0;
        let k2 = s2.last().0;
        lemma_assoc_contains(s1, k1);
        lemma_assoc_contains(s2, k1);
        lemma_assoc_contains(s1, k2);
        lemma_assoc_contains(s2, k2);
        assert(s1[s1.len() - 1].0 == k1);
        assert(s2[s2.len() - 1].0 == k2);
        let i = choose|i: int| 0 <= i < s2.len() && #[trigger] s2[i].0 == k1;
        let j = choose|j: int| 0 <= j < s1.len() && #[trigger] s1[j].0 == k2;
        if i < s2.len() - 1 {
            assert(lex_lt(k1, k2));
            if j < s1.len() - 1 {
                assert(lex_lt(k2, k1));
                lemma_lex_lt_asymmetric(k1, k2);
            }
            assert(k1 == k2);
            lemma_lex_lt_irreflexive(k1);
        }
        assert(k1 == k2);
        assert(assoc_map(s1)[k1] == s1.last().1);
        assert(assoc_map(s2)[k2] == s2.last().1);
        assert(s1.last() == s2.last());
        lemma_assoc_remove_at(s1, s1.len() - 1);
        lemma_assoc_remove_at(s2, s2.len() - 1);
        assert(s1.remove(s1.len() - 1) =~= s1.drop_last());
        assert(s2.remove(s2.len() - 1) =~= s2.drop_last());
        lemma_sorted_drop_last(s1);
        lemma_sorted_drop_last(s2);
        lemma_sorted_assoc_canonical(s1.drop_last(), s2.drop_last());
        assert(s1.len() == s2.len());
        assert forall|x: int| 0 <= x < s1.len() implies s1[x] == s2[x] by {
            if x < s1.len() - 1 {
                assert(s1.drop_last()[x] == s1[x]);
                assert(s2.drop_last()[x] == s2[x]);
            }
        }
        assert(s1 =~= s2);
    }
}

/// String keys mapped to owned values, the entries strictly ascending
/// by key.
#[derive(Clone, Debug)]
pub struct KeyedVec<V> {
    items: Vec<(String, V)>,
}

impl<V> KeyedVec<V> {
    /// The entries, each a key with its value, in storage order.
    pub closed spec fn entries(&self) -> Seq<(Seq<char>, V)> {
        self.items@.map_values(|p: (String, V)| (p.0@, p.1))
    }

    /// The collection as a finite map.
    pub open spec fn as_map(&self) -> Map<Seq<char>, V> {
        assoc_map(self.entries())
    }

    /// Well-formed: the keys are strictly ascending.
    pub open spec fn wf(&self) -> bool {
        keys_sorted(self.entries())
    }

    /// Creates an empty collection.
    pub fn new() -> (r: KeyedVec<V>)
        ensures
            r.wf(),
            r.entries() == Seq::<(Seq<char>, V)>::empty(),
            r.as_map() == Map::<Seq<char>, V>::empty(),
    {
        let r = KeyedVec { items: Vec::new() };
        proof {
            assert(r.entries() =~= Seq::<(Seq<char>, V)>::empty());
        }
        r
    }

    /// The number of entries.
    pub fn len(&self) -> (n: usize)
        ensures
            n == self.entries().len(),
    {
        self.items.len()
    }

    /// The key of the entry at a position.
    pub fn key_at(&self, i: usize) -> (k: &String)
        requires
            i < self.entries().len(),
        ensures
            k@ == self.entries()[i as int].0,
    {
        &vec_index(&self.items, i).0
    }

    /// The value of the entry at a position.
    pub fn value_at(&self, i: usize) -> (v: &V)
        requires
            i < self.entries().len(),
        ensures
            *v == self.entries()[i as int].1,
    {
        &vec_index(&self.items, i).1
    }

    /// Finds the position of a key: its entry's position when present,
    /// else the position where it would be inserted.
    fn locate(&self, key: &str) -> (r: (usize, bool))
        requires
            self.wf(),
        ensures
            r.1 ==> r.0 < self.entries().len() && self.entries()[r.0 as int].0 == key@,
            !r.1 ==> r.0 <= self.entries().len()
                && (forall|j: int| 0 <= j < r.0 ==> lex_lt(#[trigger] self.entries()[j].0, key@))
                && (r.0 < self.entries().len() ==> lex_lt(key@, self.entries()[r.0 as int].0))
                && (forall|j: int|
                    0 <= j < self.entries().len() ==> #[trigger] self.entries()[j].0 != key@),
    {
        let n = self.items.len();
        let mut i: usize = 0;
        while i < n
            invariant
                i <= n,
                n == self.entries().len(),
                self.wf(),
                forall|j: int| 0 <= j < i ==> lex_lt(#[trigger] self.entries()[j].0, key@),
            decreases n - i,
        {
            let p = vec_index(&self.items, i);
            match str_compare(p.0.as_str(), key) {
                KeyOrder::Less => {
                    i = i + 1;
                },
                KeyOrder::Equal => {
                    return (i, true);
                },
                KeyOrder::Greater => {
                    proof {
                        self.lemma_no_hit(key@, i as int);
                    }
                    return (i, false);
                },
            }
        }
        proof {
            assert forall|j: int|
                0 <= j < self.entries().len() implies #[trigger] self.entries()[j].0 != key@ by {
                lemma_lex_lt_irreflexive(key@);
            }
        }
        (i, false)
    }

    /// When the scan stops above the key, no entry holds the key.
    proof fn lemma_no_hit(&self, key: Seq<char>, i: int)
        requires
            self.wf(),
            0 <= i < self.entries().len(),
            forall|j: int| 0 <= j < i ==> lex_lt(#[trigger] self.entries()[j].0, key),
            lex_lt(key, self.entries()[i].0),
        ensures
            forall|j: int| 0 <= j < self.entries().len() ==> #[trigger] self.entries()[j].0 != key,
    {
        assert forall|j: int|
            0 <= j < self.entries().len() implies #[trigger] self.entries()[j].0 != key by {
            if j < i {
                lemma_lex_lt_irreflexive(key);
            } else if j == i {
                lemma_lex_lt_irreflexive(key);
            } else {
                lemma_lex_lt_transitive(key, self.entries()[i].0, self.entries()[j].0);
                lemma_lex_lt_irreflexive(key);
            }
        }
    }

    /// A shared reference to the value under a key, or `None`.
    pub fn get(&self, key: &str) -> (r: Option<&V>)
        requires
            self.wf(),
        ensures
            (r is Some) <==> self.as_map().contains_key(key@),
            r is Some ==> *r.unwrap() == self.as_map()[key@],
    {
        let (i, found) = self.locate(key);
        proof {
            lemma_assoc_contains(self.entries(), key@);
        }
        if found {
            proof {
                lemma_assoc_index(self.entries(), i as int);
            }
            Some(&vec_index(&self.items, i).1)
        } else {
            None
        }
    }

    /// A mutable reference to the value under a key, or `None`. The
    /// keys, and so the well-formedness, are untouched; the map ends up
    /// holding whatever the caller leaves behind the reference.
    pub fn get_mut(&mut self, key: &str) -> (r: Option<&mut V>)
        requires
            old(self).wf(),
        ensures
            (r is Some) <==> old(self).as_map().contains_key(key@),
            r is None ==> *final(self) == *old(self),
            r is Some ==> *r.unwrap() == old(self).as_map()[key@]
                && final(self).wf()
                && final(self).entries().len() == old(self).entries().len()
                && (forall|j: int|
                    0 <= j < old(self).entries().len()
                        ==> #[trigger] final(self).entries()[j].0 == old(self).entries()[j].0)
                && final(self).as_map() == old(self).as_map().insert(key@, *final(r.unwrap())),
    {
        let (i, found) = self.locate(key);
        proof {
            lemma_assoc_contains(self.entries(), key@);
        }
        if found {
            let ghost s = self.entries();
            let ghost oldv = self.items@;
            proof {
                lemma_assoc_index(s, i as int);
                assert forall|post: KeyedVec<V>, w: (String, V)|
                    #![trigger post.items@, oldv.update(i as int, w)]
                    post.items@ == oldv.update(i as int, w) && w.0@ == s[i as int].0 implies {
                    &&& post.wf()
                    &&& post.entries().len() == s.len()
                    &&& (forall|j: int| 0 <= j < s.len() ==> #[trigger] post.entries()[j].0 == s[j].0)
                    &&& post.as_map() == assoc_map(s).insert(s[i as int].0, w.1)
                } by {
                    assert(post.entries() =~= s.update(i as int, (s[i as int].0, w.1)));
                    lemma_assoc_update(s, i as int, w.1);
                    let t = s.update(i as int, (s[i as int].0, w.1));
                    assert forall|x: int, y: int|
                        0 <= x < y < t.len() implies lex_lt(
                        #[trigger] t[x].0,
                        #[trigger] t[y].0,
                    ) by {
                        assert(t[x].0 == s[x].0);
                        assert(t[y].0 == s[y].0);
                    }
                }
            }
            let p = vec_index_mut(&mut self.items, i);
            Some(&mut p.1)
        } else {
            None
        }
    }

    /// Binds a key to a value: inserts a fresh key at its sorted
    /// position, overwrites the value of a present one.
    pub fn put(&mut self, key: &str, value: V)
        requires
            old(self).wf(),
        ensures
            final(self).wf(),
            final(self).as_map() == old(self).as_map().insert(key@, value),
            final(self).entries().len() == old(self).entries().len()
                + (if old(self).as_map().contains_key(key@) { 0int } else { 1int }),
    {
        let (i, found) = self.locate(key);
        proof {
            lemma_assoc_contains(self.entries(), key@);
        }
        if found {
            let ghost s = self.entries();
            proof {
                lemma_assoc_update(s, i as int, value);
            }
            let p = vec_index_mut(&mut self.items, i);
            p.1 = value;
            proof {
                assert(final(self).entries() =~= s.update(i as int, (s[i as int].0, value)));
                assert forall|x: int, y: int|
                    0 <= x < y < final(self).entries().len() implies lex_lt(
                    #[trigger] final(self).entries()[x].0,
                    #[trigger] final(self).entries()[y].0,
                ) by {
                    assert(final(self).entries()[x].0 == s[x].0);
                    assert(final(self).entries()[y].0 == s[y].0);
                }
            }
        } else {
            let ghost s = self.entries();
            proof {
                lemma_assoc_insert_at(s, i as int, key@, value);
            }
            self.items.insert(i, (key.to_owned(), value));
            proof {
                assert(final(self).entries() =~= s.insert(i as int, (key@, value)));
                lemma_sorted_insert_at(s, i as int, key@, value);
            }
        }
    }

    /// Removes the entry under a key and hands its value back, or
    /// `None` when the key is absent.
    pub fn remove(&mut self, key: &str) -> (r: Option<V>)
        requires
            old(self).wf(),
        ensures
            final(self).wf(),
            (r is Some) <==> old(self).as_map().contains_key(key@),
            r is Some ==> r.unwrap() == old(self).as_map()[key@]
                && final(self).as_map() == old(self).as_map().remove(key@)
                && final(self).entries().len() == old(self).entries().len() - 1,
            r is None ==> *final(self) == *old(self),
    {
        let (i, found) = self.locate(key);
        proof {
            lemma_assoc_contains(self.entries(), key@);
        }
        if found {
            let ghost s = self.entries();
            proof {
                lemma_assoc_index(s, i as int);
                lemma_assoc_remove_at(s, i as int);
            }
            let pair = self.items.remove(i);
            proof {
                assert(final(self).entries() =~= s.remove(i as int));
                assert forall|x: int, y: int|
                    0 <= x < y < final(self).entries().len() implies lex_lt(
                    #[trigger] final(self).entries()[x].0,
                    #[trigger] final(self).entries()[y].0,
                ) by {
                    let t = s.remove(i as int);
                    assert(t[x].0 == (if x < i { s[x].0 } else { s[x + 1].0 }));
                    assert(t[y].0 == (if y < i { s[y].0 } else { s[y + 1].0 }));
                }
            }
            Some(pair.1)
        } else {
            None
        }
    }
}

} // verus!
