//! Ordered string sets and string-keyed maps. Both keep their keys in strictly
//! increasing code point order, so they iterate in the same order as the
//! standard ordered collections and never hold a key twice.
use vstd::prelude::*;
use crate::text::{
    lemma_seq_lt_irreflexive, lemma_seq_lt_transitive, lemma_seq_lt_trichotomy,
    lemma_strictly_sorted_no_dup, seq_lt, str_eq, str_lt, strictly_sorted,
};

verus! {

pub open spec fn views(items: Seq<String>) -> Seq<Seq<char>> {
    items.map_values(|s: String| s@)
}

/// Position at which `s` belongs among the sorted `items`, and whether it is
/// already there.
pub(crate) fn locate(items: &Vec<String>, s: &str) -> (r: (usize, bool))
    requires
        strictly_sorted(views(items@)),
    ensures
        r.0 <= items@.len(),
        r.1 ==> r.0 < items@.len() && items@[r.0 as int]@ == s@,
        !r.1 ==> forall|k: int| 0 <= k < r.0 ==> seq_lt(#[trigger] items@[k]@, s@),
        !r.1 ==> forall|k: int| r.0 <= k < items@.len() ==> seq_lt(s@, #[trigger] items@[k]@),
        !r.1 ==> !views(items@).contains(s@),
{
    let mut i: usize = 0;
    while i < items.len()
        invariant
            i <= items@.len(),
            strictly_sorted(views(items@)),
            forall|k: int| 0 <= k < i ==> seq_lt(#[trigger] items@[k]@, s@),
        decreases items@.len() - i,
    {
        if str_eq(items[i].as_str(), s) {
            return (i, true);
        }
        if str_lt(s, items[i].as_str()) {
            proof {
                assert forall|k: int| i <= k < items@.len() implies seq_lt(
                    s@,
                    #[trigger] items@[k]@,
                ) by {
                    if k > i {
                        assert(seq_lt(views(items@)[i as int], views(items@)[k]));
                        lemma_seq_lt_transitive(s@, items@[i as int]@, items@[k]@);
                    }
                }
                assert forall|k: int| 0 <= k < items@.len() implies views(items@)[k] != s@ by {
                    if k < i {
                        lemma_seq_lt_irreflexive(s@);
                    } else {
                        lemma_seq_lt_irreflexive(s@);
                    }
                }
            }
            return (i, false);
        }
        proof {
            lemma_seq_lt_trichotomy(s@, items@[i as int]@);
        }
        i = i + 1;
    }
    proof {
        assert forall|k: int| 0 <= k < items@.len() implies views(items@)[k] != s@ by {
            lemma_seq_lt_irreflexive(s@);
        }
    }
    (i, false)
}

pub(crate) proof fn lemma_insert_sorted(items: Seq<String>, pos: int, s: String)
    requires
        strictly_sorted(views(items)),
        0 <= pos <= items.len(),
        forall|k: int| 0 <= k < pos ==> seq_lt(#[trigger] items[k]@, s@),
        forall|k: int| pos <= k < items.len() ==> seq_lt(s@, #[trigger] items[k]@),
    ensures
        strictly_sorted(views(items.insert(pos, s))),
        views(items.insert(pos, s)).to_set() == views(items).to_set().insert(s@),
{
    let n = items.insert(pos, s);
    assert forall|i: int, j: int| 0 <= i < j < views(n).len() implies seq_lt(
        #[trigger] views(n)[i],
        #[trigger] views(n)[j],
    ) by {
        if j < pos {
            assert(views(n)[i] == views(items)[i]);
            assert(views(n)[j] == views(items)[j]);
        } else if i < pos && j == pos {
            assert(views(n)[i] == items[i]@);
        } else if i < pos && j > pos {
            assert(views(n)[i] == items[i]@);
            assert(views(n)[j] == items[j - 1]@);
            assert(seq_lt(items[i]@, s@));
            assert(seq_lt(s@, items[j - 1]@));
            lemma_seq_lt_transitive(items[i]@, s@, items[j - 1]@);
        } else if i == pos {
            assert(views(n)[j] == items[j - 1]@);
        } else {
            assert(views(n)[i] == views(items)[i - 1]);
            assert(views(n)[j] == views(items)[j - 1]);
            assert(seq_lt(views(items)[i - 1], views(items)[j - 1]));
        }
    }
    assert forall|x: Seq<char>| views(n).to_set().contains(x) <==> views(items).to_set().insert(
        s@,
    ).contains(x) by {
        if views(n).to_set().contains(x) {
            let k = choose|k: int| 0 <= k < views(n).len() && views(n)[k] == x;
            if k < pos {
                assert(views(items)[k] == x);
            } else if k > pos {
                assert(views(items)[k - 1] == x);
            }
        }
        if views(items).to_set().contains(x) {
            let k = choose|k: int| 0 <= k < views(items).len() && views(items)[k] == x;
            if k < pos {
                assert(views(n)[k] == x);
            } else {
                assert(views(n)[k + 1] == x);
            }
        }
        if x == s@ {
            assert(views(n)[pos] == x);
        }
    }
    assert(views(n).to_set() =~= views(items).to_set().insert(s@));
}

proof fn lemma_remove_sorted(items: Seq<String>, pos: int)
    requires
        strictly_sorted(views(items)),
        0 <= pos < items.len(),
    ensures
        strictly_sorted(views(items.remove(pos))),
        views(items.remove(pos)).to_set() == views(items).to_set().remove(items[pos]@),
{
    let n = items.remove(pos);
    lemma_strictly_sorted_no_dup(views(items));
    assert forall|i: int, j: int| 0 <= i < j < views(n).len() implies seq_lt(
        #[trigger] views(n)[i],
        #[trigger] views(n)[j],
    ) by {
        let ii = if i < pos { i } else { i + 1 };
        let jj = if j < pos { j } else { j + 1 };
        assert(seq_lt(views(items)[ii], views(items)[jj]));
    }
    assert forall|x: Seq<char>| views(n).to_set().contains(x) <==> views(items).to_set().remove(
        items[pos]@,
    ).contains(x) by {
        if views(n).to_set().contains(x) {
            let k = choose|k: int| 0 <= k < views(n).len() && views(n)[k] == x;
            if k < pos {
                assert(views(items)[k] == x);
                assert(views(items)[k] != views(items)[pos]);
            } else {
                assert(views(items)[k + 1] == x);
                assert(views(items)[k + 1] != views(items)[pos]);
            }
        }
        if views(items).to_set().remove(items[pos]@).contains(x) {
            let k = choose|k: int| 0 <= k < views(items).len() && views(items)[k] == x;
            if k < pos {
                assert(views(n)[k] == x);
            } else if k > pos {
                assert(views(n)[k - 1] == x);
            }
        }
    }
    assert(views(n).to_set() =~= views(items).to_set().remove(items[pos]@));
}

/// A set of strings kept in increasing order.
pub struct StrSet {
    items: Vec<String>,
}

impl StrSet {
    #[verifier::type_invariant]
    spec fn sorted(self) -> bool {
        strictly_sorted(views(self.items@))
    }

    /// The members in increasing order.
    pub closed spec fn elems(self) -> Seq<Seq<char>> {
        views(self.items@)
    }

    pub open spec fn set(self) -> Set<Seq<char>> {
        self.elems().to_set()
    }

    pub fn new() -> (r: Self)
        ensures
            r.set() == Set::<Seq<char>>::empty(),
            r.elems().len() == 0,
    {
        let r = StrSet { items: Vec::new() };
        assert(r.elems().to_set() =~= Set::<Seq<char>>::empty());
        r
    }

    pub fn contains(&self, s: &str) -> (r: bool)
        ensures
            r == self.set().contains(s@),
    {
        proof {
            use_type_invariant(self);
        }
        let (pos, found) = locate(&self.items, s);
        proof {
            if found {
                assert(views(self.items@)[pos as int] == s@);
            }
        }
        found
    }

    /// Adds `s`; the result says whether it was absent before.
    pub fn insert(&mut self, s: String) -> (r: bool)
        ensures
            final(self).set() == old(self).set().insert(s@),
            r == !old(self).set().contains(s@),
    {
        proof {
            use_type_invariant(&*self);
        }
        let (pos, found) = locate(&self.items, s.as_str());
        if found {
            proof {
                assert(views(self.items@)[pos as int] == s@);
                assert(self.set().insert(s@) =~= self.set());
            }
            return false;
        }
        proof {
            lemma_insert_sorted(self.items@, pos as int, s);
        }
        let mut taken = StrSet::new();
        std::mem::swap(self, &mut taken);
        let StrSet { mut items } = taken;
        items.insert(pos, s);
        *self = StrSet { items };
        true
    }

    /// Removes `s`; the result says whether it was present.
    pub fn remove(&mut self, s: &str) -> (r: bool)
        ensures
            final(self).set() == old(self).set().remove(s@),
            r == old(self).set().contains(s@),
    {
        proof {
            use_type_invariant(&*self);
        }
        let (pos, found) = locate(&self.items, s);
        if !found {
            proof {
                assert(self.set().remove(s@) =~= self.set());
            }
            return false;
        }
        proof {
            lemma_remove_sorted(self.items@, pos as int);
            assert(views(self.items@)[pos as int] == s@);
        }
        let mut taken = StrSet::new();
        std::mem::swap(self, &mut taken);
        let StrSet { mut items } = taken;
        items.remove(pos);
        *self = StrSet { items };
        true
    }

    /// The set of the given strings.
    pub fn from_vec(values: Vec<String>) -> (r: Self)
        ensures
            r.set() == views(values@).to_set(),
    {
        let mut r = StrSet::new();
        let mut i: usize = 0;
        while i < values.len()
            invariant
                i <= values@.len(),
                r.set() == views(values@.subrange(0, i as int)).to_set(),
            decreases values@.len() - i,
        {
            let v = values[i].clone();
            r.insert(v);
            proof {
                assert(views(values@.subrange(0, i + 1)) =~= views(values@.subrange(0, i as int)).push(
                    values@[i as int]@,
                ));
                views(values@.subrange(0, i as int)).lemma_push_to_set_commute(values@[i as int]@);
            }
            i = i + 1;
        }
        assert(values@.subrange(0, values@.len() as int) =~= values@);
        r
    }

    pub fn len(&self) -> (r: usize)
        ensures
            r == self.elems().len(),
            r == self.set().len(),
    {
        proof {
            use_type_invariant(self);
            lemma_strictly_sorted_no_dup(self.elems());
            self.elems().unique_seq_to_set();
        }
        self.items.len()
    }

    pub fn is_empty(&self) -> (r: bool)
        ensures
            r == (self.set().len() == 0),
            r == (self.elems().len() == 0),
    {
        self.len() == 0
    }

    /// The members in increasing order.
    pub fn to_vec(&self) -> (r: Vec<String>)
        ensures
            views(r@) == self.elems(),
            strictly_sorted(self.elems()),
            views(r@).to_set() == self.set(),
    {
        proof {
            use_type_invariant(self);
        }
        let r = self.items.clone();
        assert(views(r@) =~= views(self.items@));
        r
    }

    /// The member at position `i` in increasing order.
    pub fn get(&self, i: usize) -> (r: &String)
        requires
            i < self.elems().len(),
        ensures
            r@ == self.elems()[i as int],
    {
        &self.items[i]
    }
}

impl Clone for StrSet {
    fn clone(&self) -> (r: Self)
        ensures
            r.elems() == self.elems(),
    {
        proof {
            use_type_invariant(self);
        }
        let items = self.items.clone();
        assert(views(items@) =~= views(self.items@));
        StrSet { items }
    }
}

/// A map from strings to values, keyed in increasing order.
pub struct StrMap<V> {
    keys: Vec<String>,
    values: Vec<V>,
}

impl<V> StrMap<V> {
    #[verifier::type_invariant]
    spec fn sorted(self) -> bool {
        &&& strictly_sorted(views(self.keys@))
        &&& self.keys@.len() == self.values@.len()
    }

    /// The keys in increasing order.
    pub closed spec fn key_seq(self) -> Seq<Seq<char>> {
        views(self.keys@)
    }

    /// The values in key order.
    pub closed spec fn value_seq(self) -> Seq<V> {
        self.values@
    }

    pub open spec fn map(self) -> Map<Seq<char>, V> {
        Map::new(
            |k: Seq<char>| self.key_seq().contains(k),
            |k: Seq<char>| self.value_seq()[self.key_seq().index_of(k)],
        )
    }

    /// A map holds finitely many keys: those of its key sequence.
    pub proof fn lemma_map_finite(self)
        ensures
            self.map().dom() == self.key_seq().to_set(),
            self.map().dom().finite(),
    {
        assert(self.map().dom() =~= self.key_seq().to_set());
        vstd::seq_lib::seq_to_set_is_finite(self.key_seq());
    }

    pub fn new() -> (r: Self)
        ensures
            r.map() == Map::<Seq<char>, V>::empty(),
            r.key_seq().len() == 0,
    {
        let r = StrMap { keys: Vec::new(), values: Vec::new() };
        assert(r.map() =~= Map::<Seq<char>, V>::empty());
        r
    }

    pub fn len(&self) -> (r: usize)
        ensures
            r == self.key_seq().len(),
            r == self.map().dom().len(),
    {
        proof {
            use_type_invariant(self);
            lemma_strictly_sorted_no_dup(self.key_seq());
            self.key_seq().unique_seq_to_set();
            assert(self.map().dom() =~= self.key_seq().to_set());
        }
        self.keys.len()
    }

    pub fn get(&self, k: &str) -> (r: Option<&V>)
        ensures
            r is Some <==> self.map().dom().contains(k@),
            r matches Some(v) ==> *v == self.map()[k@],
    {
        proof {
            use_type_invariant(self);
            lemma_strictly_sorted_no_dup(self.key_seq());
        }
        let (pos, found) = locate(&self.keys, k);
        if found {
            proof {
                assert(self.key_seq()[pos as int] == k@);
                self.key_seq().index_of_first_ensures(k@);
                assert(self.key_seq().index_of(k@) == pos);
            }
            Some(&self.values[pos])
        } else {
            None
        }
    }

    pub fn contains_key(&self, k: &str) -> (r: bool)
        ensures
            r == self.map().dom().contains(k@),
    {
        self.get(k).is_some()
    }

    /// Inserts or replaces the entry for `k`.
    pub fn insert(&mut self, k: String, v: V)
        ensures
            final(self).map() == old(self).map().insert(k@, v),
    {
        proof {
            use_type_invariant(&*self);
            lemma_strictly_sorted_no_dup(self.key_seq());
        }
        let ghost old_map = self.map();
        let (pos, found) = locate(&self.keys, k.as_str());
        let mut taken = StrMap::new();
        std::mem::swap(self, &mut taken);
        let StrMap { mut keys, mut values } = taken;
        if found {
            values.set(pos, v);
            *self = StrMap { keys, values };
            proof {
                let ks = self.key_seq();
                assert(ks[pos as int] == k@);
                assert forall|x: Seq<char>| #[trigger] ks.contains(x) implies self.map()[x]
                    == old_map.insert(k@, v)[x] by {
                    ks.index_of_first_ensures(x);
                    ks.index_of_first_ensures(k@);
                    if x != k@ {
                        assert(ks.index_of(x) != pos);
                    }
                }
                assert(self.map() =~= old_map.insert(k@, v));
            }
        } else {
            proof {
                lemma_insert_sorted(keys@, pos as int, k);
            }
            let ghost old_keys = views(keys@);
            keys.insert(pos, k);
            values.insert(pos, v);
            *self = StrMap { keys, values };
            proof {
                let ks = self.key_seq();
                lemma_strictly_sorted_no_dup(ks);
                assert(ks.to_set() == old_keys.to_set().insert(k@));
                assert forall|x: Seq<char>| ks.contains(x) <==> old_keys.contains(x) || x == k@ by {
                    assert(ks.to_set().contains(x) == ks.contains(x));
                    assert(old_keys.to_set().contains(x) == old_keys.contains(x));
                }
                assert forall|x: Seq<char>| #[trigger] ks.contains(x) implies self.map()[x]
                    == old_map.insert(k@, v)[x] by {
                    ks.index_of_first_ensures(x);
                    if x == k@ {
                        assert(ks[pos as int] == k@);
                        assert(ks.index_of(x) == pos);
                    } else {
                        old_keys.index_of_first_ensures(x);
                        let oi = old_keys.index_of(x);
                        if oi < pos {
                            assert(ks[oi] == x);
                            assert(ks.index_of(x) == oi);
                        } else {
                            assert(ks[oi + 1] == x);
                            assert(ks.index_of(x) == oi + 1);
                        }
                    }
                }
                assert(self.map() =~= old_map.insert(k@, v));
            }
        }
    }

    /// Removes the entry for `k`, handing its value back.
    pub fn remove(&mut self, k: &str) -> (r: Option<V>)
        ensures
            final(self).map() == old(self).map().remove(k@),
            r is Some <==> old(self).map().dom().contains(k@),
            r matches Some(v) ==> v == old(self).map()[k@],
    {
        proof {
            use_type_invariant(&*self);
            lemma_strictly_sorted_no_dup(self.key_seq());
        }
        let ghost old_map = self.map();
        let (pos, found) = locate(&self.keys, k);
        if !found {
            proof {
                assert(old_map.remove(k@) =~= old_map);
            }
            return None;
        }
        proof {
            lemma_remove_sorted(self.keys@, pos as int);
            self.key_seq().index_of_first_ensures(k@);
            assert(self.key_seq()[pos as int] == k@);
            assert(self.key_seq().index_of(k@) == pos);
        }
        let ghost old_keys = views(self.keys@);
        let mut taken = StrMap::new();
        std::mem::swap(self, &mut taken);
        let StrMap { mut keys, mut values } = taken;
        keys.remove(pos);
        let v = values.remove(pos);
        *self = StrMap { keys, values };
        proof {
            let ks = self.key_seq();
            lemma_strictly_sorted_no_dup(ks);
            assert(ks =~= old_keys.remove(pos as int));
            assert forall|x: Seq<char>| ks.contains(x) <==> (old_keys.contains(x) && x != k@) by {
                assert(ks.to_set().contains(x) == ks.contains(x));
                assert(old_keys.to_set().contains(x) == old_keys.contains(x));
            }
            assert forall|x: Seq<char>| #[trigger] ks.contains(x) implies self.map()[x]
                == old_map.remove(k@)[x] by {
                ks.index_of_first_ensures(x);
                old_keys.index_of_first_ensures(x);
                let oi = old_keys.index_of(x);
                if oi < pos {
                    assert(ks[oi] == x);
                    assert(ks.index_of(x) == oi);
                } else {
                    assert(ks[oi - 1] == x);
                    assert(ks.index_of(x) == oi - 1);
                }
            }
            assert(self.map() =~= old_map.remove(k@));
        }
        Some(v)
    }

    /// The keys in increasing order.
    pub fn keys(&self) -> (r: Vec<String>)
        ensures
            views(r@) == self.key_seq(),
            strictly_sorted(self.key_seq()),
            views(r@).to_set() == self.map().dom(),
    {
        proof {
            use_type_invariant(self);
        }
        let r = self.keys.clone();
        assert(views(r@) =~= views(self.keys@));
        assert(self.map().dom() =~= self.key_seq().to_set());
        r
    }

    /// The key at position `i` in increasing order.
    pub fn key_at(&self, i: usize) -> (r: &String)
        requires
            i < self.key_seq().len(),
        ensures
            r@ == self.key_seq()[i as int],
    {
        proof {
            use_type_invariant(self);
        }
        &self.keys[i]
    }

    /// The value at position `i` in key order.
    pub fn value_at(&self, i: usize) -> (r: &V)
        requires
            i < self.key_seq().len(),
        ensures
            *r == self.value_seq()[i as int],
            *r == self.map()[self.key_seq()[i as int]],
    {
        proof {
            use_type_invariant(self);
            lemma_strictly_sorted_no_dup(self.key_seq());
            self.key_seq().index_of_first_ensures(self.key_seq()[i as int]);
        }
        &self.values[i]
    }
}

} // verus!
