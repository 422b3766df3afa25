//! Maps from string keys to values, kept as lists of distinct keys.
//!
//! The game keys several collections by identifier. Here such a map is a
//! list of key and value pairs in which no key occurs twice; its meaning is
//! the map from each key to its value.

use vstd::prelude::*;
use crate::wire::str_equals;

verus! {

/// Inserts `items` into `m` one after the other; a later item replaces an
/// earlier one with the same key.
pub open spec fn apply_keyed<V>(m: Map<Seq<char>, V>, items: Seq<(Seq<char>, V)>) -> Map<Seq<char>, V>
    decreases items.len(),
{
    if items.len() == 0 {
        m
    } else {
        apply_keyed(m, items.drop_last()).insert(items.last().0, items.last().1)
    }
}

/// No two items share a key.
pub open spec fn distinct_keys<V>(items: Seq<(Seq<char>, V)>) -> bool {
    forall|i: int, j: int| 0 <= i < j < items.len() ==> items[i].0 != items[j].0
}

/// Inserting items with distinct keys maps each item's key to its value.
pub proof fn lemma_apply_keyed_distinct<V>(items: Seq<(Seq<char>, V)>)
    requires
        distinct_keys(items),
    ensures
        forall|k: Seq<char>| apply_keyed(Map::empty(), items).contains_key(k)
            <==> exists|i: int| 0 <= i < items.len() && #[trigger] items[i].0 == k,
        forall|i: int| 0 <= i < items.len() ==> apply_keyed(Map::empty(), items)[#[trigger] items[i].0] == items[i].1,
    decreases items.len(),
{
    if items.len() > 0 {
        let init = items.drop_last();
        assert(distinct_keys(init));
        lemma_apply_keyed_distinct(init);
        let m = apply_keyed(Map::empty(), items);
        assert forall|k: Seq<char>| m.contains_key(k) <==> exists|i: int| 0 <= i < items.len() && #[trigger] items[i].0 == k by {
            if m.contains_key(k) && k != items.last().0 {
                assert(apply_keyed(Map::empty(), init).contains_key(k));
                let i = choose|i: int| 0 <= i < init.len() && #[trigger] init[i].0 == k;
                assert(init[i] == items[i]);
                assert(items[i].0 == k);
            }
            if m.contains_key(k) && k == items.last().0 {
                assert(items[items.len() - 1].0 == k);
            }
            if exists|i: int| 0 <= i < items.len() && #[trigger] items[i].0 == k {
                let i = choose|i: int| 0 <= i < items.len() && #[trigger] items[i].0 == k;
                if i < items.len() - 1 {
                    assert(init[i].0 == k);
                }
            }
        }
        assert forall|i: int| 0 <= i < items.len() implies m[#[trigger] items[i].0] == items[i].1 by {
            if i < items.len() - 1 {
                assert(items[i].0 != items.last().0);
                assert(init[i] == items[i]);
            }
        }
    }
}

/// Inserting items into an empty map gives each key that occurs the value of
/// its last occurrence.
pub proof fn lemma_apply_keyed_last<V>(items: Seq<(Seq<char>, V)>)
    ensures
        forall|k: Seq<char>| apply_keyed(Map::empty(), items).contains_key(k)
            <==> exists|i: int| 0 <= i < items.len() && #[trigger] items[i].0 == k,
        forall|k: Seq<char>| #[trigger] apply_keyed(Map::empty(), items).contains_key(k) ==>
            exists|j: int| 0 <= j < items.len() && #[trigger] items[j].0 == k
                && apply_keyed(Map::empty(), items)[k] == items[j].1
                && forall|l: int| j < l < items.len() ==> #[trigger] items[l].0 != k,
    decreases items.len(),
{
    if items.len() > 0 {
        let init = items.drop_last();
        let n = items.len() - 1;
        lemma_apply_keyed_last(init);
        let m = apply_keyed(Map::empty(), items);
        let m0 = apply_keyed(Map::empty(), init);
        assert forall|k: Seq<char>| m.contains_key(k) <==> exists|i: int| 0 <= i < items.len() && #[trigger] items[i].0 == k by {
            if m.contains_key(k) {
                if k == items.last().0 {
                    assert(items[n].0 == k);
                } else {
                    let i = choose|i: int| 0 <= i < init.len() && #[trigger] init[i].0 == k;
                    assert(items[i].0 == k);
                }
            }
            if exists|i: int| 0 <= i < items.len() && #[trigger] items[i].0 == k {
                let i = choose|i: int| 0 <= i < items.len() && #[trigger] items[i].0 == k;
                if i < n {
                    assert(init[i].0 == k);
                }
            }
        }
        assert forall|k: Seq<char>| #[trigger] m.contains_key(k) implies
            exists|j: int| 0 <= j < items.len() && #[trigger] items[j].0 == k
                && m[k] == items[j].1
                && forall|l: int| j < l < items.len() ==> #[trigger] items[l].0 != k by {
            if k == items.last().0 {
                assert(items[n].0 == k && m[k] == items[n].1);
            } else {
                assert(m0.contains_key(k));
                let j = choose|j: int| 0 <= j < init.len() && #[trigger] init[j].0 == k
                    && m0[k] == init[j].1
                    && forall|l: int| j < l < init.len() ==> #[trigger] init[l].0 != k;
                assert(items[j] == init[j]);
                assert forall|l: int| j < l < items.len() implies #[trigger] items[l].0 != k by {
                    if l < n {
                        assert(items[l] == init[l]);
                    }
                }
            }
        }
    }
}

/// Items with distinct keys that insert to the same map as `sel` hold one
/// entry per key of `sel`, each with the value of that key's last item in
/// `sel`.
pub proof fn lemma_distinct_of_last<V>(items: Seq<(Seq<char>, V)>, sel: Seq<(Seq<char>, V)>)
    requires
        distinct_keys(items),
        apply_keyed(Map::empty(), items) == apply_keyed(Map::empty(), sel),
    ensures
        forall|j: int| 0 <= j < sel.len() ==> exists|i: int| 0 <= i < items.len() && #[trigger] items[i].0 == (#[trigger] sel[j]).0,
        forall|i: int| 0 <= i < items.len() ==> exists|j: int| 0 <= j < sel.len()
            && #[trigger] sel[j].0 == (#[trigger] items[i]).0
            && items[i].1 == sel[j].1
            && forall|l: int| j < l < sel.len() ==> #[trigger] sel[l].0 != items[i].0,
{
    lemma_apply_keyed_distinct(items);
    lemma_apply_keyed_last(sel);
    let m = apply_keyed(Map::empty(), items);
    assert forall|j: int| 0 <= j < sel.len() implies exists|i: int| 0 <= i < items.len() && #[trigger] items[i].0 == (#[trigger] sel[j]).0 by {
        assert(m.contains_key(sel[j].0));
    }
    assert forall|i: int| 0 <= i < items.len() implies exists|j: int| 0 <= j < sel.len()
        && #[trigger] sel[j].0 == (#[trigger] items[i]).0
        && items[i].1 == sel[j].1
        && forall|l: int| j < l < sel.len() ==> #[trigger] sel[l].0 != items[i].0 by {
        assert(m.contains_key(items[i].0) && m[items[i].0] == items[i].1);
    }
}

/// Inserting the first item and then the rest is inserting all of them.
pub proof fn lemma_apply_keyed_front<V>(m: Map<Seq<char>, V>, items: Seq<(Seq<char>, V)>)
    requires
        items.len() > 0,
    ensures
        apply_keyed(m, items) == apply_keyed(m.insert(items[0].0, items[0].1), items.drop_first()),
    decreases items.len(),
{
    if items.len() == 1 {
        assert(items.drop_last() =~= Seq::<(Seq<char>, V)>::empty());
        assert(items.drop_first() =~= Seq::<(Seq<char>, V)>::empty());
        assert(apply_keyed(m, items.drop_last()) == m);
        assert(apply_keyed(m.insert(items[0].0, items[0].1), items.drop_first()) == m.insert(items[0].0, items[0].1));
    } else {
        lemma_apply_keyed_front(m, items.drop_last());
        assert(items.drop_last().drop_first() =~= items.drop_first().drop_last());
        assert(items.drop_first().last() == items.last());
    }
}

/// A map from string keys to values, as a list of distinct keys.
#[derive(Debug, Clone, PartialEq)]
pub struct KeyedList<V> {
    entries: Vec<(String, V)>,
}

impl<V> View for KeyedList<V> {
    type V = Map<Seq<char>, V>;

    /// The map from each key to its value.
    closed spec fn view(&self) -> Map<Seq<char>, V> {
        apply_keyed(Map::empty(), self.spec_items())
    }
}

impl<V> KeyedList<V> {
    /// The entries, as key and value, in the order they are kept.
    pub closed spec fn spec_items(self) -> Seq<(Seq<char>, V)> {
        self.entries@.map_values(|e: (String, V)| (e.0@, e.1))
    }

    /// The list's invariant: one entry per key.
    pub open spec fn wf(self) -> bool {
        distinct_keys(self.spec_items())
    }

    pub proof fn lemma_view(self)
        requires
            self.wf(),
        ensures
            forall|k: Seq<char>| self@.contains_key(k)
                <==> exists|i: int| 0 <= i < self.spec_items().len() && #[trigger] self.spec_items()[i].0 == k,
            forall|i: int| 0 <= i < self.spec_items().len() ==> self@[#[trigger] self.spec_items()[i].0] == self.spec_items()[i].1,
    {
        lemma_apply_keyed_distinct(self.spec_items());
    }

    /// The map is the entries inserted in their kept order.
    pub proof fn lemma_view_is_applied(self)
        ensures
            self@ == apply_keyed(Map::empty(), self.spec_items()),
    {
    }

    /// The number of keys equals the number of entries.
    pub proof fn lemma_len(self)
        requires
            self.wf(),
        ensures
            self@.dom().finite(),
            self@.dom().len() == self.spec_items().len(),
        decreases self.spec_items().len(),
    {
        lemma_distinct_keys_len(self.spec_items());
    }

    /// An empty map.
    pub fn new() -> (res: Self)
        ensures
            res.wf(),
            res@ == Map::<Seq<char>, V>::empty(),
    {
        let res = KeyedList { entries: Vec::new() };
        assert(res.spec_items() =~= Seq::<(Seq<char>, V)>::empty());
        res
    }

    /// The number of keys.
    pub fn len(&self) -> (res: usize)
        requires
            self.wf(),
        ensures
            res == self@.dom().len(),
    {
        proof {
            self.lemma_len();
        }
        self.entries.len()
    }

    /// Whether there are no keys.
    pub fn is_empty(&self) -> (res: bool)
        requires
            self.wf(),
        ensures
            res == (self@ == Map::<Seq<char>, V>::empty()),
    {
        proof {
            self.lemma_view();
            if self.entries@.len() > 0 {
                assert(self@.contains_key(self.spec_items()[0].0));
            } else {
                assert(self.spec_items() =~= Seq::<(Seq<char>, V)>::empty());
            }
        }
        self.entries.len() == 0
    }

    /// The entries, in the order they are kept.
    pub fn entries(&self) -> (res: &[(String, V)])
        ensures
            res@.map_values(|e: (String, V)| (e.0@, e.1)) == self.spec_items(),
    {
        self.entries.as_slice()
    }

    /// The position of the entry for `key`, if any.
    fn position(&self, key: &str) -> (res: Option<usize>)
        requires
            self.wf(),
        ensures
            match res {
                Some(i) => i < self.spec_items().len() && self.spec_items()[i as int].0 == key@,
                None => forall|i: int| 0 <= i < self.spec_items().len() ==> self.spec_items()[i].0 != key@,
            },
    {
        let mut i: usize = 0;
        while i < self.entries.len()
            invariant
                i <= self.entries@.len(),
                forall|j: int| 0 <= j < i ==> self.spec_items()[j].0 != key@,
            decreases self.entries.len() - i,
        {
            if str_equals(self.entries[i].0.as_str(), key) {
                return Some(i);
            }
            i = i + 1;
        }
        None
    }


    /// Maps `key` to `value`, replacing any earlier value.
    pub fn insert(&mut self, key: &str, value: V)
        requires
            old(self).wf(),
        ensures
            final(self).wf(),
            final(self)@ == old(self)@.insert(key@, value),
    {
        let ghost old_items = self.spec_items();
        proof {
            self.lemma_view();
        }
        match self.position(key) {
            Some(i) => {
                self.entries.set(i, (key.to_owned(), value));
                proof {
                    assert(self.spec_items() =~= old_items.update(i as int, (key@, value)));
                    assert(self.wf());
                    self.lemma_view();
                    assert(self@ =~= old(self)@.insert(key@, value)) by {
                        assert forall|k: Seq<char>| self@.contains_key(k) <==> old(self)@.insert(key@, value).contains_key(k) by {
                            if self@.contains_key(k) {
                                let j = choose|j: int| 0 <= j < self.spec_items().len() && #[trigger] self.spec_items()[j].0 == k;
                                if j != i {
                                    assert(old_items[j].0 == k);
                                }
                            }
                            if old(self)@.contains_key(k) && k != key@ {
                                let j = choose|j: int| 0 <= j < old_items.len() && #[trigger] old_items[j].0 == k;
                                assert(self.spec_items()[j].0 == k);
                            }
                            if k == key@ {
                                assert(self.spec_items()[i as int].0 == k);
                            }
                        }
                        assert forall|k: Seq<char>| self@.contains_key(k) implies self@[k] == old(self)@.insert(key@, value)[k] by {
                            let j = choose|j: int| 0 <= j < self.spec_items().len() && #[trigger] self.spec_items()[j].0 == k;
                            if j != i {
                                assert(old_items[j] == self.spec_items()[j]);
                                assert(old(self)@[old_items[j].0] == old_items[j].1);
                            }
                        }
                    }
                }
            },
            None => {
                self.entries.push((key.to_owned(), value));
                proof {
                    assert(self.spec_items() =~= old_items.push((key@, value)));
                    assert(self.spec_items().drop_last() =~= old_items);
                    assert(self@ == old(self)@.insert(key@, value));
                }
            },
        }
    }


    /// Drops `key` and its value, returning the value.
    pub fn remove(&mut self, key: &str) -> (res: Option<V>)
        requires
            old(self).wf(),
        ensures
            final(self).wf(),
            final(self)@ == old(self)@.remove(key@),
            match res {
                Some(v) => old(self)@.contains_key(key@) && v == old(self)@[key@],
                None => !old(self)@.contains_key(key@),
            },
    {
        let ghost old_items = self.spec_items();
        proof {
            self.lemma_view();
        }
        match self.position(key) {
            Some(i) => {
                let (_, value) = self.entries.remove(i);
                proof {
                    assert(old(self)@[old_items[i as int].0] == old_items[i as int].1);
                    assert(self.spec_items() =~= old_items.remove(i as int));
                    assert(self.wf());
                    self.lemma_view();
                    assert(self@ =~= old(self)@.remove(key@)) by {
                        assert forall|k: Seq<char>| self@.contains_key(k) <==> old(self)@.remove(key@).contains_key(k) by {
                            if self@.contains_key(k) {
                                let j = choose|j: int| 0 <= j < self.spec_items().len() && #[trigger] self.spec_items()[j].0 == k;
                                if j < i {
                                    assert(old_items[j].0 == k);
                                    assert(old_items[j].0 != old_items[i as int].0);
                                } else {
                                    assert(old_items[j + 1].0 == k);
                                    assert(old_items[i as int].0 != old_items[j + 1].0);
                                }
                            }
                            if old(self)@.contains_key(k) && k != key@ {
                                let j = choose|j: int| 0 <= j < old_items.len() && #[trigger] old_items[j].0 == k;
                                if j < i {
                                    assert(self.spec_items()[j].0 == k);
                                } else if j > i {
                                    assert(self.spec_items()[j - 1].0 == k);
                                }
                            }
                        }
                        assert forall|k: Seq<char>| self@.contains_key(k) implies self@[k] == old(self)@.remove(key@)[k] by {
                            let j = choose|j: int| 0 <= j < self.spec_items().len() && #[trigger] self.spec_items()[j].0 == k;
                            if j < i {
                                assert(old(self)@[old_items[j].0] == old_items[j].1);
                            } else {
                                assert(old(self)@[old_items[j + 1].0] == old_items[j + 1].1);
                            }
                        }
                    }
                }
                Some(value)
            },
            None => {
                proof {
                    assert(!old(self)@.contains_key(key@));
                    assert(old(self)@.remove(key@) =~= old(self)@);
                }
                None
            },
        }
    }

    /// The value of `key`, if any.
    pub fn get(&self, key: &str) -> (res: Option<&V>)
        requires
            self.wf(),
        ensures
            match res {
                Some(v) => self@.contains_key(key@) && *v == self@[key@],
                None => !self@.contains_key(key@),
            },
    {
        proof {
            self.lemma_view();
        }
        match self.position(key) {
            Some(i) => Some(&self.entries[i].1),
            None => None,
        }
    }
}

/// Items with distinct keys make a map with as many keys.
pub proof fn lemma_distinct_keys_len<V>(items: Seq<(Seq<char>, V)>)
    requires
        distinct_keys(items),
    ensures
        apply_keyed(Map::empty(), items).dom().finite(),
        apply_keyed(Map::empty(), items).dom().len() == items.len(),
    decreases items.len(),
{
    if items.len() > 0 {
        let init = items.drop_last();
        assert(distinct_keys(init));
        lemma_distinct_keys_len(init);
        lemma_apply_keyed_distinct(init);
        let k = items.last().0;
        if apply_keyed(Map::empty(), init).contains_key(k) {
            let i = choose|i: int| 0 <= i < init.len() && #[trigger] init[i].0 == k;
            assert(items[i].0 == items[items.len() - 1].0);
        }
    } else {
        assert(apply_keyed(Map::empty(), items).dom() =~= Set::<Seq<char>>::empty());
    }
}

} // verus!
