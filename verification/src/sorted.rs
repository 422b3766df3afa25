//! Maps from string keys to values kept in ascending key order.
//!
//! Strings order as Rust's `String` does: byte by byte over UTF-8, which is
//! the order of their characters' code points, a proper prefix first.

use vstd::prelude::*;
use crate::keyed::{apply_keyed, distinct_keys, lemma_apply_keyed_distinct};
use crate::wire::str_equals;

verus! {

/// Whether `a` sorts strictly before `b`.
pub open spec fn seq_less(a: Seq<char>, b: Seq<char>) -> bool
    decreases a.len(),
{
    if a.len() == 0 {
        b.len() > 0
    } else if b.len() == 0 {
        false
    } else if a[0] != b[0] {
        (a[0] as int) < (b[0] as int)
    } else {
        seq_less(a.drop_first(), b.drop_first())
    }
}

/// No string sorts before itself, and of two strings at most one sorts
/// before the other.
pub proof fn lemma_less_asymmetric(a: Seq<char>, b: Seq<char>)
    ensures
        seq_less(a, b) ==> !seq_less(b, a),
    decreases a.len(),
{
    if a.len() > 0 && b.len() > 0 && a[0] == b[0] {
        lemma_less_asymmetric(a.drop_first(), b.drop_first());
    }
}

/// The order is transitive.
pub proof fn lemma_less_transitive(a: Seq<char>, b: Seq<char>, c: Seq<char>)
    requires
        seq_less(a, b),
        seq_less(b, c),
    ensures
        seq_less(a, c),
    decreases a.len(),
{
    if a.len() > 0 && b.len() > 0 && c.len() > 0 && a[0] == b[0] && b[0] == c[0] {
        lemma_less_transitive(a.drop_first(), b.drop_first(), c.drop_first());
    }
}

/// Of two different strings one sorts before the other.
pub proof fn lemma_less_total(a: Seq<char>, b: Seq<char>)
    requires
        a != b,
    ensures
        seq_less(a, b) || seq_less(b, a),
    decreases a.len(),
{
    if a.len() == 0 {
        assert(b.len() > 0) by {
            if b.len() == 0 {
                assert(a =~= b);
            }
        }
    } else if b.len() > 0 && a[0] == b[0] {
        if a.drop_first() == b.drop_first() {
            assert(a =~= seq![a[0]] + a.drop_first());
            assert(b =~= seq![b[0]] + b.drop_first());
        }
        lemma_less_total(a.drop_first(), b.drop_first());
    } else if b.len() > 0 {
        assert((a[0] as int) != (b[0] as int));
    }
}

/// Whether `a` sorts strictly before `b`.
pub fn str_less(a: &str, b: &str) -> (res: bool)
    ensures
        res == seq_less(a@, b@),
{
    let n = a.unicode_len();
    let m = b.unicode_len();
    let mut i: usize = 0;
    assert(a@.skip(0) =~= a@ && b@.skip(0) =~= b@);
    while i < n && i < m
        invariant
            n == a@.len(),
            m == b@.len(),
            i <= n,
            i <= m,
            seq_less(a@, b@) == seq_less(a@.skip(i as int), b@.skip(i as int)),
        decreases n - i,
    {
        let x = a.get_char(i);
        let y = b.get_char(i);
        assert(a@.skip(i as int)[0] == x && b@.skip(i as int)[0] == y);
        if x != y {
            return (x as u32) < (y as u32);
        }
        assert(a@.skip(i as int).drop_first() =~= a@.skip(i + 1));
        assert(b@.skip(i as int).drop_first() =~= b@.skip(i + 1));
        i = i + 1;
    }
    i < m
}

/// Keys in strictly ascending order.
pub open spec fn strictly_sorted<V>(items: Seq<(Seq<char>, V)>) -> bool {
    forall|i: int, j: int| 0 <= i < j < items.len() ==> seq_less(#[trigger] items[i].0, #[trigger] items[j].0)
}

/// Strictly ascending keys are distinct.
pub proof fn lemma_sorted_distinct<V>(items: Seq<(Seq<char>, V)>)
    requires
        strictly_sorted(items),
    ensures
        distinct_keys(items),
{
    assert forall|i: int, j: int| 0 <= i < j < items.len() implies items[i].0 != items[j].0 by {
        assert(seq_less(items[i].0, items[j].0));
        lemma_less_asymmetric(items[i].0, items[j].0);
    }
}

/// Two lists in strictly ascending key order that set the same map are the
/// same list.
pub proof fn lemma_sorted_unique<V>(a: Seq<(Seq<char>, V)>, b: Seq<(Seq<char>, V)>)
    requires
        strictly_sorted(a),
        strictly_sorted(b),
        apply_keyed(Map::empty(), a) == apply_keyed(Map::empty(), b),
    ensures
        a == b,
    decreases a.len(),
{
    lemma_sorted_distinct(a);
    lemma_sorted_distinct(b);
    lemma_apply_keyed_distinct(a);
    lemma_apply_keyed_distinct(b);
    let m = apply_keyed(Map::empty(), a);
    if a.len() == 0 {
        if b.len() > 0 {
            assert(m.contains_key(b[0].0));
        }
        assert(a =~= b);
    } else if b.len() == 0 {
        assert(m.contains_key(a[0].0));
    } else {
        let ka = a[0].0;
        let kb = b[0].0;
        assert(m.contains_key(ka));
        assert(m.contains_key(kb));
        let j = choose|j: int| 0 <= j < b.len() && #[trigger] b[j].0 == ka;
        let i = choose|i: int| 0 <= i < a.len() && #[trigger] a[i].0 == kb;
        if ka != kb {
            assert(j > 0 && i > 0);
            assert(seq_less(b[0].0, b[j].0));
            assert(seq_less(a[0].0, a[i].0));
            lemma_less_asymmetric(ka, kb);
        }
        assert(a[0].1 == m[ka] && b[0].1 == m[kb]);
        let ta = a.drop_first();
        let tb = b.drop_first();
        assert(strictly_sorted(ta)) by {
            assert forall|x: int, y: int| 0 <= x < y < ta.len() implies seq_less(#[trigger] ta[x].0, #[trigger] ta[y].0) by {
                assert(seq_less(a[x + 1].0, a[y + 1].0));
            }
        }
        assert(strictly_sorted(tb)) by {
            assert forall|x: int, y: int| 0 <= x < y < tb.len() implies seq_less(#[trigger] tb[x].0, #[trigger] tb[y].0) by {
                assert(seq_less(b[x + 1].0, b[y + 1].0));
            }
        }
        lemma_sorted_distinct(ta);
        lemma_sorted_distinct(tb);
        lemma_apply_keyed_distinct(ta);
        lemma_apply_keyed_distinct(tb);
        let ma = apply_keyed(Map::empty(), ta);
        let mb = apply_keyed(Map::empty(), tb);
        assert forall|k: Seq<char>| ma.contains_key(k) <==> mb.contains_key(k) by {
            if ma.contains_key(k) {
                let x = choose|x: int| 0 <= x < ta.len() && #[trigger] ta[x].0 == k;
                assert(a[x + 1].0 == k && a[0].0 != k);
                assert(m.contains_key(k));
                let y = choose|y: int| 0 <= y < b.len() && #[trigger] b[y].0 == k;
                assert(y != 0);
                assert(tb[y - 1].0 == k);
            }
            if mb.contains_key(k) {
                let y = choose|y: int| 0 <= y < tb.len() && #[trigger] tb[y].0 == k;
                assert(b[y + 1].0 == k && b[0].0 != k);
                assert(m.contains_key(k));
                let x = choose|x: int| 0 <= x < a.len() && #[trigger] a[x].0 == k;
                assert(x != 0);
                assert(ta[x - 1].0 == k);
            }
        }
        assert forall|k: Seq<char>| #[trigger] ma.contains_key(k) implies ma[k] == mb[k] by {
            let x = choose|x: int| 0 <= x < ta.len() && #[trigger] ta[x].0 == k;
            let y = choose|y: int| 0 <= y < tb.len() && #[trigger] tb[y].0 == k;
            assert(a[x + 1].0 == k && b[y + 1].0 == k);
            assert(ma[k] == a[x + 1].1 && m[k] == a[x + 1].1);
            assert(mb[k] == b[y + 1].1 && m[k] == b[y + 1].1);
        }
        assert(ma =~= mb);
        lemma_sorted_unique(ta, tb);
        assert(a =~= seq![a[0]] + ta);
        assert(b =~= seq![b[0]] + tb);
    }
}

/// A map from string keys to values, as a list in ascending key order.
#[derive(Debug, Clone, PartialEq, Eq)]
pub struct SortedStringMap<V> {
    entries: Vec<(String, V)>,
}

impl<V> View for SortedStringMap<V> {
    type V = Map<Seq<char>, V>;

    /// The map from each key to its value.
    closed spec fn view(&self) -> Map<Seq<char>, V> {
        apply_keyed(Map::empty(), self.spec_items())
    }
}

impl<V> SortedStringMap<V> {
    /// The entries, as key and value, in ascending key order.
    pub closed spec fn spec_items(self) -> Seq<(Seq<char>, V)> {
        self.entries@.map_values(|e: (String, V)| (e.0@, e.1))
    }

    /// The invariant: keys strictly ascend.
    pub open spec fn wf(self) -> bool {
        strictly_sorted(self.spec_items())
    }

    /// The map's keys and values are the entries'.
    pub proof fn lemma_view(self)
        requires
            self.wf(),
        ensures
            forall|k: Seq<char>| self@.contains_key(k)
                <==> exists|i: int| 0 <= i < self.spec_items().len() && #[trigger] self.spec_items()[i].0 == k,
            forall|i: int| 0 <= i < self.spec_items().len() ==> self@[#[trigger] self.spec_items()[i].0] == self.spec_items()[i].1,
            self@ == apply_keyed(Map::empty(), self.spec_items()),
    {
        lemma_sorted_distinct(self.spec_items());
        lemma_apply_keyed_distinct(self.spec_items());
    }

    /// An empty map.
    pub fn new() -> (res: Self)
        ensures
            res.wf(),
            res.spec_items() == Seq::<(Seq<char>, V)>::empty(),
            res@ == Map::<Seq<char>, V>::empty(),
    {
        let res = SortedStringMap { entries: Vec::new() };
        assert(res.spec_items() =~= Seq::<(Seq<char>, V)>::empty());
        res
    }

    /// The number of entries.
    pub fn len(&self) -> (res: usize)
        ensures
            res == self.spec_items().len(),
    {
        self.entries.len()
    }

    /// Whether there are no entries.
    pub fn is_empty(&self) -> (res: bool)
        ensures
            res == (self.spec_items().len() == 0),
    {
        self.entries.len() == 0
    }

    /// The entries in ascending key order.
    pub fn entries(&self) -> (res: &[(String, V)])
        ensures
            res@.map_values(|e: (String, V)| (e.0@, e.1)) == self.spec_items(),
    {
        self.entries.as_slice()
    }

    /// The first position whose key does not sort before `key`.
    fn lower_bound(&self, key: &str) -> (res: usize)
        requires
            self.wf(),
        ensures
            res <= self.spec_items().len(),
            forall|j: int| 0 <= j < res ==> seq_less(#[trigger] self.spec_items()[j].0, key@),
            res < self.spec_items().len() ==> !seq_less(self.spec_items()[res as int].0, key@),
    {
        let mut i: usize = 0;
        while i < self.entries.len()
            invariant
                i <= self.entries@.len(),
                forall|j: int| 0 <= j < i ==> seq_less(#[trigger] self.spec_items()[j].0, key@),
            decreases self.entries.len() - i,
        {
            if !str_less(self.entries[i].0.as_str(), key) {
                return i;
            }
            i = i + 1;
        }
        i
    }

    /// The value of `key`, if any.
    pub fn get(&self, key: &str) -> (res: Option<&V>)
        requires
            self.wf(),
        ensures
            match res {
                Some(v) => self@.contains_key(key@) && *v == self@[key@],
                None => !self@.contains_key(key@),
            },
    {
        proof {
            self.lemma_view();
        }
        let i = self.lower_bound(key);
        if i < self.entries.len() && str_equals(self.entries[i].0.as_str(), key) {
            Some(&self.entries[i].1)
        } else {
            proof {
                if self@.contains_key(key@) {
                    let j = choose|j: int| 0 <= j < self.spec_items().len() && #[trigger] self.spec_items()[j].0 == key@;
                    if j < i {
                        assert(seq_less(self.spec_items()[j].0, key@));
                        lemma_less_asymmetric(key@, key@);
                    } else if j > i {
                        assert(seq_less(self.spec_items()[i as int].0, self.spec_items()[j].0));
                        lemma_less_total(self.spec_items()[i as int].0, key@);
                    }
                }
            }
            None
        }
    }

    /// Maps `key` to `value`, replacing any earlier value; the keys stay in
    /// ascending order.
    pub fn insert(&mut self, key: String, value: V)
        requires
            old(self).wf(),
        ensures
            final(self).wf(),
            final(self)@ == old(self)@.insert(key@, value),
    {
        let ghost old_items = self.spec_items();
        let ghost k = key@;
        proof {
            self.lemma_view();
        }
        let i = self.lower_bound(key.as_str());
        if i < self.entries.len() && str_equals(self.entries[i].0.as_str(), key.as_str()) {
            self.entries.set(i, (key, value));
            proof {
                let items = self.spec_items();
                assert(items =~= old_items.update(i as int, (k, value)));
                assert forall|a: int, b: int| 0 <= a < b < items.len() implies seq_less(#[trigger] items[a].0, #[trigger] items[b].0) by {
                    assert(seq_less(old_items[a].0, old_items[b].0));
                }
                self.lemma_view();
                assert(self@ =~= old(self)@.insert(k, value)) by {
                    assert forall|x: Seq<char>| self@.contains_key(x) <==> old(self)@.insert(k, value).contains_key(x) by {
                        if self@.contains_key(x) {
                            let j = choose|j: int| 0 <= j < items.len() && #[trigger] items[j].0 == x;
                            if j != i {
                                assert(old_items[j].0 == x);
                            }
                        }
                        if old(self)@.contains_key(x) && x != k {
                            let j = choose|j: int| 0 <= j < old_items.len() && #[trigger] old_items[j].0 == x;
                            assert(items[j].0 == x);
                        }
                        if x == k {
                            assert(items[i as int].0 == x);
                        }
                    }
                    assert forall|x: Seq<char>| self@.contains_key(x) implies self@[x] == old(self)@.insert(k, value)[x] by {
                        let j = choose|j: int| 0 <= j < items.len() && #[trigger] items[j].0 == x;
                        if j != i {
                            assert(old_items[j] == items[j]);
                            assert(old(self)@[old_items[j].0] == old_items[j].1);
                        }
                    }
                }
            }
        } else {
            self.entries.insert(i, (key, value));
            proof {
                let items = self.spec_items();
                assert(items =~= old_items.insert(i as int, (k, value)));
                if i < old_items.len() {
                    assert(old_items[i as int].0 != k);
                    lemma_less_total(old_items[i as int].0, k);
                    assert(seq_less(k, old_items[i as int].0));
                }
                assert forall|a: int, b: int| 0 <= a < b < items.len() implies seq_less(#[trigger] items[a].0, #[trigger] items[b].0) by {
                    if b < i {
                        assert(seq_less(old_items[a].0, old_items[b].0));
                    } else if b == i {
                        assert(seq_less(old_items[a].0, k));
                    } else if a < i {
                        assert(seq_less(old_items[a].0, k));
                        if b - 1 == i {
                            assert(seq_less(k, old_items[b - 1].0));
                        } else {
                            assert(seq_less(old_items[i as int].0, old_items[b - 1].0));
                            lemma_less_transitive(k, old_items[i as int].0, old_items[b - 1].0);
                        }
                        lemma_less_transitive(old_items[a].0, k, old_items[b - 1].0);
                    } else if a == i {
                        if b - 1 > i {
                            assert(seq_less(old_items[i as int].0, old_items[b - 1].0));
                            lemma_less_transitive(k, old_items[i as int].0, old_items[b - 1].0);
                        }
                    } else {
                        assert(seq_less(old_items[a - 1].0, old_items[b - 1].0));
                    }
                }
                self.lemma_view();
                lemma_sorted_distinct(items);
                assert(self@ =~= old(self)@.insert(k, value)) by {
                    assert forall|x: Seq<char>| self@.contains_key(x) <==> old(self)@.insert(k, value).contains_key(x) by {
                        if self@.contains_key(x) && x != k {
                            let j = choose|j: int| 0 <= j < items.len() && #[trigger] items[j].0 == x;
                            if j < i {
                                assert(old_items[j].0 == x);
                            } else if j > i {
                                assert(old_items[j - 1].0 == x);
                            }
                        }
                        if old(self)@.contains_key(x) && x != k {
                            let j = choose|j: int| 0 <= j < old_items.len() && #[trigger] old_items[j].0 == x;
                            if j < i {
                                assert(items[j].0 == x);
                            } else {
                                assert(items[j + 1].0 == x);
                            }
                        }
                        if x == k {
                            assert(items[i as int].0 == x);
                        }
                    }
                    assert forall|x: Seq<char>| self@.contains_key(x) implies self@[x] == old(self)@.insert(k, value)[x] by {
                        let j = choose|j: int| 0 <= j < items.len() && #[trigger] items[j].0 == x;
                        if j < i {
                            assert(items[j].0 != items[i as int].0);
                            assert(old_items[j] == items[j]);
                            assert(old(self)@[old_items[j].0] == old_items[j].1);
                        } else if j > i {
                            assert(items[i as int].0 != items[j].0);
                            assert(old_items[j - 1] == items[j]);
                            assert(old(self)@[old_items[j - 1].0] == old_items[j - 1].1);
                        }
                    }
                }
            }
        }
    }
}

} // verus!
