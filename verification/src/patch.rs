//! The registry of data component types and component patches.
//!
//! The registry lists every component type by network id, with its key and
//! the codec its values use. A patch records, per component key, either a
//! value that overrides an item's prototype or the removal of the component.
//! On the network a patch is the number of set and of removed components,
//! then each set component as its id and value, then each removed id.

use vstd::prelude::*;
use crate::component_data::{ComponentData, ComponentKind, DataView, PersistentCodec, is_value_view, lemma_component_data_round_trip};
use crate::wire::{
    WireError, concat_map, lemma_bounded_count_round_trip, lemma_concat_map_push,
    lemma_prepend_items_assoc, lemma_read_seq_round_trip, lemma_varint_round_trip, prepend_items,
    read_non_negative_varint, spec_read_non_negative_varint, spec_read_seq, spec_read_varint,
    varint_bytes, write_varint, read_varint, str_equals,
};

verus! {

broadcast use vstd::seq_lib::group_seq_properties;

/// A registered component type.
#[derive(Debug, Clone, PartialEq)]
pub struct ComponentEntry {
    pub key: String,
    pub kind: ComponentKind,
    /// The persistent (NBT) codec, where the component is saved at all.
    pub persistent: Option<PersistentCodec>,
}

/// No two registered component types share a key.
pub open spec fn registry_keys_distinct(entries: Seq<ComponentEntry>) -> bool {
    forall|i: int, j: int| 0 <= i < j < entries.len() ==> entries[i].key@ != entries[j].key@
}

/// Whether `key` is registered.
pub open spec fn registry_has_key(entries: Seq<ComponentEntry>, key: Seq<char>) -> bool {
    exists|i: int| 0 <= i < entries.len() && #[trigger] entries[i].key@ == key
}

/// The network id of the registered component type `key`.
pub open spec fn registry_id(entries: Seq<ComponentEntry>, key: Seq<char>) -> int {
    choose|i: int| 0 <= i < entries.len() && #[trigger] entries[i].key@ == key
}

/// With distinct keys, an index holding `key` is the id of `key`.
pub proof fn lemma_registry_id_unique(entries: Seq<ComponentEntry>, key: Seq<char>, i: int)
    requires
        registry_keys_distinct(entries),
        0 <= i < entries.len(),
        entries[i].key@ == key,
    ensures
        registry_id(entries, key) == i,
{
    let j = registry_id(entries, key);
    assert(0 <= j < entries.len() && entries[j].key@ == key);
    if j < i {
        assert(entries[j].key@ != entries[i].key@);
    } else if j > i {
        assert(entries[i].key@ != entries[j].key@);
    }
}

/// The persistent codec of the registered component type `key`; `None`
/// where it is not registered or not saved.
pub open spec fn spec_persistent_codec(entries: Seq<ComponentEntry>, key: Seq<char>) -> Option<PersistentCodec> {
    if registry_has_key(entries, key) {
        entries[registry_id(entries, key)].persistent
    } else {
        None
    }
}

/// The component types known to the game, by network id.
#[derive(Debug)]
pub struct DataComponentRegistry {
    entries: Vec<ComponentEntry>,
    allows_registering: bool,
}

/// Why a registration was refused.
#[derive(Debug, Clone, Copy, PartialEq, Eq, Structural)]
pub enum RegistrationError {
    /// Registration is closed.
    Frozen,
    /// The key is already registered.
    DuplicateKey,
}

impl DataComponentRegistry {
    /// The registered types, by network id.
    pub closed spec fn spec_entries(self) -> Seq<ComponentEntry> {
        self.entries@
    }

    /// Whether registration is still open.
    pub closed spec fn spec_allows_registering(self) -> bool {
        self.allows_registering
    }

    /// The registry's invariant: keys are distinct.
    pub open spec fn wf(self) -> bool {
        registry_keys_distinct(self.spec_entries())
    }

    /// An empty registry open for registration.
    pub fn new() -> (res: Self)
        ensures
            res.wf(),
            res.spec_entries() == Seq::<ComponentEntry>::empty(),
            res.spec_allows_registering(),
    {
        DataComponentRegistry { entries: Vec::new(), allows_registering: true }
    }

    /// Registers a component type under the next network id, which it returns.
    /// Registration must be open and the key must be new.
    pub fn register(&mut self, key: String, kind: ComponentKind, persistent: Option<PersistentCodec>) -> (id: usize)
        requires
            old(self).wf(),
            old(self).spec_allows_registering(),
            !registry_has_key(old(self).spec_entries(), key@),
        ensures
            final(self).wf(),
            id == old(self).spec_entries().len(),
            final(self).spec_entries() == old(self).spec_entries().push(ComponentEntry { key, kind, persistent }),
            final(self).spec_allows_registering(),
    {
        let id = self.entries.len();
        self.entries.push(ComponentEntry { key, kind, persistent });
        proof {
            let es = self.entries@;
            assert forall|i: int, j: int| 0 <= i < j < es.len() implies es[i].key@ != es[j].key@ by {
                if j == es.len() - 1 {
                    assert(old(self).spec_entries()[i] == es[i]);
                    if es[i].key@ == es[j].key@ {
                        assert(registry_has_key(old(self).spec_entries(), es[j].key@));
                    }
                }
            }
        }
        id
    }

    /// Registers a component type like `register`, refusing, without any
    /// change, a closed registry or a key already registered.
    pub fn try_register(&mut self, key: String, kind: ComponentKind, persistent: Option<PersistentCodec>) -> (res: Result<usize, RegistrationError>)
        requires
            old(self).wf(),
        ensures
            final(self).wf(),
            final(self).spec_allows_registering() == old(self).spec_allows_registering(),
            match res {
                Ok(id) => old(self).spec_allows_registering() && !registry_has_key(old(self).spec_entries(), key@)
                    && id == old(self).spec_entries().len()
                    && final(self).spec_entries() == old(self).spec_entries().push(ComponentEntry { key, kind, persistent }),
                Err(RegistrationError::Frozen) => !old(self).spec_allows_registering()
                    && final(self).spec_entries() == old(self).spec_entries(),
                Err(RegistrationError::DuplicateKey) => old(self).spec_allows_registering()
                    && registry_has_key(old(self).spec_entries(), key@)
                    && final(self).spec_entries() == old(self).spec_entries(),
            },
    {
        if !self.allows_registering {
            return Err(RegistrationError::Frozen);
        }
        if self.get_id(key.as_str()).is_some() {
            return Err(RegistrationError::DuplicateKey);
        }
        Ok(self.register(key, kind, persistent))
    }

    /// Closes registration.
    pub fn freeze(&mut self)
        ensures
            final(self).spec_entries() == old(self).spec_entries(),
            !final(self).spec_allows_registering(),
    {
        self.allows_registering = false;
    }

    /// Whether registration is still open.
    pub fn allows_registering(&self) -> (res: bool)
        ensures
            res == self.spec_allows_registering(),
    {
        self.allows_registering
    }

    /// The number of registered types.
    pub fn len(&self) -> (res: usize)
        ensures
            res == self.spec_entries().len(),
    {
        self.entries.len()
    }

    /// The network id of the component type `key`, if it is registered.
    pub fn get_id(&self, key: &str) -> (res: Option<usize>)
        requires
            self.wf(),
        ensures
            match res {
                Some(id) => registry_has_key(self.spec_entries(), key@) && id == registry_id(self.spec_entries(), key@)
                    && id < self.spec_entries().len(),
                None => !registry_has_key(self.spec_entries(), key@),
            },
    {
        let mut i: usize = 0;
        while i < self.entries.len()
            invariant
                self.wf(),
                i <= self.entries@.len(),
                forall|j: int| 0 <= j < i ==> self.entries@[j].key@ != key@,
            decreases self.entries.len() - i,
        {
            if str_equals(self.entries[i].key.as_str(), key) {
                proof {
                    assert(self.wf());
                    lemma_registry_id_unique(self.entries@, key@, i as int);
                }
                return Some(i);
            }
            i = i + 1;
        }
        None
    }

    /// The key of the component type with network id `id`.
    pub fn get_key_by_id(&self, id: usize) -> (res: Option<&String>)
        ensures
            match res {
                Some(k) => id < self.spec_entries().len() && *k == self.spec_entries()[id as int].key,
                None => id >= self.spec_entries().len(),
            },
    {
        if id < self.entries.len() {
            Some(&self.entries[id].key)
        } else {
            None
        }
    }

    /// The persistent codec of the component type `key`; `None` where it is
    /// not registered or not saved.
    pub fn persistent_codec(&self, key: &str) -> (res: Option<PersistentCodec>)
        requires
            self.wf(),
        ensures
            res == spec_persistent_codec(self.spec_entries(), key@),
    {
        match self.get_id(key) {
            Some(id) => self.entries[id].persistent,
            None => None,
        }
    }

    /// The component type with network id `id`.
    pub fn by_id(&self, id: usize) -> (res: Option<&ComponentEntry>)
        ensures
            match res {
                Some(e) => id < self.spec_entries().len() && *e == self.spec_entries()[id as int],
                None => id >= self.spec_entries().len(),
            },
    {
        if id < self.entries.len() {
            Some(&self.entries[id])
        } else {
            None
        }
    }

    /// The component type registered under `key`.
    pub fn by_key(&self, key: &str) -> (res: Option<&ComponentEntry>)
        requires
            self.wf(),
        ensures
            match res {
                Some(e) => registry_has_key(self.spec_entries(), key@)
                    && *e == self.spec_entries()[registry_id(self.spec_entries(), key@)],
                None => !registry_has_key(self.spec_entries(), key@),
            },
    {
        match self.get_id(key) {
            Some(id) => self.by_id(id),
            None => None,
        }
    }
}

/// What a patch does to one component.
#[derive(Debug, Clone, PartialEq)]
pub enum ComponentPatchEntry {
    /// The component is set to this value.
    Value(ComponentData),
    /// The component is removed.
    Removed,
}

/// What a patch does to one component, as specifications see it.
#[verifier::ext_equal]
pub enum EntryView {
    /// The component is set to this value.
    Value(DataView),
    /// The component is removed.
    Removed,
}

impl View for ComponentPatchEntry {
    type V = EntryView;

    open spec fn view(&self) -> EntryView {
        match *self {
            ComponentPatchEntry::Value(d) => EntryView::Value(d@),
            ComponentPatchEntry::Removed => EntryView::Removed,
        }
    }
}

/// Inserts `items` into `m` one after the other; a later item replaces an
/// earlier one with the same key.
pub open spec fn apply_entries(
    m: Map<Seq<char>, EntryView>,
    items: Seq<(Seq<char>, EntryView)>,
) -> Map<Seq<char>, EntryView>
    decreases items.len(),
{
    if items.len() == 0 {
        m
    } else {
        apply_entries(m, items.drop_last()).insert(items.last().0, items.last().1)
    }
}

/// No two items share a key.
pub open spec fn distinct_item_keys(items: Seq<(Seq<char>, EntryView)>) -> bool {
    forall|i: int, j: int| 0 <= i < j < items.len() ==> items[i].0 != items[j].0
}

/// Inserting items with distinct keys maps each item's key to its entry.
pub proof fn lemma_apply_distinct(items: Seq<(Seq<char>, EntryView)>)
    requires
        distinct_item_keys(items),
    ensures
        forall|k: Seq<char>| apply_entries(Map::empty(), items).contains_key(k)
            <==> exists|i: int| 0 <= i < items.len() && #[trigger] items[i].0 == k,
        forall|i: int| 0 <= i < items.len() ==> apply_entries(Map::empty(), items)[#[trigger] items[i].0] == items[i].1,
    decreases items.len(),
{
    if items.len() > 0 {
        let init = items.drop_last();
        assert(distinct_item_keys(init));
        lemma_apply_distinct(init);
        let m = apply_entries(Map::empty(), items);
        assert forall|k: Seq<char>| m.contains_key(k) <==> exists|i: int| 0 <= i < items.len() && #[trigger] items[i].0 == k by {
            if m.contains_key(k) && k != items.last().0 {
                assert(apply_entries(Map::empty(), init).contains_key(k));
                let i = choose|i: int| 0 <= i < init.len() && #[trigger] init[i].0 == k;
                assert(init[i] == items[i]);
                assert(items[i].0 == k);
            }
            if m.contains_key(k) && k == items.last().0 {
                assert(items[items.len() - 1].0 == k);
            }
            if exists|i: int| 0 <= i < items.len() && #[trigger] items[i].0 == k {
                let i = choose|i: int| 0 <= i < items.len() && #[trigger] items[i].0 == k;
                if i < items.len() - 1 {
                    assert(init[i].0 == k);
                }
            }
        }
        assert forall|i: int| 0 <= i < items.len() implies m[#[trigger] items[i].0] == items[i].1 by {
            if i < items.len() - 1 {
                assert(items[i].0 != items.last().0);
                assert(init[i] == items[i]);
            }
        }
    }
}

/// Two lists of items with distinct keys and the same items give the same map.
pub proof fn lemma_apply_same_items(a: Seq<(Seq<char>, EntryView)>, b: Seq<(Seq<char>, EntryView)>)
    requires
        distinct_item_keys(a),
        distinct_item_keys(b),
        forall|x: (Seq<char>, EntryView)| a.contains(x) <==> b.contains(x),
    ensures
        apply_entries(Map::empty(), a) == apply_entries(Map::empty(), b),
{
    lemma_apply_distinct(a);
    lemma_apply_distinct(b);
    let ma = apply_entries(Map::empty(), a);
    let mb = apply_entries(Map::empty(), b);
    assert forall|k: Seq<char>| ma.contains_key(k) <==> mb.contains_key(k) by {
        if ma.contains_key(k) {
            let i = choose|i: int| 0 <= i < a.len() && #[trigger] a[i].0 == k;
            assert(a.contains(a[i]));
            let j = choose|j: int| 0 <= j < b.len() && b[j] == a[i];
            assert(b[j].0 == k);
        }
        if mb.contains_key(k) {
            let i = choose|i: int| 0 <= i < b.len() && #[trigger] b[i].0 == k;
            assert(b.contains(b[i]));
            let j = choose|j: int| 0 <= j < a.len() && a[j] == b[i];
            assert(a[j].0 == k);
        }
    }
    assert forall|k: Seq<char>| ma.contains_key(k) implies ma[k] == mb[k] by {
        let i = choose|i: int| 0 <= i < a.len() && #[trigger] a[i].0 == k;
        assert(a.contains(a[i]));
        let j = choose|j: int| 0 <= j < b.len() && b[j] == a[i];
        assert(ma[a[i].0] == a[i].1);
        assert(mb[b[j].0] == b[j].1);
    }
    assert(ma =~= mb);
}

/// Inserting `a` and then `b` is inserting `a + b`.
pub proof fn lemma_apply_concat(
    m: Map<Seq<char>, EntryView>,
    a: Seq<(Seq<char>, EntryView)>,
    b: Seq<(Seq<char>, EntryView)>,
)
    ensures
        apply_entries(apply_entries(m, a), b) == apply_entries(m, a + b),
    decreases b.len(),
{
    if b.len() == 0 {
        assert(a + b =~= a);
    } else {
        lemma_apply_concat(m, a, b.drop_last());
        assert((a + b).drop_last() =~= a + b.drop_last());
        assert((a + b).last() == b.last());
    }
}

/// The items of `items` that set a value, in order.
pub open spec fn set_items(items: Seq<(Seq<char>, EntryView)>) -> Seq<(Seq<char>, EntryView)> {
    items.filter_map(|e: (Seq<char>, EntryView)| if e.1 is Value { Some(e) } else { None })
}

/// The items of `items` that remove a component, in order.
pub open spec fn removed_items(items: Seq<(Seq<char>, EntryView)>) -> Seq<(Seq<char>, EntryView)> {
    items.filter_map(|e: (Seq<char>, EntryView)| if e.1 is Removed { Some(e) } else { None })
}

/// A filter of items with distinct keys keeps distinct keys, keeps only items
/// of the list, and keeps every item that passes.
pub proof fn lemma_filter_items(items: Seq<(Seq<char>, EntryView)>, f: spec_fn((Seq<char>, EntryView)) -> Option<(Seq<char>, EntryView)>)
    requires
        distinct_item_keys(items),
        forall|x: (Seq<char>, EntryView)| #[trigger] f(x) is Some ==> f(x) == Some(x),
    ensures
        distinct_item_keys(items.filter_map(f)),
        forall|x: (Seq<char>, EntryView)| items.filter_map(f).contains(x) <==> (items.contains(x) && #[trigger] f(x) is Some),
    decreases items.len(),
{
    if items.len() > 0 {
        let init = items.drop_last();
        let x = items.last();
        assert(distinct_item_keys(init));
        lemma_filter_items(init, f);
        let fi = init.filter_map(f);
        let fm = items.filter_map(f);
        if f(x) is Some {
            assert(f(x) == Some(x));
            assert(fm == fi + seq![x]);
            assert forall|i: int, j: int| 0 <= i < j < fm.len() implies fm[i].0 != fm[j].0 by {
                if j == fm.len() - 1 {
                    assert(fm[i] == fi[i]);
                    assert(fi.contains(fi[i]));
                    assert(init.contains(fi[i]) && f(fi[i]) is Some);
                    let k = choose|k: int| 0 <= k < init.len() && init[k] == fi[i];
                    assert(items[k] == init[k]);
                    assert(items[k].0 != items[items.len() - 1].0);
                    assert(fm[j] == x);
                }
            }
        } else {
            assert(fm == fi);
        }
        assert forall|y: (Seq<char>, EntryView)| fm.contains(y) <==> (items.contains(y) && #[trigger] f(y) is Some) by {
            if items.contains(y) && f(y) is Some && y != x {
                let k = choose|k: int| 0 <= k < items.len() && items[k] == y;
                assert(init.contains(y)) by {
                    assert(init[k] == y);
                }
            }
            if fi.contains(y) {
                let k = choose|k: int| 0 <= k < init.len() && init[k] == y;
                assert(items[k] == y);
            }
            if fm.contains(y) && f(x) is Some {
                let k = choose|k: int| 0 <= k < fm.len() && fm[k] == y;
                if k < fi.len() {
                    assert(fi.contains(y)) by {
                        assert(fi[k] == y);
                    }
                }
            }
            if fm.contains(y) && !(f(x) is Some) {
                assert(fi.contains(y));
            }
        }
    }
}

/// Changes to the components of an item relative to its prototype.
#[derive(Debug, Clone, PartialEq)]
pub struct DataComponentPatch {
    entries: Vec<(String, ComponentPatchEntry)>,
}

impl View for DataComponentPatch {
    type V = Map<Seq<char>, EntryView>;

    /// What the patch does, per component key.
    closed spec fn view(&self) -> Map<Seq<char>, EntryView> {
        apply_entries(Map::empty(), self.spec_items())
    }
}

impl DataComponentPatch {
    /// The entries of the patch, as key and entry, in the order they are kept.
    pub closed spec fn spec_items(self) -> Seq<(Seq<char>, EntryView)> {
        self.entries@.map_values(|e: (String, ComponentPatchEntry)| (e.0@, e.1@))
    }

    /// The patch's invariant: one entry per key.
    pub open spec fn wf(self) -> bool {
        distinct_item_keys(self.spec_items())
    }

    /// The patch maps each entry's key to its entry.
    pub proof fn lemma_view(self)
        requires
            self.wf(),
        ensures
            forall|k: Seq<char>| self@.contains_key(k)
                <==> exists|i: int| 0 <= i < self.spec_items().len() && #[trigger] self.spec_items()[i].0 == k,
            forall|i: int| 0 <= i < self.spec_items().len() ==> self@[#[trigger] self.spec_items()[i].0] == self.spec_items()[i].1,
    {
        lemma_apply_distinct(self.spec_items());
    }

    /// An empty patch.
    pub fn new() -> (res: Self)
        ensures
            res.wf(),
            res@ == Map::<Seq<char>, EntryView>::empty(),
    {
        let res = DataComponentPatch { entries: Vec::new() };
        assert(res.spec_items() =~= Seq::<(Seq<char>, EntryView)>::empty());
        res
    }

    /// The entries, as key and entry, in the order they are kept.
    pub fn iter(&self) -> (res: &[(String, ComponentPatchEntry)])
        ensures
            res@.map_values(|e: (String, ComponentPatchEntry)| (e.0@, e.1@)) == self.spec_items(),
    {
        self.entries.as_slice()
    }

    /// The map the entries give: each key to its entry, a later entry
    /// replacing an earlier one.
    pub proof fn lemma_view_is_applied(self)
        ensures
            self@ == apply_entries(Map::empty(), self.spec_items()),
    {
    }

    /// The keys of the removed components, in the order they are kept.
    pub fn iter_removed(&self) -> (res: Vec<&String>)
        ensures
            res@.map_values(|k: &String| k@) == removed_items(self.spec_items()).map_values(|e: (Seq<char>, EntryView)| e.0),
    {
        let mut res: Vec<&String> = Vec::new();
        let mut i: usize = 0;
        let ghost items = self.spec_items();
        assert(items.take(0) =~= Seq::<(Seq<char>, EntryView)>::empty());
        while i < self.entries.len()
            invariant
                items == self.spec_items(),
                i <= self.entries@.len(),
                res@.map_values(|k: &String| k@) == removed_items(items.take(i as int)).map_values(|e: (Seq<char>, EntryView)| e.0),
            decreases self.entries.len() - i,
        {
            let ghost before = res@;
            proof {
                assert(items.take(i + 1).drop_last() =~= items.take(i as int));
                assert(items.take(i + 1).last() == items[i as int]);
                assert(items[i as int] == (self.entries@[i as int].0@, self.entries@[i as int].1@));
            }
            match self.entries[i].1 {
                ComponentPatchEntry::Removed => {
                    res.push(&self.entries[i].0);
                    proof {
                        let r0 = removed_items(items.take(i as int));
                        assert(removed_items(items.take(i + 1)) == r0.push(items[i as int]));
                        let lhs = res@.map_values(|k: &String| k@);
                        let rhs = r0.push(items[i as int]).map_values(|e: (Seq<char>, EntryView)| e.0);
                        assert(before.map_values(|k: &String| k@) == r0.map_values(|e: (Seq<char>, EntryView)| e.0));
                        assert(res@.len() == before.len() + 1);
                        assert(before.map_values(|k: &String| k@).len() == before.len());
                        assert(r0.map_values(|e: (Seq<char>, EntryView)| e.0).len() == r0.len());
                        assert(lhs.len() == rhs.len());
                        assert forall|j: int| 0 <= j < lhs.len() implies lhs[j] == rhs[j] by {
                            if j < before.len() {
                                assert(res@[j] == before[j]);
                                assert(before.map_values(|k: &String| k@)[j] == r0.map_values(|e: (Seq<char>, EntryView)| e.0)[j]);
                            } else {
                                assert(res@[j]@ == self.entries@[i as int].0@);
                            }
                        }
                        assert(lhs =~= rhs);
                    }
                },
                ComponentPatchEntry::Value(_) => {
                    assert(removed_items(items.take(i + 1)) == removed_items(items.take(i as int)));
                },
            }
            i = i + 1;
        }
        assert(items.take(i as int) =~= items);
        res
    }

    /// Whether the patch changes nothing.
    pub fn is_empty(&self) -> (res: bool)
        requires
            self.wf(),
        ensures
            res == (self@ == Map::<Seq<char>, EntryView>::empty()),
    {
        proof {
            self.lemma_view();
            if self.entries@.len() > 0 {
                assert(self@.contains_key(self.spec_items()[0].0));
            } else {
                assert(self.spec_items() =~= Seq::<(Seq<char>, EntryView)>::empty());
            }
        }
        self.entries.len() == 0
    }

    /// The number of components the patch changes.
    pub fn len(&self) -> (res: usize)
        ensures
            res == self.spec_items().len(),
    {
        self.entries.len()
    }

    /// The position of the entry for `key`, if any.
    fn position(&self, key: &str) -> (res: Option<usize>)
        requires
            self.wf(),
        ensures
            match res {
                Some(i) => i < self.spec_items().len() && self.spec_items()[i as int].0 == key@,
                None => forall|i: int| 0 <= i < self.spec_items().len() ==> self.spec_items()[i].0 != key@,
            },
    {
        let mut i: usize = 0;
        while i < self.entries.len()
            invariant
                i <= self.entries@.len(),
                forall|j: int| 0 <= j < i ==> self.spec_items()[j].0 != key@,
            decreases self.entries.len() - i,
        {
            if str_equals(self.entries[i].0.as_str(), key) {
                return Some(i);
            }
            i = i + 1;
        }
        None
    }

    /// Records `entry` for `key`, replacing any earlier entry for it.
    pub fn insert_entry(&mut self, key: &str, entry: ComponentPatchEntry)
        requires
            old(self).wf(),
        ensures
            final(self).wf(),
            final(self)@ == old(self)@.insert(key@, entry@),
    {
        let ghost old_items = self.spec_items();
        let ghost ev = entry@;
        proof {
            self.lemma_view();
        }
        match self.position(key) {
            Some(i) => {
                self.entries.set(i, (key.to_owned(), entry));
                proof {
                    assert(self.spec_items() =~= old_items.update(i as int, (key@, ev)));
                    assert(self.wf());
                    self.lemma_view();
                    assert(self@ =~= old(self)@.insert(key@, ev)) by {
                        assert forall|k: Seq<char>| self@.contains_key(k) <==> old(self)@.insert(key@, ev).contains_key(k) by {
                            if self@.contains_key(k) {
                                let j = choose|j: int| 0 <= j < self.spec_items().len() && #[trigger] self.spec_items()[j].0 == k;
                                if j != i {
                                    assert(old_items[j].0 == k);
                                }
                            }
                            if old(self)@.contains_key(k) && k != key@ {
                                let j = choose|j: int| 0 <= j < old_items.len() && #[trigger] old_items[j].0 == k;
                                assert(self.spec_items()[j].0 == k);
                            }
                            if k == key@ {
                                assert(self.spec_items()[i as int].0 == k);
                            }
                        }
                        assert forall|k: Seq<char>| self@.contains_key(k) implies self@[k] == old(self)@.insert(key@, ev)[k] by {
                            let j = choose|j: int| 0 <= j < self.spec_items().len() && #[trigger] self.spec_items()[j].0 == k;
                            if j != i {
                                assert(old_items[j] == self.spec_items()[j]);
                                assert(old(self)@[old_items[j].0] == old_items[j].1);
                            }
                        }
                    }
                }
            },
            None => {
                self.entries.push((key.to_owned(), entry));
                proof {
                    assert(self.spec_items() =~= old_items.push((key@, ev)));
                    assert(self.spec_items().drop_last() =~= old_items);
                    assert(self@ == old(self)@.insert(key@, ev));
                }
            },
        }
    }

    /// Sets component `key` to `data`.
    pub fn set(&mut self, key: &str, data: ComponentData)
        requires
            old(self).wf(),
        ensures
            final(self).wf(),
            final(self)@ == old(self)@.insert(key@, EntryView::Value(data@)),
    {
        self.insert_entry(key, ComponentPatchEntry::Value(data));
    }

    /// Marks component `key` as removed.
    pub fn remove(&mut self, key: &str)
        requires
            old(self).wf(),
        ensures
            final(self).wf(),
            final(self)@ == old(self)@.insert(key@, EntryView::Removed),
    {
        self.insert_entry(key, ComponentPatchEntry::Removed);
    }

    /// Sets component `key` to `data` when `registry` has that component type
    /// and its codec fits `data`; returns whether it did.
    pub fn set_raw(&mut self, key: String, data: ComponentData, registry: &DataComponentRegistry) -> (res: bool)
        requires
            old(self).wf(),
            registry.wf(),
        ensures
            final(self).wf(),
            res == (registry_has_key(registry.spec_entries(), key@)
                && registry.spec_entries()[registry_id(registry.spec_entries(), key@)].kind == data@.kind()),
            final(self)@ == if res { old(self)@.insert(key@, EntryView::Value(data@)) } else { old(self)@ },
    {
        let id = match registry.get_id(key.as_str()) {
            Some(id) => id,
            None => return false,
        };
        let entry = match registry.by_id(id) {
            Some(entry) => entry,
            None => return false,
        };
        if data.get_kind() != entry.kind {
            return false;
        }
        self.insert_entry(key.as_str(), ComponentPatchEntry::Value(data));
        true
    }

    /// Marks component `key` as removed when `registry` has that component
    /// type; returns whether it did.
    pub fn remove_raw(&mut self, key: String, registry: &DataComponentRegistry) -> (res: bool)
        requires
            old(self).wf(),
            registry.wf(),
        ensures
            final(self).wf(),
            res == registry_has_key(registry.spec_entries(), key@),
            final(self)@ == if res { old(self)@.insert(key@, EntryView::Removed) } else { old(self)@ },
    {
        match registry.get_id(key.as_str()) {
            Some(_) => {
                self.insert_entry(key.as_str(), ComponentPatchEntry::Removed);
                true
            },
            None => false,
        }
    }

    /// Drops any entry for component `key`.
    pub fn clear(&mut self, key: &str)
        requires
            old(self).wf(),
        ensures
            final(self).wf(),
            final(self)@ == old(self)@.remove(key@),
    {
        let ghost old_items = self.spec_items();
        proof {
            self.lemma_view();
        }
        match self.position(key) {
            Some(i) => {
                self.entries.remove(i);
                proof {
                    assert(self.spec_items() =~= old_items.remove(i as int));
                    assert(self.wf());
                    self.lemma_view();
                    assert(self@ =~= old(self)@.remove(key@)) by {
                        assert forall|k: Seq<char>| self@.contains_key(k) <==> old(self)@.remove(key@).contains_key(k) by {
                            if self@.contains_key(k) {
                                let j = choose|j: int| 0 <= j < self.spec_items().len() && #[trigger] self.spec_items()[j].0 == k;
                                if j < i {
                                    assert(old_items[j].0 == k);
                                    assert(old_items[j].0 != old_items[i as int].0);
                                } else {
                                    assert(old_items[j + 1].0 == k);
                                    assert(old_items[i as int].0 != old_items[j + 1].0);
                                }
                            }
                            if old(self)@.contains_key(k) && k != key@ {
                                let j = choose|j: int| 0 <= j < old_items.len() && #[trigger] old_items[j].0 == k;
                                if j < i {
                                    assert(self.spec_items()[j].0 == k);
                                } else if j > i {
                                    assert(self.spec_items()[j - 1].0 == k);
                                }
                            }
                        }
                        assert forall|k: Seq<char>| self@.contains_key(k) implies self@[k] == old(self)@.remove(key@)[k] by {
                            let j = choose|j: int| 0 <= j < self.spec_items().len() && #[trigger] self.spec_items()[j].0 == k;
                            if j < i {
                                assert(old(self)@[old_items[j].0] == old_items[j].1);
                            } else {
                                assert(old(self)@[old_items[j + 1].0] == old_items[j + 1].1);
                            }
                        }
                    }
                }
            },
            None => {
                proof {
                    assert(!old(self)@.contains_key(key@));
                    assert(old(self)@.remove(key@) =~= old(self)@);
                }
            },
        }
    }

    /// The entry for component `key`, if the patch has one.
    pub fn get_entry(&self, key: &str) -> (res: Option<&ComponentPatchEntry>)
        requires
            self.wf(),
        ensures
            match res {
                Some(e) => self@.contains_key(key@) && e@ == self@[key@],
                None => !self@.contains_key(key@),
            },
    {
        proof {
            self.lemma_view();
        }
        match self.position(key) {
            Some(i) => Some(&self.entries[i].1),
            None => None,
        }
    }

    /// Whether the patch removes component `key`.
    pub fn is_removed(&self, key: &str) -> (res: bool)
        requires
            self.wf(),
        ensures
            res == (self@.contains_key(key@) && self@[key@] is Removed),
    {
        match self.get_entry(key) {
            Some(ComponentPatchEntry::Removed) => true,
            _ => false,
        }
    }

    /// The number of components the patch sets.
    pub fn count_set(&self) -> (res: usize)
        ensures
            res == set_items(self.spec_items()).len(),
    {
        let mut n: usize = 0;
        let mut i: usize = 0;
        while i < self.entries.len()
            invariant
                i <= self.entries@.len(),
                n == set_items(self.spec_items().take(i as int)).len(),
                n <= i,
            decreases self.entries.len() - i,
        {
            proof {
                self.spec_items().lemma_filter_map_take_succ(
                    |e: (Seq<char>, EntryView)| if e.1 is Value { Some(e) } else { None },
                    i as int,
                );
            }
            if let ComponentPatchEntry::Value(_) = self.entries[i].1 {
                n = n + 1;
            }
            i = i + 1;
        }
        assert(self.spec_items().take(i as int) =~= self.spec_items());
        n
    }

    /// The number of components the patch removes.
    pub fn count_removed(&self) -> (res: usize)
        ensures
            res == removed_items(self.spec_items()).len(),
    {
        let mut n: usize = 0;
        let mut i: usize = 0;
        while i < self.entries.len()
            invariant
                i <= self.entries@.len(),
                n == removed_items(self.spec_items().take(i as int)).len(),
                n <= i,
            decreases self.entries.len() - i,
        {
            proof {
                self.spec_items().lemma_filter_map_take_succ(
                    |e: (Seq<char>, EntryView)| if e.1 is Removed { Some(e) } else { None },
                    i as int,
                );
            }
            if let ComponentPatchEntry::Removed = self.entries[i].1 {
                n = n + 1;
            }
            i = i + 1;
        }
        assert(self.spec_items().take(i as int) =~= self.spec_items());
        n
    }
}


/// Whether `e` can be written over the registry `entries`: its key is
/// registered, and a value has the codec its type is registered with.
pub open spec fn item_encodable(entries: Seq<ComponentEntry>, e: (Seq<char>, EntryView)) -> bool {
    &&& registry_has_key(entries, e.0)
    &&& (e.1 matches EntryView::Value(d) ==> entries[registry_id(entries, e.0)].kind == d.kind() && d.encodable(entries))
}

/// The network form of a set component: its id, then its value.
pub open spec fn value_item_bytes(entries: Seq<ComponentEntry>) -> spec_fn((Seq<char>, EntryView)) -> Seq<u8> {
    |e: (Seq<char>, EntryView)| varint_bytes(registry_id(entries, e.0) as i32) + match e.1 {
        EntryView::Value(d) => d.spec_bytes(entries),
        EntryView::Removed => Seq::empty(),
    }
}

/// The network form of a removed component: its id.
pub open spec fn removed_item_bytes(entries: Seq<ComponentEntry>) -> spec_fn((Seq<char>, EntryView)) -> Seq<u8> {
    |e: (Seq<char>, EntryView)| varint_bytes(registry_id(entries, e.0) as i32)
}

/// Reads a set component: its id, then a value with the codec of its type.
pub open spec fn value_item_reader(entries: Seq<ComponentEntry>) -> spec_fn(Seq<u8>, int) -> Result<((Seq<char>, EntryView), int), WireError> {
    |s: Seq<u8>, pos: int| match spec_read_non_negative_varint(s, pos) {
        Err(e) => Err(e),
        Ok((id, next)) => if id >= entries.len() {
            Err(WireError::Invalid)
        } else {
            match DataView::spec_read(entries[id].kind, s, next, entries) {
                Ok((d, end)) => Ok(((entries[id].key@, EntryView::Value(d)), end)),
                Err(e) => Err(e),
            }
        },
    }
}

/// Reads a removed component: its id.
pub open spec fn removed_item_reader(entries: Seq<ComponentEntry>) -> spec_fn(Seq<u8>, int) -> Result<((Seq<char>, EntryView), int), WireError> {
    |s: Seq<u8>, pos: int| match spec_read_non_negative_varint(s, pos) {
        Err(e) => Err(e),
        Ok((id, next)) => if id >= entries.len() {
            Err(WireError::Invalid)
        } else {
            Ok(((entries[id].key@, EntryView::Removed), next))
        },
    }
}

impl DataComponentPatch {
    /// Whether the patch can be written over the registry `entries`.
    pub open spec fn encodable(self, entries: Seq<ComponentEntry>) -> bool {
        &&& set_items(self.spec_items()).len() <= i32::MAX
        &&& removed_items(self.spec_items()).len() <= i32::MAX
        &&& forall|i: int| 0 <= i < self.spec_items().len() ==> item_encodable(entries, #[trigger] self.spec_items()[i])
    }

    /// The network form over the registry `entries`: the numbers of set and of
    /// removed components, each set component, then each removed id.
    pub open spec fn spec_bytes(self, entries: Seq<ComponentEntry>) -> Seq<u8> {
        varint_bytes(set_items(self.spec_items()).len() as i32)
            + varint_bytes(removed_items(self.spec_items()).len() as i32)
            + concat_map(set_items(self.spec_items()), value_item_bytes(entries))
            + concat_map(removed_items(self.spec_items()), removed_item_bytes(entries))
    }

    /// Writes the network form over `registry`; fails on a key that is not
    /// registered or a value whose codec differs from its type's.
    #[verifier::rlimit(40)]
    pub fn write(&self, buf: &mut Vec<u8>, registry: &DataComponentRegistry) -> (res: Result<(), WireError>)
        requires
            self.wf(),
            registry.wf(),
        ensures
            res is Ok <==> self.encodable(registry.spec_entries()),
            res is Ok ==> final(buf)@ == old(buf)@ + self.spec_bytes(registry.spec_entries()),
    {
        let ghost items = self.spec_items();
        let ghost es = registry.spec_entries();
        let added = self.count_set();
        let removed = self.count_removed();
        if added > 0x7fff_ffff || removed > 0x7fff_ffff {
            return Err(WireError::TooMany);
        }
        write_varint(buf, added as i32);
        write_varint(buf, removed as i32);
        let ghost start = buf@;
        let ghost fa = |e: (Seq<char>, EntryView)| if e.1 is Value { Some(e) } else { None::<(Seq<char>, EntryView)> };
        let ghost fr = |e: (Seq<char>, EntryView)| if e.1 is Removed { Some(e) } else { None::<(Seq<char>, EntryView)> };
        let mut i: usize = 0;
        assert(items.take(0) =~= Seq::<(Seq<char>, EntryView)>::empty());
        while i < self.entries.len()
            invariant
                self.wf(),
                registry.wf(),
                items == self.spec_items(),
                es == registry.spec_entries(),
                i <= self.entries@.len(),
                fa == (|e: (Seq<char>, EntryView)| if e.1 is Value { Some(e) } else { None::<(Seq<char>, EntryView)> }),
                buf@ == start + concat_map(items.take(i as int).filter_map(fa), value_item_bytes(es)),
                forall|j: int| 0 <= j < i && (#[trigger] items[j]).1 is Value ==> item_encodable(es, items[j]),
            decreases self.entries.len() - i,
        {
            proof {
                items.lemma_filter_map_take_succ(fa, i as int);
            }
            if let ComponentPatchEntry::Value(d) = &self.entries[i].1 {
                let key = self.entries[i].0.as_str();
                assert(key@ == items[i as int].0);
                let id = match registry.get_id(key) {
                    Some(id) => id,
                    None => {
                        assert(!item_encodable(es, items[i as int]));
                        return Err(WireError::Invalid);
                    },
                };
                let entry = registry.by_id(id);
                let kind = match entry {
                    Some(entry) => entry.kind,
                    None => return Err(WireError::Invalid),
                };
                if kind != d.get_kind() {
                    assert(!item_encodable(es, items[i as int]));
                    return Err(WireError::Invalid);
                }
                let wire_id = (#[verifier::truncate] (id as i32));
                write_varint(buf, wire_id);
                match d.write(buf, registry) {
                    Ok(()) => {},
                    Err(e) => {
                        assert(items[i as int] == (key@, EntryView::Value(d@)));
                        assert(!item_encodable(es, items[i as int]));
                        return Err(e);
                    },
                }
                proof {
                    assert(fa(items[i as int]) == Some(items[i as int]));
                    assert(items.take(i + 1).filter_map(fa) =~= items.take(i as int).filter_map(fa).push(items[i as int]));
                    lemma_concat_map_push(items.take(i as int).filter_map(fa), items[i as int], value_item_bytes(es));
                    assert(items[i as int] == (key@, EntryView::Value(d@)));
                    assert(wire_id == registry_id(es, items[i as int].0) as i32);
                    assert(value_item_bytes(es)(items[i as int]) == varint_bytes(wire_id) + d@.spec_bytes(es));
                    assert(buf@ =~= start + concat_map(items.take(i + 1).filter_map(fa), value_item_bytes(es)));
                }
            }
            i = i + 1;
        }
        assert(items.take(i as int) =~= items);
        let ghost mid = buf@;
        let mut i: usize = 0;
        while i < self.entries.len()
            invariant
                self.wf(),
                registry.wf(),
                items == self.spec_items(),
                es == registry.spec_entries(),
                i <= self.entries@.len(),
                fr == (|e: (Seq<char>, EntryView)| if e.1 is Removed { Some(e) } else { None::<(Seq<char>, EntryView)> }),
                buf@ == mid + concat_map(items.take(i as int).filter_map(fr), removed_item_bytes(es)),
                forall|j: int| 0 <= j < i && (#[trigger] items[j]).1 is Removed ==> item_encodable(es, items[j]),
            decreases self.entries.len() - i,
        {
            proof {
                items.lemma_filter_map_take_succ(fr, i as int);
            }
            if let ComponentPatchEntry::Removed = self.entries[i].1 {
                let key = self.entries[i].0.as_str();
                assert(key@ == items[i as int].0);
                let id = match registry.get_id(key) {
                    Some(id) => id,
                    None => {
                        assert(!item_encodable(es, items[i as int]));
                        return Err(WireError::Invalid);
                    },
                };
                let wire_id = (#[verifier::truncate] (id as i32));
                write_varint(buf, wire_id);
                proof {
                    assert(items[i as int] == (key@, EntryView::Removed));
                    assert(wire_id == registry_id(es, items[i as int].0) as i32);
                    assert(fr(items[i as int]) == Some(items[i as int]));
                    assert(items.take(i + 1).filter_map(fr) =~= items.take(i as int).filter_map(fr).push(items[i as int]));
                    lemma_concat_map_push(items.take(i as int).filter_map(fr), items[i as int], removed_item_bytes(es));
                    assert(buf@ =~= mid + concat_map(items.take(i + 1).filter_map(fr), removed_item_bytes(es)));
                }
            }
            i = i + 1;
        }
        assert(items.take(i as int) =~= items);
        proof {
            assert forall|j: int| 0 <= j < items.len() implies item_encodable(es, #[trigger] items[j]) by {
                match items[j].1 {
                    EntryView::Value(_) => {},
                    EntryView::Removed => {},
                }
            }
            assert(buf@ =~= old(buf)@ + self.spec_bytes(es));
        }
        Ok(())
    }

    /// Reads the network form over the registry `entries`; later entries for a
    /// key replace earlier ones.
    pub open spec fn spec_read(s: Seq<u8>, pos: int, entries: Seq<ComponentEntry>) -> Result<(Map<Seq<char>, EntryView>, int), WireError> {
        match spec_read_non_negative_varint(s, pos) {
            Err(e) => Err(e),
            Ok((added, p1)) => match spec_read_non_negative_varint(s, p1) {
                Err(e) => Err(e),
                Ok((removed, p2)) => match spec_read_seq(s, p2, added as nat, value_item_reader(entries)) {
                    Err(e) => Err(e),
                    Ok((a, p3)) => match spec_read_seq(s, p3, removed as nat, removed_item_reader(entries)) {
                        Err(e) => Err(e),
                        Ok((r, end)) => Ok((apply_entries(apply_entries(Map::empty(), a), r), end)),
                    },
                },
            },
        }
    }
}


/// The part of a patch read that follows the two counts.
pub open spec fn spec_read_items(s: Seq<u8>, p2: int, added: nat, removed: nat, entries: Seq<ComponentEntry>) -> Result<(Map<Seq<char>, EntryView>, int), WireError> {
    match spec_read_seq(s, p2, added, value_item_reader(entries)) {
        Err(e) => Err(e),
        Ok((a, p3)) => match spec_read_seq(s, p3, removed, removed_item_reader(entries)) {
            Err(e) => Err(e),
            Ok((r, end)) => Ok((apply_entries(apply_entries(Map::empty(), a), r), end)),
        },
    }
}

impl DataComponentPatch {
    /// Reads the network form over `registry`; later entries for a key
    /// replace earlier ones.
    #[verifier::rlimit(60)]
    pub fn read(data: &[u8], pos: usize, registry: &DataComponentRegistry) -> (res: Result<(DataComponentPatch, usize), WireError>)
        ensures
            match (res, Self::spec_read(data@, pos as int, registry.spec_entries())) {
                (Ok((p, end)), Ok((m, send))) => p.wf() && p@ == m && end == send,
                (Err(e), Err(se)) => e == se,
                _ => false,
            },
    {
        let ghost es = registry.spec_entries();
        let (added, p1) = read_non_negative_varint(data, pos)?;
        let (removed, p2) = read_non_negative_varint(data, p1)?;
        let ghost ra = value_item_reader(es);
        let ghost rr = removed_item_reader(es);
        assert(Self::spec_read(data@, pos as int, es) == spec_read_items(data@, p2 as int, added as nat, removed as nat, es));
        let mut patch = DataComponentPatch::new();
        let ghost mut got: Seq<(Seq<char>, EntryView)> = Seq::empty();
        let mut cur = p2;
        let mut i: usize = 0;
        assert(got + Seq::<(Seq<char>, EntryView)>::empty() =~= got);
        while i < added
            invariant
                i <= added,
                es == registry.spec_entries(),
                ra == value_item_reader(es),
                Self::spec_read(data@, pos as int, es) == spec_read_items(data@, p2 as int, added as nat, removed as nat, es),
                patch.wf(),
                patch@ == apply_entries(Map::empty(), got),
                spec_read_seq(data@, p2 as int, added as nat, ra) == prepend_items(got, spec_read_seq(data@, cur as int, (added - i) as nat, ra)),
            decreases added - i,
        {
            let ghost rest = spec_read_seq(data@, cur as int, (added - i) as nat, ra);
            let (id, next) = match read_non_negative_varint(data, cur) {
                Ok(r) => r,
                Err(e) => {
                    assert(ra(data@, cur as int) == Err::<((Seq<char>, EntryView), int), WireError>(e));
                    assert(rest == Err::<(Seq<(Seq<char>, EntryView)>, int), WireError>(e));
                    return Err(e);
                },
            };
            let entry = match registry.by_id(id) {
                Some(entry) => entry,
                None => {
                    assert(ra(data@, cur as int) == Err::<((Seq<char>, EntryView), int), WireError>(WireError::Invalid));
                    assert(rest == Err::<(Seq<(Seq<char>, EntryView)>, int), WireError>(WireError::Invalid));
                    return Err(WireError::Invalid);
                },
            };
            let (d, end) = match ComponentData::read(entry.kind, data, next, registry) {
                Ok(r) => r,
                Err(e) => {
                    assert(ra(data@, cur as int) == Err::<((Seq<char>, EntryView), int), WireError>(e));
                    assert(rest == Err::<(Seq<(Seq<char>, EntryView)>, int), WireError>(e));
                    return Err(e);
                },
            };
            let ghost x = (entry.key@, EntryView::Value(d@));
            proof {
                assert(ra(data@, cur as int) == Ok::<((Seq<char>, EntryView), int), WireError>((x, end as int)));
                let tail = spec_read_seq(data@, end as int, (added - i - 1) as nat, ra);
                assert(rest == prepend_items(seq![x], tail));
                lemma_prepend_items_assoc(got, seq![x], tail);
                assert(got + seq![x] =~= got.push(x));
                assert(got.push(x).drop_last() =~= got);
            }
            patch.set(entry.key.as_str(), d);
            proof {
                got = got.push(x);
            }
            cur = end;
            i = i + 1;
        }
        let ghost got_a = got;
        let p3 = cur;
        assert(spec_read_seq(data@, p2 as int, added as nat, ra) == Ok::<(Seq<(Seq<char>, EntryView)>, int), WireError>((got_a, p3 as int))) by {
            assert(got_a + Seq::<(Seq<char>, EntryView)>::empty() =~= got_a);
        }
        proof {
            got = Seq::empty();
        }
        let mut i: usize = 0;
        assert(got + Seq::<(Seq<char>, EntryView)>::empty() =~= got);
        assert(apply_entries(apply_entries(Map::empty(), got_a), got) == apply_entries(Map::empty(), got_a));
        while i < removed
            invariant
                i <= removed,
                es == registry.spec_entries(),
                rr == removed_item_reader(es),
                Self::spec_read(data@, pos as int, es) == match spec_read_seq(data@, p3 as int, removed as nat, rr) {
                    Err(e) => Err(e),
                    Ok((r, end)) => Ok((apply_entries(apply_entries(Map::empty(), got_a), r), end)),
                },
                patch.wf(),
                patch@ == apply_entries(apply_entries(Map::empty(), got_a), got),
                spec_read_seq(data@, p3 as int, removed as nat, rr) == prepend_items(got, spec_read_seq(data@, cur as int, (removed - i) as nat, rr)),
            decreases removed - i,
        {
            let ghost rest = spec_read_seq(data@, cur as int, (removed - i) as nat, rr);
            let (id, next) = match read_non_negative_varint(data, cur) {
                Ok(r) => r,
                Err(e) => {
                    assert(rr(data@, cur as int) == Err::<((Seq<char>, EntryView), int), WireError>(e));
                    assert(rest == Err::<(Seq<(Seq<char>, EntryView)>, int), WireError>(e));
                    return Err(e);
                },
            };
            let key = match registry.get_key_by_id(id) {
                Some(key) => key,
                None => {
                    assert(rr(data@, cur as int) == Err::<((Seq<char>, EntryView), int), WireError>(WireError::Invalid));
                    assert(rest == Err::<(Seq<(Seq<char>, EntryView)>, int), WireError>(WireError::Invalid));
                    return Err(WireError::Invalid);
                },
            };
            let ghost x = (key@, EntryView::Removed);
            proof {
                assert(rr(data@, cur as int) == Ok::<((Seq<char>, EntryView), int), WireError>((x, next as int)));
                let tail = spec_read_seq(data@, next as int, (removed - i - 1) as nat, rr);
                assert(rest == prepend_items(seq![x], tail));
                lemma_prepend_items_assoc(got, seq![x], tail);
                assert(got + seq![x] =~= got.push(x));
                assert(got.push(x).drop_last() =~= got);
            }
            patch.remove(key.as_str());
            proof {
                got = got.push(x);
            }
            cur = next;
            i = i + 1;
        }
        assert(spec_read_seq(data@, p3 as int, removed as nat, rr) == Ok::<(Seq<(Seq<char>, EntryView)>, int), WireError>((got, cur as int))) by {
            assert(got + Seq::<(Seq<char>, EntryView)>::empty() =~= got);
        }
        Ok((patch, cur))
    }
}


/// A set component written over a registry reads back unchanged.
proof fn lemma_value_item_round_trip(entries: Seq<ComponentEntry>, x: (Seq<char>, EntryView), p: Seq<u8>, r: Seq<u8>)
    requires
        registry_keys_distinct(entries),
        entries.len() <= i32::MAX + 1,
        item_encodable(entries, x),
        x.1 is Value,
        entry_is_value_view(x.1),
    ensures
        value_item_reader(entries)(p + value_item_bytes(entries)(x) + r, p.len() as int)
            == Ok::<((Seq<char>, EntryView), int), WireError>((x, (p.len() + value_item_bytes(entries)(x).len()) as int)),
{
    let id = registry_id(entries, x.0);
    assert(0 <= id < entries.len() && entries[id].key@ == x.0);
    let d = match x.1 {
        EntryView::Value(d) => d,
        EntryView::Removed => DataView::Empty,
    };
    let idb = varint_bytes(id as i32);
    lemma_bounded_count_round_trip(p, id, i32::MAX as int, d.spec_bytes(entries) + r);
    assert(p + value_item_bytes(entries)(x) + r =~= p + idb + (d.spec_bytes(entries) + r));
    assert((id as i32) as int == id);
    lemma_component_data_round_trip(p + idb, d, entries, r);
    assert(p + idb + d.spec_bytes(entries) + r =~= p + value_item_bytes(entries)(x) + r);
}

/// A removed component written over a registry reads back unchanged.
proof fn lemma_removed_item_round_trip(entries: Seq<ComponentEntry>, x: (Seq<char>, EntryView), p: Seq<u8>, r: Seq<u8>)
    requires
        registry_keys_distinct(entries),
        entries.len() <= i32::MAX + 1,
        item_encodable(entries, x),
        x.1 is Removed,
    ensures
        removed_item_reader(entries)(p + removed_item_bytes(entries)(x) + r, p.len() as int)
            == Ok::<((Seq<char>, EntryView), int), WireError>((x, (p.len() + removed_item_bytes(entries)(x).len()) as int)),
{
    let id = registry_id(entries, x.0);
    assert(0 <= id < entries.len() && entries[id].key@ == x.0);
    lemma_bounded_count_round_trip(p, id, i32::MAX as int, r);
    assert((id as i32) as int == id);
}

/// Inserting the set items and then the removed items of a list with
/// distinct keys gives the map of the whole list.
proof fn lemma_split_items_apply(items: Seq<(Seq<char>, EntryView)>)
    requires
        distinct_item_keys(items),
    ensures
        apply_entries(apply_entries(Map::empty(), set_items(items)), removed_items(items)) == apply_entries(Map::empty(), items),
{
    let fa = |e: (Seq<char>, EntryView)| if e.1 is Value { Some(e) } else { None::<(Seq<char>, EntryView)> };
    let fr = |e: (Seq<char>, EntryView)| if e.1 is Removed { Some(e) } else { None::<(Seq<char>, EntryView)> };
    let a = set_items(items);
    let r = removed_items(items);
    assert(a == items.filter_map(fa));
    assert(r == items.filter_map(fr));
    lemma_filter_items(items, fa);
    lemma_filter_items(items, fr);
    lemma_apply_concat(Map::empty(), a, r);
    let both = a + r;
    assert forall|x: (Seq<char>, EntryView)| both.contains(x) <==> items.contains(x) by {
        if both.contains(x) {
            let k = choose|k: int| 0 <= k < both.len() && both[k] == x;
            if k < a.len() {
                assert(a[k] == x);
                assert(a.contains(x));
            } else {
                assert(r[k - a.len()] == x);
                assert(r.contains(x));
            }
        }
        if items.contains(x) {
            if x.1 is Value {
                assert(fa(x) is Some);
                assert(a.contains(x));
                let k = choose|k: int| 0 <= k < a.len() && a[k] == x;
                assert(both[k] == x);
            } else {
                assert(fr(x) is Some);
                assert(r.contains(x));
                let k = choose|k: int| 0 <= k < r.len() && r[k] == x;
                assert(both[a.len() + k] == x);
            }
        }
    }
    assert forall|i: int, j: int| 0 <= i < j < both.len() implies both[i].0 != both[j].0 by {
        if j < a.len() {
            assert(both[i] == a[i] && both[j] == a[j]);
        } else if i >= a.len() {
            assert(both[i] == r[i - a.len()] && both[j] == r[j - a.len()]);
        } else {
            assert(both[i] == a[i] && both[j] == r[j - a.len()]);
            assert(a.contains(a[i]) && fa(a[i]) is Some);
            assert(r.contains(r[j - a.len()]) && fr(r[j - a.len()]) is Some);
            if both[i].0 == both[j].0 {
                let ki = choose|k: int| 0 <= k < items.len() && items[k] == a[i];
                let kj = choose|k: int| 0 <= k < items.len() && items[k] == r[j - a.len()];
                if ki < kj {
                    assert(items[ki].0 != items[kj].0);
                } else if kj < ki {
                    assert(items[kj].0 != items[ki].0);
                }
            }
        }
    }
    lemma_apply_same_items(both, items);
}

/// Whether a set entry's value is the view of a component value.
pub open spec fn entry_is_value_view(e: EntryView) -> bool {
    match e {
        EntryView::Value(d) => is_value_view(d),
        EntryView::Removed => true,
    }
}

/// Every value a patch sets is the view of a component value.
pub proof fn lemma_items_are_values(p: DataComponentPatch)
    ensures
        forall|k: int| 0 <= k < p.spec_items().len() ==> entry_is_value_view(#[trigger] p.spec_items()[k].1),
{
    assert forall|k: int| 0 <= k < p.spec_items().len() implies entry_is_value_view(#[trigger] p.spec_items()[k].1) by {
        match p.entries@[k].1 {
            ComponentPatchEntry::Value(c) => {
                assert(p.spec_items()[k].1 == EntryView::Value(c@));
            },
            ComponentPatchEntry::Removed => {},
        }
    }
}

/// Law: a patch written over a registry reads back as the same patch, when
/// every network id fits the protocol's range.
#[verifier::rlimit(100)]
pub proof fn lemma_patch_network_round_trip(pre: Seq<u8>, p: DataComponentPatch, entries: Seq<ComponentEntry>, rest: Seq<u8>)
    requires
        p.wf(),
        registry_keys_distinct(entries),
        entries.len() <= i32::MAX + 1,
        p.encodable(entries),
    ensures
        DataComponentPatch::spec_read(pre + p.spec_bytes(entries) + rest, pre.len() as int, entries)
            == Ok::<(Map<Seq<char>, EntryView>, int), WireError>((p@, (pre.len() + p.spec_bytes(entries).len()) as int)),
{
    let items = p.spec_items();
    let fa = |e: (Seq<char>, EntryView)| if e.1 is Value { Some(e) } else { None::<(Seq<char>, EntryView)> };
    let fr = |e: (Seq<char>, EntryView)| if e.1 is Removed { Some(e) } else { None::<(Seq<char>, EntryView)> };
    let a = set_items(items);
    let r = removed_items(items);
    assert(a == items.filter_map(fa));
    assert(r == items.filter_map(fr));
    lemma_filter_items(items, fa);
    lemma_filter_items(items, fr);
    let ab = concat_map(a, value_item_bytes(entries));
    let rb = concat_map(r, removed_item_bytes(entries));
    let na = varint_bytes(a.len() as i32);
    let nr = varint_bytes(r.len() as i32);
    let s = pre + p.spec_bytes(entries) + rest;
    assert(s =~= pre + na + (nr + ab + rb + rest));
    lemma_bounded_count_round_trip(pre, a.len() as int, i32::MAX as int, nr + ab + rb + rest);
    assert(s =~= (pre + na) + nr + (ab + rb + rest));
    lemma_bounded_count_round_trip(pre + na, r.len() as int, i32::MAX as int, ab + rb + rest);
    let p2 = pre + na + nr;
    assert forall|i: int, q: Seq<u8>, t: Seq<u8>| 0 <= i < a.len() implies
        #[trigger] value_item_reader(entries)(q + value_item_bytes(entries)(a[i]) + t, q.len() as int)
            == Ok::<((Seq<char>, EntryView), int), WireError>((a[i], (q.len() + value_item_bytes(entries)(a[i]).len()) as int)) by {
        assert(a.contains(a[i]));
        assert(items.contains(a[i]) && fa(a[i]) is Some);
        let k = choose|k: int| 0 <= k < items.len() && items[k] == a[i];
        assert(item_encodable(entries, items[k]));
        lemma_items_are_values(p);
        assert(entry_is_value_view(items[k].1));
        lemma_value_item_round_trip(entries, a[i], q, t);
    }
    assert(s =~= p2 + ab + (rb + rest));
    lemma_read_seq_round_trip(p2, a, rb + rest, value_item_bytes(entries), value_item_reader(entries));
    let p3 = p2 + ab;
    assert forall|i: int, q: Seq<u8>, t: Seq<u8>| 0 <= i < r.len() implies
        #[trigger] removed_item_reader(entries)(q + removed_item_bytes(entries)(r[i]) + t, q.len() as int)
            == Ok::<((Seq<char>, EntryView), int), WireError>((r[i], (q.len() + removed_item_bytes(entries)(r[i]).len()) as int)) by {
        assert(r.contains(r[i]));
        assert(items.contains(r[i]) && fr(r[i]) is Some);
        let k = choose|k: int| 0 <= k < items.len() && items[k] == r[i];
        assert(item_encodable(entries, items[k]));
        lemma_removed_item_round_trip(entries, r[i], q, t);
    }
    assert(s =~= p3 + rb + rest);
    lemma_read_seq_round_trip(p3, r, rest, removed_item_bytes(entries), removed_item_reader(entries));
    lemma_split_items_apply(items);
    assert(p.spec_bytes(entries).len() == na.len() + nr.len() + ab.len() + rb.len());
}

} // verus!
