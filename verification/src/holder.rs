//! References into game registries and holders of registry values.
//!
//! A registry entry is known by its key (such as `minecraft:iron`) and by its
//! network id (its position in the registry). A holder either refers to such
//! an entry or carries an inline ("direct") value that no registry owns.

use vstd::prelude::*;
use crate::wire::str_equals;

verus! {

/// A registered entry known only by its key and network id.
#[derive(Debug, Clone, PartialEq, Eq)]
pub struct RegistryRef {
    pub key: String,
    pub id: u32,
}

impl RegistryRef {
    /// A copy of this reference.
    pub fn duplicate(&self) -> (res: RegistryRef)
        ensures
            res == *self,
    {
        RegistryRef { key: self.key.clone(), id: self.id }
    }
}

/// The entry at network id `id` of a registry listed in id order.
pub fn registry_by_id(entries: &Vec<RegistryRef>, id: usize) -> (res: Option<RegistryRef>)
    ensures
        res == (if id < entries@.len() { Some(entries@[id as int]) } else { None::<RegistryRef> }),
{
    if id < entries.len() {
        Some(entries[id].duplicate())
    } else {
        None
    }
}

/// The first entry with key `key` of a registry listed in id order.
pub open spec fn spec_by_key(entries: Seq<RegistryRef>, key: Seq<char>) -> Option<RegistryRef>
    decreases entries.len(),
{
    if entries.len() == 0 {
        None
    } else if entries[0].key@ == key {
        Some(entries[0])
    } else {
        spec_by_key(entries.drop_first(), key)
    }
}

/// The first entry with key `key` of a registry listed in id order.
pub fn registry_by_key(entries: &Vec<RegistryRef>, key: &str) -> (res: Option<RegistryRef>)
    ensures
        res == spec_by_key(entries@, key@),
{
    let mut i: usize = 0;
    assert(entries@.skip(0) =~= entries@);
    while i < entries.len()
        invariant
            i <= entries@.len(),
            spec_by_key(entries@, key@) == spec_by_key(entries@.skip(i as int), key@),
        decreases entries.len() - i,
    {
        assert(entries@.skip(i as int).drop_first() =~= entries@.skip(i + 1));
        if str_equals(entries[i].key.as_str(), key) {
            return Some(entries[i].duplicate());
        }
        i = i + 1;
    }
    None
}

/// A registry listed in id order: each entry's id is its position, and the
/// ids fit an `i32`.
pub open spec fn in_id_order(entries: Seq<RegistryRef>) -> bool {
    &&& entries.len() <= i32::MAX
    &&& forall|i: int| 0 <= i < entries.len() ==> #[trigger] entries[i].id == i
}

/// The entry found by key is an entry of the registry with that key.
pub proof fn lemma_by_key_found(entries: Seq<RegistryRef>, key: Seq<char>)
    requires
        spec_by_key(entries, key) is Some,
    ensures
        exists|j: int| 0 <= j < entries.len() && entries[j] == spec_by_key(entries, key)->0 && #[trigger] entries[j].key@ == key,
    decreases entries.len(),
{
    if entries[0].key@ == key {
        assert(entries[0].key@ == key);
    } else {
        let tail = entries.drop_first();
        lemma_by_key_found(tail, key);
        let j = choose|j: int| 0 <= j < tail.len() && tail[j] == spec_by_key(tail, key)->0 && #[trigger] tail[j].key@ == key;
        assert(entries[j + 1] == tail[j]);
    }
}

/// In a registry in id order, the entry found by key sits at its id.
pub proof fn lemma_by_key_at_id(entries: Seq<RegistryRef>, key: Seq<char>)
    requires
        in_id_order(entries),
        spec_by_key(entries, key) is Some,
    ensures
        (spec_by_key(entries, key)->0.id as int) < entries.len(),
        entries[spec_by_key(entries, key)->0.id as int] == spec_by_key(entries, key)->0,
        spec_by_key(entries, key)->0.key@ == key,
{
    lemma_by_key_found(entries, key);
    let j = choose|j: int| 0 <= j < entries.len() && entries[j] == spec_by_key(entries, key)->0 && #[trigger] entries[j].key@ == key;
    assert(entries[j].id == j);
}

/// A registered entry together with its value.
#[derive(Debug, Clone, PartialEq)]
pub struct RegistryEntry<V> {
    pub key: String,
    pub id: u32,
    pub value: V,
}

/// Either a reference to a registered entry or an inline value.
#[derive(Debug, Clone, PartialEq)]
pub enum RegistryHolder<V> {
    Reference(RegistryEntry<V>),
    Direct(V),
}

impl<V> RegistryHolder<V> {
    /// The value held, whether registered or inline.
    pub open spec fn spec_value(self) -> V {
        match self {
            RegistryHolder::Reference(entry) => entry.value,
            RegistryHolder::Direct(value) => value,
        }
    }

    /// A holder that refers to a registered entry.
    pub fn reference(entry: RegistryEntry<V>) -> (res: Self)
        ensures
            res == RegistryHolder::Reference(entry),
    {
        RegistryHolder::Reference(entry)
    }

    /// A holder of an inline value.
    pub fn direct(value: V) -> (res: Self)
        ensures
            res == RegistryHolder::Direct(value),
    {
        RegistryHolder::Direct(value)
    }

    /// The value held.
    pub fn value(&self) -> (res: &V)
        ensures
            *res == self.spec_value(),
    {
        match self {
            RegistryHolder::Reference(entry) => &entry.value,
            RegistryHolder::Direct(value) => value,
        }
    }

    /// The registered entry this holder refers to, if it is a reference.
    pub fn as_reference(&self) -> (res: Option<&RegistryEntry<V>>)
        ensures
            match *self {
                RegistryHolder::Reference(entry) => res == Some(&entry),
                RegistryHolder::Direct(_) => res is None,
            },
    {
        match self {
            RegistryHolder::Reference(entry) => Some(entry),
            RegistryHolder::Direct(_) => None,
        }
    }
}

/// A set of registered entries, either named by a tag or listed directly.
#[derive(Debug, Clone, PartialEq)]
pub enum RegistryHolderSet {
    Named { tag: String, entries: Vec<RegistryRef> },
    Direct(Vec<RegistryRef>),
}

impl RegistryHolderSet {
    /// The entries of the set.
    pub open spec fn spec_entries(self) -> Seq<RegistryRef> {
        match self {
            RegistryHolderSet::Named { entries, .. } => entries@,
            RegistryHolderSet::Direct(entries) => entries@,
        }
    }

    /// Whether an entry with the key of `entry` belongs to the set.
    pub open spec fn spec_contains(self, key: Seq<char>) -> bool {
        exists|i: int| 0 <= i < self.spec_entries().len() && #[trigger] self.spec_entries()[i].key@ == key
    }

    /// Whether `entry` belongs to the set; entries are compared by key.
    pub fn contains(&self, entry: &RegistryRef) -> (res: bool)
        ensures
            res == self.spec_contains(entry.key@),
    {
        let entries = match self {
            RegistryHolderSet::Named { entries, .. } => entries,
            RegistryHolderSet::Direct(entries) => entries,
        };
        let mut i: usize = 0;
        while i < entries.len()
            invariant
                entries@ == self.spec_entries(),
                i <= entries.len(),
                forall|j: int| 0 <= j < i ==> entries@[j].key@ != entry.key@,
            decreases entries.len() - i,
        {
            if str_equals(entries[i].key.as_str(), entry.key.as_str()) {
                return true;
            }
            i = i + 1;
        }
        false
    }
}

} // verus!
