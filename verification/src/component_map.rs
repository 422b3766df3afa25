//! The component values of an item, keyed by component type.

use vstd::prelude::*;
use crate::component_data::{ComponentData, DataView};
use crate::components::tooltip_display::TooltipDisplay;
use crate::components::rarity::Rarity;
use crate::components::swing_animation::SwingAnimation;
use crate::keyed::KeyedList;
use crate::patch::{DataComponentRegistry, registry_has_key, registry_id};

verus! {

/// The component values an item carries, one per component key.
#[derive(Debug, Clone, PartialEq)]
pub struct DataComponentMap {
    map: KeyedList<ComponentData>,
}

impl Default for DataComponentMap {
    fn default() -> (res: Self)
        ensures
            res.wf(),
            res.spec_map() == Map::<Seq<char>, ComponentData>::empty(),
    {
        DataComponentMap::new()
    }
}

impl DataComponentMap {
    /// The value of each component key.
    pub closed spec fn spec_map(self) -> Map<Seq<char>, ComponentData> {
        self.map@
    }

    /// The invariant: one entry per key.
    pub closed spec fn wf(self) -> bool {
        self.map.wf()
    }

    /// No components.
    pub fn new() -> (res: Self)
        ensures
            res.wf(),
            res.spec_map() == Map::<Seq<char>, ComponentData>::empty(),
    {
        DataComponentMap { map: KeyedList::new() }
    }

    /// A map with the components every item starts with that this library
    /// holds: a stack size of 64, no repair cost, common rarity, a tooltip
    /// that shows in full and the default swing animation.
    pub fn common_item_components() -> (res: Self)
        ensures
            res.wf(),
            exists|display: ComponentData| #![trigger display@]
                display@ == DataView::TooltipDisplay(false, Seq::empty())
                && res.spec_map() == Map::<Seq<char>, ComponentData>::empty()
                    .insert("minecraft:max_stack_size"@, ComponentData::I32(64))
                    .insert("minecraft:repair_cost"@, ComponentData::I32(0))
                    .insert("minecraft:rarity"@, ComponentData::Rarity(Rarity::Common))
                    .insert("minecraft:tooltip_display"@, display)
                    .insert("minecraft:swing_animation"@, ComponentData::SwingAnimation(SwingAnimation::spec_default())),
    {
        let mut map = DataComponentMap::new();
        map.set("minecraft:max_stack_size", Some(ComponentData::I32(64)));
        map.set("minecraft:repair_cost", Some(ComponentData::I32(0)));
        map.set("minecraft:rarity", Some(ComponentData::Rarity(Rarity::Common)));
        let display = ComponentData::TooltipDisplay(TooltipDisplay::default());
        let ghost shown = display;
        map.set("minecraft:tooltip_display", Some(display));
        map.set("minecraft:swing_animation", Some(ComponentData::SwingAnimation(SwingAnimation::default())));
        assert(shown@ == DataView::TooltipDisplay(false, Seq::empty()));
        map
    }

    /// Sets the value of `key`, or drops it where `value` is `None`.
    pub fn set(&mut self, key: &str, value: Option<ComponentData>)
        requires
            old(self).wf(),
        ensures
            final(self).wf(),
            final(self).spec_map() == match value {
                Some(v) => old(self).spec_map().insert(key@, v),
                None => old(self).spec_map().remove(key@),
            },
    {
        match value {
            Some(v) => self.map.insert(key, v),
            None => {
                self.map.remove(key);
            },
        }
    }

    /// The map with the value of `key` set, or dropped where `value` is `None`.
    pub fn builder_set(self, key: &str, value: Option<ComponentData>) -> (res: Self)
        requires
            self.wf(),
        ensures
            res.wf(),
            res.spec_map() == match value {
                Some(v) => self.spec_map().insert(key@, v),
                None => self.spec_map().remove(key@),
            },
    {
        let mut res = self;
        res.set(key, value);
        res
    }

    /// The value of `key`, if any.
    pub fn get_raw(&self, key: &str) -> (res: Option<&ComponentData>)
        requires
            self.wf(),
        ensures
            match res {
                Some(v) => self.spec_map().contains_key(key@) && *v == self.spec_map()[key@],
                None => !self.spec_map().contains_key(key@),
            },
    {
        self.map.get(key)
    }

    /// Whether `key` has a value.
    pub fn has(&self, key: &str) -> (res: bool)
        requires
            self.wf(),
        ensures
            res == self.spec_map().contains_key(key@),
    {
        self.map.get(key).is_some()
    }

    /// The number of components.
    pub fn len(&self) -> (res: usize)
        requires
            self.wf(),
        ensures
            res == self.spec_map().dom().len(),
    {
        self.map.len()
    }

    /// Whether there are no components.
    pub fn is_empty(&self) -> (res: bool)
        requires
            self.wf(),
        ensures
            res == (self.spec_map() == Map::<Seq<char>, ComponentData>::empty()),
    {
        self.map.is_empty()
    }

    /// The component keys, each once.
    pub fn keys(&self) -> (res: Vec<&String>)
        requires
            self.wf(),
        ensures
            forall|i: int| 0 <= i < res@.len() ==> self.spec_map().contains_key(#[trigger] res@[i]@),
            forall|k: Seq<char>| #[trigger] self.spec_map().contains_key(k) ==> exists|i: int| 0 <= i < res@.len() && res@[i]@ == k,
            forall|i: int, j: int| 0 <= i < j < res@.len() ==> (#[trigger] res@[i])@ != (#[trigger] res@[j])@,
    {
        let entries = self.map.entries();
        proof {
            self.map.lemma_view();
        }
        let mut res: Vec<&String> = Vec::new();
        let mut i: usize = 0;
        while i < entries.len()
            invariant
                self.map.wf(),
                entries@.map_values(|e: (String, ComponentData)| (e.0@, e.1)) == self.map.spec_items(),
                i <= entries@.len(),
                res@.len() == i,
                forall|j: int| 0 <= j < i ==> (#[trigger] res@[j])@ == entries@[j].0@,
            decreases entries.len() - i,
        {
            res.push(&entries[i].0);
            i = i + 1;
        }
        proof {
            let items = self.map.spec_items();
            assert forall|j: int| 0 <= j < res@.len() implies self.spec_map().contains_key(#[trigger] res@[j]@) by {
                assert(items[j].0 == res@[j]@);
            }
            assert forall|k: Seq<char>| #[trigger] self.spec_map().contains_key(k) implies exists|j: int| 0 <= j < res@.len() && res@[j]@ == k by {
                let j = choose|j: int| 0 <= j < items.len() && #[trigger] items[j].0 == k;
                assert(res@[j]@ == k);
            }
            assert forall|a: int, b: int| 0 <= a < b < res@.len() implies (#[trigger] res@[a])@ != (#[trigger] res@[b])@ by {
                assert(items[a].0 == res@[a]@ && items[b].0 == res@[b]@);
            }
        }
        res
    }

    /// The value of `key`, if the map has one.
    pub fn get(&self, key: &str) -> (res: Option<&ComponentData>)
        requires
            self.wf(),
        ensures
            match res {
                Some(v) => self.spec_map().contains_key(key@) && *v == self.spec_map()[key@],
                None => !self.spec_map().contains_key(key@),
            },
    {
        self.get_raw(key)
    }

    /// The keys and values, each key once.
    pub fn iter(&self) -> (res: Vec<(&String, &ComponentData)>)
        requires
            self.wf(),
        ensures
            forall|i: int| 0 <= i < res@.len() ==> #[trigger] self.spec_map().contains_key(res@[i].0@)
                && self.spec_map()[res@[i].0@] == *res@[i].1,
            forall|k: Seq<char>| #[trigger] self.spec_map().contains_key(k) ==> exists|i: int| 0 <= i < res@.len() && res@[i].0@ == k,
            forall|i: int, j: int| 0 <= i < j < res@.len() ==> (#[trigger] res@[i]).0@ != (#[trigger] res@[j]).0@,
    {
        let entries = self.map.entries();
        proof {
            self.map.lemma_view();
        }
        let mut res: Vec<(&String, &ComponentData)> = Vec::new();
        let mut i: usize = 0;
        while i < entries.len()
            invariant
                self.map.wf(),
                entries@.map_values(|e: (String, ComponentData)| (e.0@, e.1)) == self.map.spec_items(),
                i <= entries@.len(),
                res@.len() == i,
                forall|j: int| 0 <= j < i ==> (#[trigger] res@[j]).0@ == entries@[j].0@ && *res@[j].1 == entries@[j].1,
            decreases entries.len() - i,
        {
            res.push((&entries[i].0, &entries[i].1));
            i = i + 1;
        }
        proof {
            let items = self.map.spec_items();
            assert forall|j: int| 0 <= j < res@.len() implies #[trigger] self.spec_map().contains_key(res@[j].0@)
                && self.spec_map()[res@[j].0@] == *res@[j].1 by {
                assert(items[j].0 == res@[j].0@ && items[j].1 == *res@[j].1);
            }
            assert forall|k: Seq<char>| #[trigger] self.spec_map().contains_key(k) implies exists|j: int| 0 <= j < res@.len() && res@[j].0@ == k by {
                let j = choose|j: int| 0 <= j < items.len() && #[trigger] items[j].0 == k;
                assert(res@[j].0@ == k);
            }
            assert forall|a: int, b: int| 0 <= a < b < res@.len() implies (#[trigger] res@[a]).0@ != (#[trigger] res@[b]).0@ by {
                assert(items[a].0 == res@[a].0@ && items[b].0 == res@[b].0@);
            }
        }
        res
    }

    /// Drops the value of `key`, returning it.
    pub fn remove(&mut self, key: &str) -> (res: Option<ComponentData>)
        requires
            old(self).wf(),
        ensures
            final(self).wf(),
            final(self).spec_map() == old(self).spec_map().remove(key@),
            match res {
                Some(v) => old(self).spec_map().contains_key(key@) && v == old(self).spec_map()[key@],
                None => !old(self).spec_map().contains_key(key@),
            },
    {
        self.map.remove(key)
    }

    /// Sets the value of `key` when `registry` has that component type and
    /// its codec fits `data`; returns whether it did.
    pub fn set_raw(&mut self, key: String, data: ComponentData, registry: &DataComponentRegistry) -> (res: bool)
        requires
            old(self).wf(),
            registry.wf(),
        ensures
            final(self).wf(),
            res == (registry_has_key(registry.spec_entries(), key@)
                && registry.spec_entries()[registry_id(registry.spec_entries(), key@)].kind == data@.kind()),
            final(self).spec_map() == if res { old(self).spec_map().insert(key@, data) } else { old(self).spec_map() },
    {
        let id = match registry.get_id(key.as_str()) {
            Some(id) => id,
            None => return false,
        };
        let entry = match registry.by_id(id) {
            Some(entry) => entry,
            None => return false,
        };
        if data.get_kind() != entry.kind {
            return false;
        }
        self.map.insert(key.as_str(), data);
        true
    }
}

} // verus!
