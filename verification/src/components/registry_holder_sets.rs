//! Components backed by sets of registry entries.

use vstd::prelude::*;
use crate::holder::{RegistryHolderSet, RegistryRef};

verus! {

/// Damage types that cannot hurt an item stack.
#[derive(Debug, Clone, PartialEq)]
pub struct DamageResistant {
    types: RegistryHolderSet,
}

impl DamageResistant {
    /// The damage types resisted.
    pub closed spec fn spec_types(self) -> RegistryHolderSet {
        self.types
    }

    /// Resists the damage types in `types`.
    pub fn new(types: RegistryHolderSet) -> (res: Self)
        ensures
            res.spec_types() == types,
    {
        DamageResistant { types }
    }

    /// The damage types resisted.
    pub fn types(&self) -> (res: &RegistryHolderSet)
        ensures
            *res == self.spec_types(),
    {
        &self.types
    }

    /// Whether this component protects against `damage_type`.
    pub fn is_resistant_to(&self, damage_type: &RegistryRef) -> (res: bool)
        ensures
            res == self.spec_types().spec_contains(damage_type.key@),
    {
        self.types.contains(damage_type)
    }
}

/// Items accepted as repair materials for an item stack.
#[derive(Debug, Clone, PartialEq)]
pub struct Repairable {
    items: RegistryHolderSet,
}

impl Repairable {
    /// The accepted repair items.
    pub closed spec fn spec_items(self) -> RegistryHolderSet {
        self.items
    }

    /// Accepts the items in `items`.
    pub fn new(items: RegistryHolderSet) -> (res: Self)
        ensures
            res.spec_items() == items,
    {
        Repairable { items }
    }

    /// The accepted repair items.
    pub fn items(&self) -> (res: &RegistryHolderSet)
        ensures
            *res == self.spec_items(),
    {
        &self.items
    }

    /// Whether a stack of `repair_item` may repair the item.
    pub fn is_valid_repair_item(&self, repair_item: &RegistryRef) -> (res: bool)
        ensures
            res == self.spec_items().spec_contains(repair_item.key@),
    {
        self.items.contains(repair_item)
    }
}

} // verus!
