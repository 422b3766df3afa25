//! The `minecraft:provides_trim_material` item component.

use vstd::prelude::*;
use crate::holder::RegistryHolder;

verus! {

/// The trim material an ingredient supplies at the smithing table.
///
/// `V` is the value type of the trim material registry.
#[derive(Debug, Clone, PartialEq)]
pub struct ProvidesTrimMaterial<V> {
    material: RegistryHolder<V>,
}

impl<V> ProvidesTrimMaterial<V> {
    /// The material.
    pub closed spec fn spec_material(self) -> RegistryHolder<V> {
        self.material
    }

    /// Supplies `material`.
    pub fn new(material: RegistryHolder<V>) -> (res: Self)
        ensures
            res.spec_material() == material,
    {
        ProvidesTrimMaterial { material }
    }

    /// The material.
    pub fn material(&self) -> (res: &RegistryHolder<V>)
        ensures
            *res == self.spec_material(),
    {
        &self.material
    }

    /// The material's value, whether registered or inline.
    pub fn value(&self) -> (res: &V)
        ensures
            *res == self.spec_material().spec_value(),
    {
        self.material.value()
    }
}

} // verus!
