//! The `minecraft:painting/variant` item component.

use vstd::prelude::*;
use crate::holder::{RegistryEntry, RegistryHolder};

verus! {

/// The painting variant placed by a painting item.
///
/// `V` is the value type of the painting variant registry.
#[derive(Debug, Clone, PartialEq)]
pub struct PaintingVariantComponent<V> {
    variant: RegistryHolder<V>,
}

impl<V> PaintingVariantComponent<V> {
    /// The variant.
    pub closed spec fn spec_variant(self) -> RegistryHolder<V> {
        self.variant
    }

    /// The registered variant `variant`.
    pub fn new(variant: RegistryEntry<V>) -> (res: Self)
        ensures
            res.spec_variant() == RegistryHolder::Reference(variant),
    {
        PaintingVariantComponent { variant: RegistryHolder::reference(variant) }
    }

    /// The inline variant `variant`.
    pub fn direct(variant: V) -> (res: Self)
        ensures
            res.spec_variant() == RegistryHolder::<V>::Direct(variant),
    {
        PaintingVariantComponent { variant: RegistryHolder::direct(variant) }
    }

    /// The variant.
    pub fn variant(&self) -> (res: &RegistryHolder<V>)
        ensures
            *res == self.spec_variant(),
    {
        &self.variant
    }
}

} // verus!
