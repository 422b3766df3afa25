//! The `minecraft:trim` item component.

use vstd::prelude::*;
use crate::holder::RegistryHolder;

verus! {

/// Material and pattern applied to a trimmed piece of equipment.
///
/// `M` and `P` are the value types of the trim material and trim pattern
/// registries.
#[derive(Debug, Clone, PartialEq)]
pub struct ArmorTrim<M, P> {
    material: RegistryHolder<M>,
    pattern: RegistryHolder<P>,
}

impl<M, P> ArmorTrim<M, P> {
    /// The trim material.
    pub closed spec fn spec_material(self) -> RegistryHolder<M> {
        self.material
    }

    /// The trim pattern.
    pub closed spec fn spec_pattern(self) -> RegistryHolder<P> {
        self.pattern
    }

    /// A trim of `material` in the shape of `pattern`.
    pub fn new(material: RegistryHolder<M>, pattern: RegistryHolder<P>) -> (res: Self)
        ensures
            res.spec_material() == material,
            res.spec_pattern() == pattern,
    {
        ArmorTrim { material, pattern }
    }

    /// The trim material.
    pub fn material(&self) -> (res: &RegistryHolder<M>)
        ensures
            *res == self.spec_material(),
    {
        &self.material
    }

    /// The trim pattern.
    pub fn pattern(&self) -> (res: &RegistryHolder<P>)
        ensures
            *res == self.spec_pattern(),
    {
        &self.pattern
    }
}

} // verus!
