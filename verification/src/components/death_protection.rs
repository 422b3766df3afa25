//! The `minecraft:death_protection` item component.

use vstd::prelude::*;

verus! {

/// Effects applied when an item saves its holder from death.
///
/// `E` is the type of the consume effects applied.
#[derive(Debug, Clone, PartialEq)]
pub struct DeathProtection<E> {
    death_effects: Vec<E>,
}

impl<E> Default for DeathProtection<E> {
    fn default() -> (res: Self)
        ensures
            res.spec_death_effects() == Seq::<E>::empty(),
    {
        DeathProtection { death_effects: Vec::new() }
    }
}

impl<E> DeathProtection<E> {
    /// The effects, in the order they are applied.
    pub closed spec fn spec_death_effects(self) -> Seq<E> {
        self.death_effects@
    }

    /// Applies `death_effects` in order.
    pub fn new(death_effects: Vec<E>) -> (res: Self)
        ensures
            res.spec_death_effects() == death_effects@,
    {
        DeathProtection { death_effects }
    }

    /// The effects, in the order they are applied.
    pub fn death_effects(&self) -> (res: &[E])
        ensures
            res@ == self.spec_death_effects(),
    {
        self.death_effects.as_slice()
    }
}

} // verus!
