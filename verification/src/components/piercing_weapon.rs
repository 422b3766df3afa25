//! The `minecraft:piercing_weapon` item component.

use vstd::prelude::*;

verus! {

/// How a piercing attack affects the entities it hits.
///
/// `S` is the type of a sound event.
#[derive(Debug, Clone, PartialEq)]
pub struct PiercingWeapon<S> {
    pub deals_knockback: bool,
    pub dismounts: bool,
    pub sound: Option<S>,
    pub hit_sound: Option<S>,
}

impl<S> Default for PiercingWeapon<S> {
    /// Knockback without dismounting, and no sounds.
    fn default() -> (res: Self)
        ensures
            res.deals_knockback,
            !res.dismounts,
            res.sound is None,
            res.hit_sound is None,
    {
        PiercingWeapon { deals_knockback: true, dismounts: false, sound: None, hit_sound: None }
    }
}

} // verus!
