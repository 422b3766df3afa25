//! The `minecraft:instrument` item component.

use vstd::prelude::*;
use crate::holder::RegistryHolder;

verus! {

/// The instrument played by an item such as a goat horn.
///
/// `V` is the value type of the instrument registry.
#[derive(Debug, Clone, PartialEq)]
pub struct InstrumentComponent<V> {
    instrument: RegistryHolder<V>,
}

impl<V> InstrumentComponent<V> {
    /// The instrument.
    pub closed spec fn spec_instrument(self) -> RegistryHolder<V> {
        self.instrument
    }

    /// The component for `instrument`.
    pub fn new(instrument: RegistryHolder<V>) -> (res: Self)
        ensures
            res.spec_instrument() == instrument,
    {
        InstrumentComponent { instrument }
    }

    /// The instrument.
    pub fn instrument(&self) -> (res: &RegistryHolder<V>)
        ensures
            *res == self.spec_instrument(),
    {
        &self.instrument
    }

    /// The instrument's value, whether registered or inline.
    pub fn value(&self) -> (res: &V)
        ensures
            *res == self.spec_instrument().spec_value(),
    {
        self.instrument.value()
    }
}

} // verus!
