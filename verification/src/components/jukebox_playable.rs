//! The `minecraft:jukebox_playable` item component.

use vstd::prelude::*;
use crate::holder::{RegistryEntry, RegistryHolder};

verus! {

/// The jukebox song an item plays.
///
/// `V` is the value type of the jukebox song registry.
#[derive(Debug, Clone, PartialEq)]
pub struct JukeboxPlayable<V> {
    song: RegistryHolder<V>,
}

impl<V> JukeboxPlayable<V> {
    /// The song.
    pub closed spec fn spec_song(self) -> RegistryHolder<V> {
        self.song
    }

    /// Plays the registered song `song`.
    pub fn new(song: RegistryEntry<V>) -> (res: Self)
        ensures
            res.spec_song() == RegistryHolder::Reference(song),
    {
        JukeboxPlayable { song: RegistryHolder::reference(song) }
    }

    /// Plays the inline song `song`.
    pub fn direct(song: V) -> (res: Self)
        ensures
            res.spec_song() == RegistryHolder::<V>::Direct(song),
    {
        JukeboxPlayable { song: RegistryHolder::direct(song) }
    }

    /// The song.
    pub fn song(&self) -> (res: &RegistryHolder<V>)
        ensures
            *res == self.spec_song(),
    {
        &self.song
    }
}

} // verus!
