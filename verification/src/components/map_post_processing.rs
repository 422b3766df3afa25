//! The transient `minecraft:map_post_processing` item component.

use vstd::prelude::*;
use crate::wire::{
    WireError, read_agrees, read_varint, spec_read_varint, varint_bytes, write_varint,
    lemma_varint_round_trip,
};

verus! {

/// Operation applied to a filled map after crafting.
#[derive(Debug, Clone, Copy, PartialEq, Eq, Structural)]
pub enum MapPostProcessing {
    Lock,
    Scale,
}

impl MapPostProcessing {
    /// The network id.
    pub open spec fn spec_id(self) -> i32 {
        match self {
            MapPostProcessing::Lock => 0,
            MapPostProcessing::Scale => 1,
        }
    }

    /// The operation of a network id; unknown ids lock.
    pub open spec fn spec_from_id(id: i32) -> MapPostProcessing {
        if id == 1 {
            MapPostProcessing::Scale
        } else {
            MapPostProcessing::Lock
        }
    }

    /// Returns the network id.
    pub fn id(self) -> (res: i32)
        ensures
            res == self.spec_id(),
    {
        match self {
            MapPostProcessing::Lock => 0,
            MapPostProcessing::Scale => 1,
        }
    }

    fn from_id(id: i32) -> (res: MapPostProcessing)
        ensures
            res == MapPostProcessing::spec_from_id(id),
    {
        match id {
            1 => MapPostProcessing::Scale,
            _ => MapPostProcessing::Lock,
        }
    }

    /// Appends the id as a `VarInt`.
    pub fn write(&self, buf: &mut Vec<u8>)
        ensures
            final(buf)@ == old(buf)@ + varint_bytes(self.spec_id()),
    {
        write_varint(buf, self.id());
    }

    /// The network reading at `pos`.
    pub open spec fn spec_read(s: Seq<u8>, pos: int) -> Result<(MapPostProcessing, int), WireError> {
        match spec_read_varint(s, pos) {
            Ok((id, end)) => Ok((MapPostProcessing::spec_from_id(id), end)),
            Err(e) => Err(e),
        }
    }

    /// Reads the operation at `pos`.
    pub fn read(data: &[u8], pos: usize) -> (res: Result<(MapPostProcessing, usize), WireError>)
        ensures
            read_agrees(res, MapPostProcessing::spec_read(data@, pos as int)),
    {
        let (id, end) = read_varint(data, pos)?;
        Ok((MapPostProcessing::from_id(id), end))
    }
}

/// Law: the network form of an operation reads back as the same operation.
pub proof fn lemma_map_post_processing_round_trip(pre: Seq<u8>, v: MapPostProcessing, rest: Seq<u8>)
    ensures
        MapPostProcessing::spec_read(pre + varint_bytes(v.spec_id()) + rest, pre.len() as int)
            == Ok::<(MapPostProcessing, int), WireError>(
            (v, (pre.len() + varint_bytes(v.spec_id()).len()) as int),
        ),
{
    lemma_varint_round_trip(pre, v.spec_id(), rest);
}

} // verus!
