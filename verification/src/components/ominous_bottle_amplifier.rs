//! The `minecraft:ominous_bottle_amplifier` item component.

use vstd::prelude::*;
use crate::nbt::{NbtTag, codec_i32, spec_codec_i32};
use crate::wire::{
    WireError, lemma_varint_round_trip, read_agrees, read_varint, spec_read_varint, varint_bytes,
    write_varint,
};

verus! {

/// Amplifier of the effect granted by an ominous bottle.
#[derive(Debug, Clone, Copy, PartialEq, Eq, Structural)]
pub struct OminousBottleAmplifier {
    pub value: i32,
}

impl OminousBottleAmplifier {
    /// Duration of the granted effect, in ticks.
    pub const EFFECT_DURATION: i32 = 120_000;
    /// Smallest amplifier accepted in persistent data.
    pub const MIN_AMPLIFIER: i32 = 0;
    /// Largest amplifier accepted in persistent data.
    pub const MAX_AMPLIFIER: i32 = 4;

    /// Creates an amplifier; any value is accepted, as on the network.
    pub fn new(value: i32) -> (res: Self)
        ensures
            res.value == value,
    {
        OminousBottleAmplifier { value }
    }

    /// Returns the amplifier.
    pub fn value(self) -> (res: i32)
        ensures
            res == self.value,
    {
        self.value
    }

    /// Appends the network form: a `VarInt`.
    pub fn write(&self, buf: &mut Vec<u8>)
        ensures
            final(buf)@ == old(buf)@ + varint_bytes(self.value),
    {
        write_varint(buf, self.value);
    }

    /// The network reading at `pos`: any `VarInt`.
    pub open spec fn spec_read(s: Seq<u8>, pos: int) -> Result<(OminousBottleAmplifier, int), WireError> {
        match spec_read_varint(s, pos) {
            Ok((v, end)) => Ok((OminousBottleAmplifier { value: v }, end)),
            Err(e) => Err(e),
        }
    }

    /// Reads an amplifier at `pos`.
    pub fn read(data: &[u8], pos: usize) -> (res: Result<(OminousBottleAmplifier, usize), WireError>)
        ensures
            read_agrees(res, OminousBottleAmplifier::spec_read(data@, pos as int)),
    {
        let (v, end) = read_varint(data, pos)?;
        Ok((OminousBottleAmplifier::new(v), end))
    }

    /// The persistent form: an int tag.
    pub fn to_nbt_tag(self) -> (res: NbtTag)
        ensures
            res == NbtTag::Int(self.value),
    {
        NbtTag::Int(self.value)
    }

    /// Reads the persistent form: a numeric tag coerced to an int, which
    /// must lie in `0..=4`.
    pub fn from_nbt_tag(tag: &NbtTag) -> (res: Option<OminousBottleAmplifier>)
        ensures
            res == (match spec_codec_i32(*tag) {
                Some(v) => if 0 <= v <= 4 {
                    Some(OminousBottleAmplifier { value: v })
                } else {
                    None
                },
                None => None,
            }),
    {
        match codec_i32(tag) {
            Some(v) => if OminousBottleAmplifier::MIN_AMPLIFIER <= v && v
                <= OminousBottleAmplifier::MAX_AMPLIFIER {
                Some(OminousBottleAmplifier::new(v))
            } else {
                None
            },
            None => None,
        }
    }
}

/// Law: the network form of an amplifier reads back unchanged.
pub proof fn lemma_ominous_amplifier_round_trip(pre: Seq<u8>, v: OminousBottleAmplifier, rest: Seq<u8>)
    ensures
        OminousBottleAmplifier::spec_read(pre + varint_bytes(v.value) + rest, pre.len() as int)
            == Ok::<(OminousBottleAmplifier, int), WireError>(
            (v, (pre.len() + varint_bytes(v.value).len()) as int),
        ),
{
    lemma_varint_round_trip(pre, v.value, rest);
}

/// Law: an amplifier in the persistent range survives its persistent form.
pub proof fn lemma_ominous_amplifier_nbt_round_trip(v: OminousBottleAmplifier)
    requires
        0 <= v.value <= 4,
    ensures
        spec_codec_i32(NbtTag::Int(v.value)) == Some(v.value),
{
}

} // verus!
