//! Item color and map id components.

use vstd::prelude::*;
use crate::nbt::{NbtTag, codec_i32, spec_codec_i32};
use crate::text::{append_i32_decimal, int_decimal};
use crate::wire::{
    WireError, i32_be_bytes, lemma_i32_be_round_trip, lemma_varint_round_trip, read_agrees,
    read_i32_be, read_varint, spec_read_i32_be, spec_read_varint, varint_bytes, write_i32_be,
    write_varint,
};

verus! {

/// RGB color applied to dyeable items.
#[derive(Debug, Clone, Copy, PartialEq, Eq, Structural)]
pub struct DyedItemColor {
    pub rgb: i32,
}

impl DyedItemColor {
    /// The undyed leather color.
    pub const LEATHER_COLOR: i32 = -6_265_536;

    /// Creates a color.
    pub fn new(rgb: i32) -> (res: Self)
        ensures
            res.spec_rgb() == rgb,
    {
        DyedItemColor { rgb }
    }

    /// The color as a packed RGB int.
    pub open spec fn spec_rgb(self) -> i32 {
        self.rgb
    }

    /// Returns the packed RGB int.
    pub fn rgb(self) -> (res: i32)
        ensures
            res == self.spec_rgb(),
    {
        self.rgb
    }

    /// Appends the network form: a big-endian int.
    pub fn write(&self, buf: &mut Vec<u8>)
        ensures
            final(buf)@ == old(buf)@ + i32_be_bytes(self.spec_rgb()),
    {
        write_i32_be(buf, self.rgb);
    }

    /// The network reading at `pos`.
    pub open spec fn spec_read(s: Seq<u8>, pos: int) -> Result<(DyedItemColor, int), WireError> {
        match spec_read_i32_be(s, pos) {
            Ok((v, end)) => Ok((DyedItemColor { rgb: v }, end)),
            Err(e) => Err(e),
        }
    }

    /// Reads a color at `pos`.
    pub fn read(data: &[u8], pos: usize) -> (res: Result<(DyedItemColor, usize), WireError>)
        ensures
            read_agrees(res, DyedItemColor::spec_read(data@, pos as int)),
    {
        let (v, end) = read_i32_be(data, pos)?;
        Ok((DyedItemColor::new(v), end))
    }

    /// The persistent form: an int tag.
    pub fn to_nbt_tag(self) -> (res: NbtTag)
        ensures
            res == NbtTag::Int(self.spec_rgb()),
    {
        NbtTag::Int(self.rgb)
    }

    /// Reads the integer persistent form: any numeric tag, coerced to an
    /// int. (The other persistent form, a list of three float channels, is
    /// decoded with floating-point arithmetic outside this crate.)
    pub fn from_nbt_int(tag: &NbtTag) -> (res: Option<DyedItemColor>)
        ensures
            res == (match spec_codec_i32(*tag) {
                Some(v) => Some(DyedItemColor { rgb: v }),
                None => None,
            }),
    {
        match codec_i32(tag) {
            Some(v) => Some(DyedItemColor::new(v)),
            None => None,
        }
    }
}

/// Law: the network form of a dyed color reads back unchanged.
pub proof fn lemma_dyed_color_round_trip(pre: Seq<u8>, v: DyedItemColor, rest: Seq<u8>)
    ensures
        DyedItemColor::spec_read(pre + i32_be_bytes(v.spec_rgb()) + rest, pre.len() as int)
            == Ok::<(DyedItemColor, int), WireError>((v, pre.len() + 4int)),
{
    lemma_i32_be_round_trip(pre, v.spec_rgb(), rest);
}

/// Color used to tint a filled map item.
#[derive(Debug, Clone, Copy, PartialEq, Eq, Structural)]
pub struct MapItemColor {
    pub rgb: i32,
}

/// The packed RGB of the default map tint.
pub const DEFAULT_MAP_COLOR: i32 = 4_603_950;

impl Default for MapItemColor {
    fn default() -> (res: Self)
        ensures
            res.spec_rgb() == DEFAULT_MAP_COLOR,
    {
        MapItemColor::new(DEFAULT_MAP_COLOR)
    }
}

impl MapItemColor {
    /// Creates a map tint.
    pub fn new(rgb: i32) -> (res: Self)
        ensures
            res.spec_rgb() == rgb,
    {
        MapItemColor { rgb }
    }

    /// The tint as a packed RGB int.
    pub open spec fn spec_rgb(self) -> i32 {
        self.rgb
    }

    /// Returns the packed RGB int.
    pub fn rgb(self) -> (res: i32)
        ensures
            res == self.spec_rgb(),
    {
        self.rgb
    }

    /// Appends the network form: a big-endian int.
    pub fn write(&self, buf: &mut Vec<u8>)
        ensures
            final(buf)@ == old(buf)@ + i32_be_bytes(self.spec_rgb()),
    {
        write_i32_be(buf, self.rgb);
    }

    /// The network reading at `pos`.
    pub open spec fn spec_read(s: Seq<u8>, pos: int) -> Result<(MapItemColor, int), WireError> {
        match spec_read_i32_be(s, pos) {
            Ok((v, end)) => Ok((MapItemColor { rgb: v }, end)),
            Err(e) => Err(e),
        }
    }

    /// Reads a tint at `pos`.
    pub fn read(data: &[u8], pos: usize) -> (res: Result<(MapItemColor, usize), WireError>)
        ensures
            read_agrees(res, MapItemColor::spec_read(data@, pos as int)),
    {
        let (v, end) = read_i32_be(data, pos)?;
        Ok((MapItemColor::new(v), end))
    }

    /// The persistent form: an int tag.
    pub fn to_nbt_tag(self) -> (res: NbtTag)
        ensures
            res == NbtTag::Int(self.spec_rgb()),
    {
        NbtTag::Int(self.rgb)
    }

    /// Reads the persistent form: any numeric tag, coerced to an int.
    pub fn from_nbt_tag(tag: &NbtTag) -> (res: Option<MapItemColor>)
        ensures
            res == (match spec_codec_i32(*tag) {
                Some(v) => Some(MapItemColor { rgb: v }),
                None => None,
            }),
    {
        match codec_i32(tag) {
            Some(v) => Some(MapItemColor::new(v)),
            None => None,
        }
    }
}

/// Law: the network form of a map tint reads back unchanged.
pub proof fn lemma_map_color_round_trip(pre: Seq<u8>, v: MapItemColor, rest: Seq<u8>)
    ensures
        MapItemColor::spec_read(pre + i32_be_bytes(v.spec_rgb()) + rest, pre.len() as int)
            == Ok::<(MapItemColor, int), WireError>((v, pre.len() + 4int)),
{
    lemma_i32_be_round_trip(pre, v.spec_rgb(), rest);
}

/// Numeric identifier of a map's saved data.
#[derive(Debug, Clone, Copy, PartialEq, Eq, Structural)]
pub struct MapId {
    pub id: i32,
}

impl MapId {
    /// Creates a map id.
    pub fn new(id: i32) -> (res: Self)
        ensures
            res.spec_id() == id,
    {
        MapId { id }
    }

    /// The numeric id.
    pub open spec fn spec_id(self) -> i32 {
        self.id
    }

    /// Returns the numeric id.
    pub fn id(self) -> (res: i32)
        ensures
            res == self.spec_id(),
    {
        self.id
    }

    /// Returns the saved-data key of the map: `maps/` and the decimal id.
    pub fn key(self) -> (res: String)
        ensures
            res@ == "maps/"@ + int_decimal(self.spec_id() as int),
    {
        let mut out = String::from_str("maps/");
        append_i32_decimal(&mut out, self.id);
        out
    }

    /// Appends the network form: a `VarInt`.
    pub fn write(&self, buf: &mut Vec<u8>)
        ensures
            final(buf)@ == old(buf)@ + varint_bytes(self.spec_id()),
    {
        write_varint(buf, self.id);
    }

    /// The network reading at `pos`.
    pub open spec fn spec_read(s: Seq<u8>, pos: int) -> Result<(MapId, int), WireError> {
        match spec_read_varint(s, pos) {
            Ok((v, end)) => Ok((MapId { id: v }, end)),
            Err(e) => Err(e),
        }
    }

    /// Reads a map id at `pos`.
    pub fn read(data: &[u8], pos: usize) -> (res: Result<(MapId, usize), WireError>)
        ensures
            read_agrees(res, MapId::spec_read(data@, pos as int)),
    {
        let (v, end) = read_varint(data, pos)?;
        Ok((MapId::new(v), end))
    }

    /// The persistent form: an int tag.
    pub fn to_nbt_tag(self) -> (res: NbtTag)
        ensures
            res == NbtTag::Int(self.spec_id()),
    {
        NbtTag::Int(self.id)
    }

    /// Reads the persistent form: any numeric tag, coerced to an int.
    pub fn from_nbt_tag(tag: &NbtTag) -> (res: Option<MapId>)
        ensures
            res == (match spec_codec_i32(*tag) {
                Some(v) => Some(MapId { id: v }),
                None => None,
            }),
    {
        match codec_i32(tag) {
            Some(v) => Some(MapId::new(v)),
            None => None,
        }
    }
}

/// Law: the network form of a map id reads back unchanged.
pub proof fn lemma_map_id_round_trip(pre: Seq<u8>, v: MapId, rest: Seq<u8>)
    ensures
        MapId::spec_read(pre + varint_bytes(v.spec_id()) + rest, pre.len() as int) == Ok::<
            (MapId, int),
            WireError,
        >((v, (pre.len() + varint_bytes(v.spec_id()).len()) as int)),
{
    lemma_varint_round_trip(pre, v.spec_id(), rest);
}

} // verus!
