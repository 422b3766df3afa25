//! The `minecraft:rarity` item component.

use vstd::prelude::*;
use crate::nbt::NbtTag;
use crate::wire::{
    WireError, read_agrees, read_varint, spec_read_varint, varint_bytes, write_varint,
    lemma_varint_round_trip, str_equals,
};

verus! {

/// Item rarity, which colors the item name.
#[derive(Debug, Clone, Copy, PartialEq, Eq, Structural)]
pub enum Rarity {
    Common,
    Uncommon,
    Rare,
    Epic,
}

/// The text colors an item name takes from its rarity.
#[derive(Debug, Clone, Copy, PartialEq, Eq, Structural)]
pub enum NameColor {
    White,
    Yellow,
    Aqua,
    LightPurple,
}

impl Default for Rarity {
    fn default() -> (res: Self)
        ensures
            res == Rarity::Common,
    {
        Rarity::Common
    }
}

impl Rarity {
    /// The name used in persistent data.
    pub open spec fn spec_serialized_name(self) -> Seq<char> {
        match self {
            Rarity::Common => "common"@,
            Rarity::Uncommon => "uncommon"@,
            Rarity::Rare => "rare"@,
            Rarity::Epic => "epic"@,
        }
    }

    /// The color of the item name.
    pub open spec fn spec_color(self) -> NameColor {
        match self {
            Rarity::Common => NameColor::White,
            Rarity::Uncommon => NameColor::Yellow,
            Rarity::Rare => NameColor::Aqua,
            Rarity::Epic => NameColor::LightPurple,
        }
    }

    /// The color of the item name: white, yellow, aqua and light purple
    /// from common to epic.
    pub fn color(self) -> (res: NameColor)
        ensures
            res == self.spec_color(),
            self == Rarity::Common ==> res == NameColor::White,
            self == Rarity::Uncommon ==> res == NameColor::Yellow,
            self == Rarity::Rare ==> res == NameColor::Aqua,
            self == Rarity::Epic ==> res == NameColor::LightPurple,
    {
        match self {
            Rarity::Common => NameColor::White,
            Rarity::Uncommon => NameColor::Yellow,
            Rarity::Rare => NameColor::Aqua,
            Rarity::Epic => NameColor::LightPurple,
        }
    }

    /// The id used on the network.
    pub open spec fn spec_network_id(self) -> i32 {
        match self {
            Rarity::Common => 0,
            Rarity::Uncommon => 1,
            Rarity::Rare => 2,
            Rarity::Epic => 3,
        }
    }

    /// The rarity of a network id; unknown ids are common.
    pub open spec fn spec_from_network_id(id: i32) -> Rarity {
        if id == 1 {
            Rarity::Uncommon
        } else if id == 2 {
            Rarity::Rare
        } else if id == 3 {
            Rarity::Epic
        } else {
            Rarity::Common
        }
    }

    /// The rarity of a persistent name, if it is one.
    pub open spec fn spec_from_serialized_name(name: Seq<char>) -> Option<Rarity> {
        if name == "common"@ {
            Some(Rarity::Common)
        } else if name == "uncommon"@ {
            Some(Rarity::Uncommon)
        } else if name == "rare"@ {
            Some(Rarity::Rare)
        } else if name == "epic"@ {
            Some(Rarity::Epic)
        } else {
            None
        }
    }

    /// Returns the persistent name of this rarity.
    pub fn serialized_name(self) -> (res: &'static str)
        ensures
            res@ == self.spec_serialized_name(),
    {
        match self {
            Rarity::Common => "common",
            Rarity::Uncommon => "uncommon",
            Rarity::Rare => "rare",
            Rarity::Epic => "epic",
        }
    }

    fn network_id(self) -> (res: i32)
        ensures
            res == self.spec_network_id(),
    {
        match self {
            Rarity::Common => 0,
            Rarity::Uncommon => 1,
            Rarity::Rare => 2,
            Rarity::Epic => 3,
        }
    }

    fn from_network_id(id: i32) -> (res: Rarity)
        ensures
            res == Rarity::spec_from_network_id(id),
    {
        match id {
            1 => Rarity::Uncommon,
            2 => Rarity::Rare,
            3 => Rarity::Epic,
            _ => Rarity::Common,
        }
    }

    fn from_serialized_name(name: &str) -> (res: Option<Rarity>)
        ensures
            res == Rarity::spec_from_serialized_name(name@),
    {
        if str_equals(name, "common") {
            Some(Rarity::Common)
        } else if str_equals(name, "uncommon") {
            Some(Rarity::Uncommon)
        } else if str_equals(name, "rare") {
            Some(Rarity::Rare)
        } else if str_equals(name, "epic") {
            Some(Rarity::Epic)
        } else {
            None
        }
    }

    /// Appends the network form: the id as a `VarInt`.
    pub fn write(&self, buf: &mut Vec<u8>)
        ensures
            final(buf)@ == old(buf)@ + varint_bytes(self.spec_network_id()),
    {
        write_varint(buf, self.network_id());
    }

    /// The network reading at `pos`: a `VarInt` id, unknown ids read as common.
    pub open spec fn spec_read(s: Seq<u8>, pos: int) -> Result<(Rarity, int), WireError> {
        match spec_read_varint(s, pos) {
            Ok((id, end)) => Ok((Rarity::spec_from_network_id(id), end)),
            Err(e) => Err(e),
        }
    }

    /// Reads a rarity at `pos`.
    pub fn read(data: &[u8], pos: usize) -> (res: Result<(Rarity, usize), WireError>)
        ensures
            read_agrees(res, Rarity::spec_read(data@, pos as int)),
    {
        let (id, end) = read_varint(data, pos)?;
        Ok((Rarity::from_network_id(id), end))
    }

    /// The persistent form: the name as a string tag.
    pub fn to_nbt_tag(self) -> (res: NbtTag)
        ensures
            res matches NbtTag::String(s) && s@ == self.spec_serialized_name(),
    {
        NbtTag::String(self.serialized_name().to_owned())
    }

    /// Reads the persistent form: a string tag naming a rarity.
    pub fn from_nbt_tag(tag: &NbtTag) -> (res: Option<Rarity>)
        ensures
            res == (match tag {
                NbtTag::String(s) => Rarity::spec_from_serialized_name(s@),
                _ => None,
            }),
    {
        match tag {
            NbtTag::String(s) => Rarity::from_serialized_name(s.as_str()),
            _ => None,
        }
    }
}

/// Law: the network form of a rarity reads back as the same rarity.
pub proof fn lemma_rarity_network_round_trip(pre: Seq<u8>, r: Rarity, rest: Seq<u8>)
    ensures
        Rarity::spec_read(pre + varint_bytes(r.spec_network_id()) + rest, pre.len() as int)
            == Ok::<(Rarity, int), WireError>(
            (r, (pre.len() + varint_bytes(r.spec_network_id()).len()) as int),
        ),
{
    lemma_varint_round_trip(pre, r.spec_network_id(), rest);
}

/// Law: the persistent name of a rarity names that rarity, and distinct
/// rarities have distinct names.
pub proof fn lemma_rarity_name_round_trip(r: Rarity)
    ensures
        Rarity::spec_from_serialized_name(r.spec_serialized_name()) == Some(r),
{
    reveal_strlit("common");
    reveal_strlit("uncommon");
    reveal_strlit("rare");
    reveal_strlit("epic");
    assert("uncommon"@.len() != "common"@.len());
    assert("rare"@.len() != "common"@.len() && "rare"@.len() != "uncommon"@.len());
    assert("epic"@.len() != "common"@.len() && "epic"@.len() != "uncommon"@.len());
    assert("epic"@[0] != "rare"@[0]);
}

/// Law: an item name is drawn white when common, yellow when uncommon, aqua
/// when rare and light purple when epic, so distinct rarities draw names in
/// distinct colors.
pub proof fn lemma_rarity_colors(r: Rarity, other: Rarity)
    ensures
        Rarity::Common.spec_color() == NameColor::White,
        Rarity::Uncommon.spec_color() == NameColor::Yellow,
        Rarity::Rare.spec_color() == NameColor::Aqua,
        Rarity::Epic.spec_color() == NameColor::LightPurple,
        r != other ==> r.spec_color() != other.spec_color(),
{
}

} // verus!
