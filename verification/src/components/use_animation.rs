//! The arm animation shown while an item is used.

use vstd::prelude::*;
use crate::wire::{
    WireError, read_agrees, read_varint, spec_read_varint, varint_bytes, write_varint,
    lemma_varint_round_trip, str_equals,
};

verus! {

/// Arm animation displayed while using an item.
#[derive(Debug, Clone, Copy, PartialEq, Eq, Structural)]
pub enum ItemUseAnimation {
    NoAnimation,
    Eat,
    Drink,
    Block,
    Bow,
    Trident,
    Crossbow,
    Spyglass,
    TootHorn,
    Brush,
    Bundle,
    Spear,
}

impl Default for ItemUseAnimation {
    fn default() -> (res: Self)
        ensures
            res == ItemUseAnimation::Eat,
    {
        ItemUseAnimation::Eat
    }
}

impl ItemUseAnimation {
    /// The network id.
    pub open spec fn spec_id(self) -> i32 {
        match self {
            ItemUseAnimation::NoAnimation => 0,
            ItemUseAnimation::Eat => 1,
            ItemUseAnimation::Drink => 2,
            ItemUseAnimation::Block => 3,
            ItemUseAnimation::Bow => 4,
            ItemUseAnimation::Trident => 5,
            ItemUseAnimation::Crossbow => 6,
            ItemUseAnimation::Spyglass => 7,
            ItemUseAnimation::TootHorn => 8,
            ItemUseAnimation::Brush => 9,
            ItemUseAnimation::Bundle => 10,
            ItemUseAnimation::Spear => 11,
        }
    }

    /// The persistent name.
    pub open spec fn spec_serialized_name(self) -> Seq<char> {
        match self {
            ItemUseAnimation::NoAnimation => "none"@,
            ItemUseAnimation::Eat => "eat"@,
            ItemUseAnimation::Drink => "drink"@,
            ItemUseAnimation::Block => "block"@,
            ItemUseAnimation::Bow => "bow"@,
            ItemUseAnimation::Trident => "trident"@,
            ItemUseAnimation::Crossbow => "crossbow"@,
            ItemUseAnimation::Spyglass => "spyglass"@,
            ItemUseAnimation::TootHorn => "toot_horn"@,
            ItemUseAnimation::Brush => "brush"@,
            ItemUseAnimation::Bundle => "bundle"@,
            ItemUseAnimation::Spear => "spear"@,
        }
    }

    /// The animation of a network id; unknown ids show none.
    pub open spec fn spec_by_id(id: i32) -> ItemUseAnimation {
        if id == 1 {
            ItemUseAnimation::Eat
        } else if id == 2 {
            ItemUseAnimation::Drink
        } else if id == 3 {
            ItemUseAnimation::Block
        } else if id == 4 {
            ItemUseAnimation::Bow
        } else if id == 5 {
            ItemUseAnimation::Trident
        } else if id == 6 {
            ItemUseAnimation::Crossbow
        } else if id == 7 {
            ItemUseAnimation::Spyglass
        } else if id == 8 {
            ItemUseAnimation::TootHorn
        } else if id == 9 {
            ItemUseAnimation::Brush
        } else if id == 10 {
            ItemUseAnimation::Bundle
        } else if id == 11 {
            ItemUseAnimation::Spear
        } else {
            ItemUseAnimation::NoAnimation
        }
    }

    /// The animation of a persistent name, if it is one.
    pub open spec fn spec_from_serialized_name(name: Seq<char>) -> Option<ItemUseAnimation> {
        if name == "none"@ {
            Some(ItemUseAnimation::NoAnimation)
        } else if name == "eat"@ {
            Some(ItemUseAnimation::Eat)
        } else if name == "drink"@ {
            Some(ItemUseAnimation::Drink)
        } else if name == "block"@ {
            Some(ItemUseAnimation::Block)
        } else if name == "bow"@ {
            Some(ItemUseAnimation::Bow)
        } else if name == "trident"@ {
            Some(ItemUseAnimation::Trident)
        } else if name == "crossbow"@ {
            Some(ItemUseAnimation::Crossbow)
        } else if name == "spyglass"@ {
            Some(ItemUseAnimation::Spyglass)
        } else if name == "toot_horn"@ {
            Some(ItemUseAnimation::TootHorn)
        } else if name == "brush"@ {
            Some(ItemUseAnimation::Brush)
        } else if name == "bundle"@ {
            Some(ItemUseAnimation::Bundle)
        } else if name == "spear"@ {
            Some(ItemUseAnimation::Spear)
        } else {
            None
        }
    }

    /// Returns the network id.
    pub fn id(self) -> (res: i32)
        ensures
            res == self.spec_id(),
            self == ItemUseAnimation::NoAnimation ==> res == 0,
            self == ItemUseAnimation::Eat ==> res == 1,
            self == ItemUseAnimation::Drink ==> res == 2,
            self == ItemUseAnimation::Block ==> res == 3,
            self == ItemUseAnimation::Bow ==> res == 4,
            self == ItemUseAnimation::Trident ==> res == 5,
            self == ItemUseAnimation::Crossbow ==> res == 6,
            self == ItemUseAnimation::Spyglass ==> res == 7,
            self == ItemUseAnimation::TootHorn ==> res == 8,
            self == ItemUseAnimation::Brush ==> res == 9,
            self == ItemUseAnimation::Bundle ==> res == 10,
            self == ItemUseAnimation::Spear ==> res == 11,
    {
        match self {
            ItemUseAnimation::NoAnimation => 0,
            ItemUseAnimation::Eat => 1,
            ItemUseAnimation::Drink => 2,
            ItemUseAnimation::Block => 3,
            ItemUseAnimation::Bow => 4,
            ItemUseAnimation::Trident => 5,
            ItemUseAnimation::Crossbow => 6,
            ItemUseAnimation::Spyglass => 7,
            ItemUseAnimation::TootHorn => 8,
            ItemUseAnimation::Brush => 9,
            ItemUseAnimation::Bundle => 10,
            ItemUseAnimation::Spear => 11,
        }
    }

    /// Returns the persistent name.
    pub fn serialized_name(self) -> (res: &'static str)
        ensures
            res@ == self.spec_serialized_name(),
    {
        match self {
            ItemUseAnimation::NoAnimation => "none",
            ItemUseAnimation::Eat => "eat",
            ItemUseAnimation::Drink => "drink",
            ItemUseAnimation::Block => "block",
            ItemUseAnimation::Bow => "bow",
            ItemUseAnimation::Trident => "trident",
            ItemUseAnimation::Crossbow => "crossbow",
            ItemUseAnimation::Spyglass => "spyglass",
            ItemUseAnimation::TootHorn => "toot_horn",
            ItemUseAnimation::Brush => "brush",
            ItemUseAnimation::Bundle => "bundle",
            ItemUseAnimation::Spear => "spear",
        }
    }

    /// Returns the animation of a network id; unknown ids show none.
    pub fn by_id(id: i32) -> (res: ItemUseAnimation)
        ensures
            res == ItemUseAnimation::spec_by_id(id),
            id == 0 ==> res == ItemUseAnimation::NoAnimation,
            id == 1 ==> res == ItemUseAnimation::Eat,
            id == 2 ==> res == ItemUseAnimation::Drink,
            id == 3 ==> res == ItemUseAnimation::Block,
            id == 4 ==> res == ItemUseAnimation::Bow,
            id == 5 ==> res == ItemUseAnimation::Trident,
            id == 6 ==> res == ItemUseAnimation::Crossbow,
            id == 7 ==> res == ItemUseAnimation::Spyglass,
            id == 8 ==> res == ItemUseAnimation::TootHorn,
            id == 9 ==> res == ItemUseAnimation::Brush,
            id == 10 ==> res == ItemUseAnimation::Bundle,
            id == 11 ==> res == ItemUseAnimation::Spear,
            id < 0 || id > 11 ==> res == ItemUseAnimation::NoAnimation,
    {
        match id {
            1 => ItemUseAnimation::Eat,
            2 => ItemUseAnimation::Drink,
            3 => ItemUseAnimation::Block,
            4 => ItemUseAnimation::Bow,
            5 => ItemUseAnimation::Trident,
            6 => ItemUseAnimation::Crossbow,
            7 => ItemUseAnimation::Spyglass,
            8 => ItemUseAnimation::TootHorn,
            9 => ItemUseAnimation::Brush,
            10 => ItemUseAnimation::Bundle,
            11 => ItemUseAnimation::Spear,
            _ => ItemUseAnimation::NoAnimation,
        }
    }

    /// Returns the animation of a persistent name, if it is one.
    pub fn from_serialized_name(name: &str) -> (res: Option<ItemUseAnimation>)
        ensures
            res == ItemUseAnimation::spec_from_serialized_name(name@),
    {
        if str_equals(name, "none") {
            Some(ItemUseAnimation::NoAnimation)
        } else if str_equals(name, "eat") {
            Some(ItemUseAnimation::Eat)
        } else if str_equals(name, "drink") {
            Some(ItemUseAnimation::Drink)
        } else if str_equals(name, "block") {
            Some(ItemUseAnimation::Block)
        } else if str_equals(name, "bow") {
            Some(ItemUseAnimation::Bow)
        } else if str_equals(name, "trident") {
            Some(ItemUseAnimation::Trident)
        } else if str_equals(name, "crossbow") {
            Some(ItemUseAnimation::Crossbow)
        } else if str_equals(name, "spyglass") {
            Some(ItemUseAnimation::Spyglass)
        } else if str_equals(name, "toot_horn") {
            Some(ItemUseAnimation::TootHorn)
        } else if str_equals(name, "brush") {
            Some(ItemUseAnimation::Brush)
        } else if str_equals(name, "bundle") {
            Some(ItemUseAnimation::Bundle)
        } else if str_equals(name, "spear") {
            Some(ItemUseAnimation::Spear)
        } else {
            None
        }
    }

    /// Appends the id as a `VarInt`.
    pub fn write(&self, buf: &mut Vec<u8>)
        ensures
            final(buf)@ == old(buf)@ + varint_bytes(self.spec_id()),
    {
        write_varint(buf, self.id());
    }

    /// The network reading at `pos`: unknown ids read as none.
    pub open spec fn spec_read(s: Seq<u8>, pos: int) -> Result<(ItemUseAnimation, int), WireError> {
        match spec_read_varint(s, pos) {
            Ok((id, end)) => Ok((ItemUseAnimation::spec_by_id(id), end)),
            Err(e) => Err(e),
        }
    }

    /// Reads an animation at `pos`.
    pub fn read(data: &[u8], pos: usize) -> (res: Result<(ItemUseAnimation, usize), WireError>)
        ensures
            read_agrees(res, ItemUseAnimation::spec_read(data@, pos as int)),
    {
        let (id, end) = read_varint(data, pos)?;
        Ok((ItemUseAnimation::by_id(id), end))
    }
}

/// Law: use animations travel as the vanilla ids none 0, eat 1, drink 2,
/// block 3, bow 4, trident 5, crossbow 6, spyglass 7, toot horn 8, brush 9,
/// bundle 10 and spear 11; every animation's id names it again, any other id
/// reads as none, and no two animations share an id.
pub proof fn lemma_use_animation_vanilla_ids(a: ItemUseAnimation, other: ItemUseAnimation)
    ensures
        ItemUseAnimation::NoAnimation.spec_id() == 0,
        ItemUseAnimation::Eat.spec_id() == 1,
        ItemUseAnimation::Drink.spec_id() == 2,
        ItemUseAnimation::Block.spec_id() == 3,
        ItemUseAnimation::Bow.spec_id() == 4,
        ItemUseAnimation::Trident.spec_id() == 5,
        ItemUseAnimation::Crossbow.spec_id() == 6,
        ItemUseAnimation::Spyglass.spec_id() == 7,
        ItemUseAnimation::TootHorn.spec_id() == 8,
        ItemUseAnimation::Brush.spec_id() == 9,
        ItemUseAnimation::Bundle.spec_id() == 10,
        ItemUseAnimation::Spear.spec_id() == 11,
        ItemUseAnimation::spec_by_id(0) == ItemUseAnimation::NoAnimation,
        ItemUseAnimation::spec_by_id(1) == ItemUseAnimation::Eat,
        ItemUseAnimation::spec_by_id(2) == ItemUseAnimation::Drink,
        ItemUseAnimation::spec_by_id(3) == ItemUseAnimation::Block,
        ItemUseAnimation::spec_by_id(4) == ItemUseAnimation::Bow,
        ItemUseAnimation::spec_by_id(5) == ItemUseAnimation::Trident,
        ItemUseAnimation::spec_by_id(6) == ItemUseAnimation::Crossbow,
        ItemUseAnimation::spec_by_id(7) == ItemUseAnimation::Spyglass,
        ItemUseAnimation::spec_by_id(8) == ItemUseAnimation::TootHorn,
        ItemUseAnimation::spec_by_id(9) == ItemUseAnimation::Brush,
        ItemUseAnimation::spec_by_id(10) == ItemUseAnimation::Bundle,
        ItemUseAnimation::spec_by_id(11) == ItemUseAnimation::Spear,
        forall|id: i32| id < 0 || id > 11 ==> #[trigger] ItemUseAnimation::spec_by_id(id) == ItemUseAnimation::NoAnimation,
        0 <= a.spec_id() <= 11,
        ItemUseAnimation::spec_by_id(a.spec_id()) == a,
        a != other ==> a.spec_id() != other.spec_id(),
{
}

/// Law: the network form of an animation reads back as the same animation.
pub proof fn lemma_use_animation_round_trip(pre: Seq<u8>, v: ItemUseAnimation, rest: Seq<u8>)
    ensures
        ItemUseAnimation::spec_read(pre + varint_bytes(v.spec_id()) + rest, pre.len() as int)
            == Ok::<(ItemUseAnimation, int), WireError>(
            (v, (pre.len() + varint_bytes(v.spec_id()).len()) as int),
        ),
{
    lemma_varint_round_trip(pre, v.spec_id(), rest);
}

/// Law: the persistent name of an animation names that animation.
pub proof fn lemma_use_animation_name_round_trip(v: ItemUseAnimation)
    ensures
        ItemUseAnimation::spec_from_serialized_name(v.spec_serialized_name()) == Some(v),
{
    reveal_strlit("none");
    reveal_strlit("eat");
    reveal_strlit("drink");
    reveal_strlit("block");
    reveal_strlit("bow");
    reveal_strlit("trident");
    reveal_strlit("crossbow");
    reveal_strlit("spyglass");
    reveal_strlit("toot_horn");
    reveal_strlit("brush");
    reveal_strlit("bundle");
    reveal_strlit("spear");
    assert("eat"@.len() != "none"@.len());
    assert("drink"@.len() != "none"@.len());
    assert("drink"@.len() != "eat"@.len());
    assert("block"@.len() != "none"@.len());
    assert("block"@.len() != "eat"@.len());
    assert("block"@[0] != "drink"@[0]);
    assert("bow"@.len() != "none"@.len());
    assert("bow"@[0] != "eat"@[0]);
    assert("bow"@.len() != "drink"@.len());
    assert("bow"@.len() != "block"@.len());
    assert("trident"@.len() != "none"@.len());
    assert("trident"@.len() != "eat"@.len());
    assert("trident"@.len() != "drink"@.len());
    assert("trident"@.len() != "block"@.len());
    assert("trident"@.len() != "bow"@.len());
    assert("crossbow"@.len() != "none"@.len());
    assert("crossbow"@.len() != "eat"@.len());
    assert("crossbow"@.len() != "drink"@.len());
    assert("crossbow"@.len() != "block"@.len());
    assert("crossbow"@.len() != "bow"@.len());
    assert("crossbow"@.len() != "trident"@.len());
    assert("spyglass"@.len() != "none"@.len());
    assert("spyglass"@.len() != "eat"@.len());
    assert("spyglass"@.len() != "drink"@.len());
    assert("spyglass"@.len() != "block"@.len());
    assert("spyglass"@.len() != "bow"@.len());
    assert("spyglass"@.len() != "trident"@.len());
    assert("spyglass"@[0] != "crossbow"@[0]);
    assert("toot_horn"@.len() != "none"@.len());
    assert("toot_horn"@.len() != "eat"@.len());
    assert("toot_horn"@.len() != "drink"@.len());
    assert("toot_horn"@.len() != "block"@.len());
    assert("toot_horn"@.len() != "bow"@.len());
    assert("toot_horn"@.len() != "trident"@.len());
    assert("toot_horn"@.len() != "crossbow"@.len());
    assert("toot_horn"@.len() != "spyglass"@.len());
    assert("brush"@.len() != "none"@.len());
    assert("brush"@.len() != "eat"@.len());
    assert("brush"@[0] != "drink"@[0]);
    assert("brush"@[1] != "block"@[1]);
    assert("brush"@.len() != "bow"@.len());
    assert("brush"@.len() != "trident"@.len());
    assert("brush"@.len() != "crossbow"@.len());
    assert("brush"@.len() != "spyglass"@.len());
    assert("brush"@.len() != "toot_horn"@.len());
    assert("bundle"@.len() != "none"@.len());
    assert("bundle"@.len() != "eat"@.len());
    assert("bundle"@.len() != "drink"@.len());
    assert("bundle"@.len() != "block"@.len());
    assert("bundle"@.len() != "bow"@.len());
    assert("bundle"@.len() != "trident"@.len());
    assert("bundle"@.len() != "crossbow"@.len());
    assert("bundle"@.len() != "spyglass"@.len());
    assert("bundle"@.len() != "toot_horn"@.len());
    assert("bundle"@.len() != "brush"@.len());
    assert("spear"@.len() != "none"@.len());
    assert("spear"@.len() != "eat"@.len());
    assert("spear"@[0] != "drink"@[0]);
    assert("spear"@[0] != "block"@[0]);
    assert("spear"@.len() != "bow"@.len());
    assert("spear"@.len() != "trident"@.len());
    assert("spear"@.len() != "crossbow"@.len());
    assert("spear"@.len() != "spyglass"@.len());
    assert("spear"@.len() != "toot_horn"@.len());
    assert("spear"@[0] != "brush"@[0]);
    assert("spear"@.len() != "bundle"@.len());
}

} // verus!
