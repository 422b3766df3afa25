//! Integer item components encoded as `VarInt`s on the network.

use vstd::prelude::*;
use crate::nbt::NbtTag;
use crate::wire::{
    WireError, read_agrees, read_varint, spec_read_varint, varint_bytes, write_varint,
    lemma_varint_round_trip,
};

verus! {

/// Damage taken by an item.
#[derive(Debug, Clone, Copy, PartialEq, Eq, Structural)]
pub struct Damage(pub i32);

impl Default for Damage {
    fn default() -> (res: Self)
        ensures
            res == Damage(0),
    {
        Damage(0)
    }
}

impl Damage {
    /// Appends the value as a `VarInt`.
    pub fn write(&self, buf: &mut Vec<u8>)
        ensures
            final(buf)@ == old(buf)@ + varint_bytes(self.0),
    {
        write_varint(buf, self.0);
    }

    /// The network reading at `pos`: a `VarInt`.
    pub open spec fn spec_read(s: Seq<u8>, pos: int) -> Result<(Damage, int), WireError> {
        match spec_read_varint(s, pos) {
            Ok((v, end)) => Ok((Damage(v), end)),
            Err(e) => Err(e),
        }
    }

    /// Reads the value at `pos`.
    pub fn read(data: &[u8], pos: usize) -> (res: Result<(Damage, usize), WireError>)
        ensures
            read_agrees(res, Damage::spec_read(data@, pos as int)),
    {
        let (v, end) = read_varint(data, pos)?;
        Ok((Damage(v), end))
    }

    /// The persistent form: an int tag.
    pub fn to_nbt_tag(self) -> (res: NbtTag)
        ensures
            res == NbtTag::Int(self.0),
    {
        NbtTag::Int(self.0)
    }

    /// Reads the persistent form: only an int tag is accepted.
    pub fn from_nbt_tag(tag: &NbtTag) -> (res: Option<Damage>)
        ensures
            res == (match tag {
                NbtTag::Int(v) => Some(Damage(*v)),
                _ => None,
            }),
    {
        match tag {
            NbtTag::Int(v) => Some(Damage(*v)),
            _ => None,
        }
    }
}

/// Law: the network form reads back as the same value.
pub proof fn lemma_damage_round_trip(pre: Seq<u8>, v: Damage, rest: Seq<u8>)
    ensures
        Damage::spec_read(pre + varint_bytes(v.0) + rest, pre.len() as int) == Ok::<(Damage, int), WireError>(
            (v, (pre.len() + varint_bytes(v.0).len()) as int),
        ),
{
    lemma_varint_round_trip(pre, v.0, rest);
}

/// Durability of an item.
#[derive(Debug, Clone, Copy, PartialEq, Eq, Structural)]
pub struct MaxDamage(pub i32);

impl Default for MaxDamage {
    fn default() -> (res: Self)
        ensures
            res == MaxDamage(0),
    {
        MaxDamage(0)
    }
}

impl MaxDamage {
    /// Appends the value as a `VarInt`.
    pub fn write(&self, buf: &mut Vec<u8>)
        ensures
            final(buf)@ == old(buf)@ + varint_bytes(self.0),
    {
        write_varint(buf, self.0);
    }

    /// The network reading at `pos`: a `VarInt`.
    pub open spec fn spec_read(s: Seq<u8>, pos: int) -> Result<(MaxDamage, int), WireError> {
        match spec_read_varint(s, pos) {
            Ok((v, end)) => Ok((MaxDamage(v), end)),
            Err(e) => Err(e),
        }
    }

    /// Reads the value at `pos`.
    pub fn read(data: &[u8], pos: usize) -> (res: Result<(MaxDamage, usize), WireError>)
        ensures
            read_agrees(res, MaxDamage::spec_read(data@, pos as int)),
    {
        let (v, end) = read_varint(data, pos)?;
        Ok((MaxDamage(v), end))
    }

    /// The persistent form: an int tag.
    pub fn to_nbt_tag(self) -> (res: NbtTag)
        ensures
            res == NbtTag::Int(self.0),
    {
        NbtTag::Int(self.0)
    }

    /// Reads the persistent form: only an int tag is accepted.
    pub fn from_nbt_tag(tag: &NbtTag) -> (res: Option<MaxDamage>)
        ensures
            res == (match tag {
                NbtTag::Int(v) => Some(MaxDamage(*v)),
                _ => None,
            }),
    {
        match tag {
            NbtTag::Int(v) => Some(MaxDamage(*v)),
            _ => None,
        }
    }
}

/// Law: the network form reads back as the same value.
pub proof fn lemma_max_damage_round_trip(pre: Seq<u8>, v: MaxDamage, rest: Seq<u8>)
    ensures
        MaxDamage::spec_read(pre + varint_bytes(v.0) + rest, pre.len() as int) == Ok::<(MaxDamage, int), WireError>(
            (v, (pre.len() + varint_bytes(v.0).len()) as int),
        ),
{
    lemma_varint_round_trip(pre, v.0, rest);
}

/// Largest stack an item forms.
#[derive(Debug, Clone, Copy, PartialEq, Eq, Structural)]
pub struct MaxStackSize(pub i32);

impl Default for MaxStackSize {
    fn default() -> (res: Self)
        ensures
            res == MaxStackSize(0),
    {
        MaxStackSize(0)
    }
}

impl MaxStackSize {
    /// Appends the value as a `VarInt`.
    pub fn write(&self, buf: &mut Vec<u8>)
        ensures
            final(buf)@ == old(buf)@ + varint_bytes(self.0),
    {
        write_varint(buf, self.0);
    }

    /// The network reading at `pos`: a `VarInt`.
    pub open spec fn spec_read(s: Seq<u8>, pos: int) -> Result<(MaxStackSize, int), WireError> {
        match spec_read_varint(s, pos) {
            Ok((v, end)) => Ok((MaxStackSize(v), end)),
            Err(e) => Err(e),
        }
    }

    /// Reads the value at `pos`.
    pub fn read(data: &[u8], pos: usize) -> (res: Result<(MaxStackSize, usize), WireError>)
        ensures
            read_agrees(res, MaxStackSize::spec_read(data@, pos as int)),
    {
        let (v, end) = read_varint(data, pos)?;
        Ok((MaxStackSize(v), end))
    }

    /// The persistent form: an int tag.
    pub fn to_nbt_tag(self) -> (res: NbtTag)
        ensures
            res == NbtTag::Int(self.0),
    {
        NbtTag::Int(self.0)
    }

    /// Reads the persistent form: only an int tag is accepted.
    pub fn from_nbt_tag(tag: &NbtTag) -> (res: Option<MaxStackSize>)
        ensures
            res == (match tag {
                NbtTag::Int(v) => Some(MaxStackSize(*v)),
                _ => None,
            }),
    {
        match tag {
            NbtTag::Int(v) => Some(MaxStackSize(*v)),
            _ => None,
        }
    }
}

/// Law: the network form reads back as the same value.
pub proof fn lemma_max_stack_size_round_trip(pre: Seq<u8>, v: MaxStackSize, rest: Seq<u8>)
    ensures
        MaxStackSize::spec_read(pre + varint_bytes(v.0) + rest, pre.len() as int) == Ok::<(MaxStackSize, int), WireError>(
            (v, (pre.len() + varint_bytes(v.0).len()) as int),
        ),
{
    lemma_varint_round_trip(pre, v.0, rest);
}

/// Experience cost added when repairing an item.
#[derive(Debug, Clone, Copy, PartialEq, Eq, Structural)]
pub struct RepairCost(pub i32);

impl Default for RepairCost {
    fn default() -> (res: Self)
        ensures
            res == RepairCost(0),
    {
        RepairCost(0)
    }
}

impl RepairCost {
    /// Appends the value as a `VarInt`.
    pub fn write(&self, buf: &mut Vec<u8>)
        ensures
            final(buf)@ == old(buf)@ + varint_bytes(self.0),
    {
        write_varint(buf, self.0);
    }

    /// The network reading at `pos`: a `VarInt`.
    pub open spec fn spec_read(s: Seq<u8>, pos: int) -> Result<(RepairCost, int), WireError> {
        match spec_read_varint(s, pos) {
            Ok((v, end)) => Ok((RepairCost(v), end)),
            Err(e) => Err(e),
        }
    }

    /// Reads the value at `pos`.
    pub fn read(data: &[u8], pos: usize) -> (res: Result<(RepairCost, usize), WireError>)
        ensures
            read_agrees(res, RepairCost::spec_read(data@, pos as int)),
    {
        let (v, end) = read_varint(data, pos)?;
        Ok((RepairCost(v), end))
    }

    /// The persistent form: an int tag.
    pub fn to_nbt_tag(self) -> (res: NbtTag)
        ensures
            res == NbtTag::Int(self.0),
    {
        NbtTag::Int(self.0)
    }

    /// Reads the persistent form: only an int tag is accepted.
    pub fn from_nbt_tag(tag: &NbtTag) -> (res: Option<RepairCost>)
        ensures
            res == (match tag {
                NbtTag::Int(v) => Some(RepairCost(*v)),
                _ => None,
            }),
    {
        match tag {
            NbtTag::Int(v) => Some(RepairCost(*v)),
            _ => None,
        }
    }
}

/// Law: the network form reads back as the same value.
pub proof fn lemma_repair_cost_round_trip(pre: Seq<u8>, v: RepairCost, rest: Seq<u8>)
    ensures
        RepairCost::spec_read(pre + varint_bytes(v.0) + rest, pre.len() as int) == Ok::<(RepairCost, int), WireError>(
            (v, (pre.len() + varint_bytes(v.0).len()) as int),
        ),
{
    lemma_varint_round_trip(pre, v.0, rest);
}

} // verus!
