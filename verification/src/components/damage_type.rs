//! The `minecraft:damage_type` item component.

use vstd::prelude::*;
use crate::holder::{RegistryRef, registry_by_id};
use crate::wire::{
    WireError, lemma_varint_round_trip, read_agrees, read_varint, spec_read_varint, varint_bytes,
    write_varint,
};

verus! {

/// The damage type an item deals.
#[derive(Debug, Clone, PartialEq)]
pub struct DamageTypeComponent {
    pub damage_type: RegistryRef,
}

impl DamageTypeComponent {
    /// Deals `damage_type`.
    pub fn new(damage_type: RegistryRef) -> (res: Self)
        ensures
            res.damage_type == damage_type,
    {
        DamageTypeComponent { damage_type }
    }

    /// Writes the damage type's network id; ids past the protocol's range are refused.
    pub fn write(&self, buf: &mut Vec<u8>) -> (res: Result<(), WireError>)
        ensures
            res is Ok <==> self.damage_type.id <= i32::MAX,
            res is Ok ==> final(buf)@ == old(buf)@ + varint_bytes(self.damage_type.id as i32),
            res is Err ==> final(buf)@ == old(buf)@,
    {
        if self.damage_type.id > 0x7fff_ffff {
            return Err(WireError::Invalid);
        }
        write_varint(buf, self.damage_type.id as i32);
        Ok(())
    }

    /// Reads a damage type by network id from the damage type registry `registry`.
    pub open spec fn spec_read(s: Seq<u8>, pos: int, registry: Seq<RegistryRef>) -> Result<(DamageTypeComponent, int), WireError> {
        match spec_read_varint(s, pos) {
            Err(e) => Err(e),
            Ok((id, end)) => if id < 0 {
                Err(WireError::Negative)
            } else if id >= registry.len() {
                Err(WireError::Invalid)
            } else {
                Ok((DamageTypeComponent { damage_type: registry[id as int] }, end))
            },
        }
    }

    /// Reads a damage type by network id from the damage type registry `registry`.
    pub fn read(data: &[u8], pos: usize, registry: &Vec<RegistryRef>) -> (res: Result<(DamageTypeComponent, usize), WireError>)
        ensures
            read_agrees(res, Self::spec_read(data@, pos as int, registry@)),
    {
        let (id, end) = read_varint(data, pos)?;
        if id < 0 {
            return Err(WireError::Negative);
        }
        match registry_by_id(registry, id as usize) {
            Some(damage_type) => Ok((DamageTypeComponent { damage_type }, end)),
            None => Err(WireError::Invalid),
        }
    }
}

/// Reading back what was written gives the same damage type, when the
/// registry lists it at its own network id.
pub proof fn lemma_damage_type_round_trip(pre: Seq<u8>, v: DamageTypeComponent, registry: Seq<RegistryRef>, rest: Seq<u8>)
    requires
        v.damage_type.id < registry.len(),
        v.damage_type.id <= i32::MAX,
        registry[v.damage_type.id as int] == v.damage_type,
    ensures
        DamageTypeComponent::spec_read(pre + varint_bytes(v.damage_type.id as i32) + rest, pre.len() as int, registry)
            == Ok::<(DamageTypeComponent, int), WireError>((v, (pre.len() + varint_bytes(v.damage_type.id as i32).len()) as int)),
{
    lemma_varint_round_trip(pre, v.damage_type.id as i32, rest);
}

} // verus!
