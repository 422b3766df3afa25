//! The `minecraft:enchantable` item component.

use vstd::prelude::*;
use crate::text::{append_i32_decimal, int_decimal};
use crate::nbt::{NbtTag, codec_i32, compound_get, compound_lookup, entry, spec_codec_i32};
use crate::wire::{
    WireError, lemma_varint_round_trip, read_agrees, read_varint, spec_read_varint, varint_bytes,
    write_varint,
};

verus! {

/// The value of a rejected enchantability: it must be positive.
#[derive(Debug, Clone, Copy, PartialEq, Eq, Structural)]
pub struct InvalidEnchantableValue {
    pub value: i32,
}

impl InvalidEnchantableValue {
    /// The error text: `Enchantment value must be positive, but was <value>`.
    pub fn message(&self) -> (res: String)
        ensures
            res@ == "Enchantment value must be positive, but was "@ + int_decimal(self.value as int),
    {
        let mut out = String::from_str("Enchantment value must be positive, but was ");
        append_i32_decimal(&mut out, self.value);
        out
    }
}

/// Positive value that perturbs enchanting-table levels.
#[derive(Debug, Clone, Copy, PartialEq, Eq, Structural)]
pub struct Enchantable {
    value: i32,
}

impl Enchantable {
    /// The enchantability.
    pub closed spec fn spec_value(self) -> i32 {
        self.value
    }

    /// Enchantability is always positive.
    #[verifier::type_invariant]
    spec fn positive(self) -> bool {
        self.value > 0
    }

    /// Creates an enchantability; rejects values that are not positive.
    pub fn new(value: i32) -> (res: Result<Self, InvalidEnchantableValue>)
        ensures
            res is Ok <==> value > 0,
            res matches Ok(e) ==> e.spec_value() == value,
            res matches Err(e) ==> e.value == value,
    {
        if value <= 0 {
            return Err(InvalidEnchantableValue { value });
        }
        Ok(Enchantable { value })
    }

    /// Creates an enchantability from a value already known to be positive.
    pub(crate) fn from_extracted_value(value: i32) -> (res: Self)
        requires
            value > 0,
        ensures
            res.spec_value() == value,
    {
        Enchantable { value }
    }

    /// Returns the enchantability, which is positive.
    pub fn value(self) -> (res: i32)
        ensures
            res == self.spec_value(),
            res > 0,
    {
        proof {
            use_type_invariant(&self);
        }
        self.value
    }

    /// Appends the network form: a `VarInt`.
    pub fn write(&self, buf: &mut Vec<u8>)
        ensures
            final(buf)@ == old(buf)@ + varint_bytes(self.spec_value()),
    {
        write_varint(buf, self.value);
    }

    /// Reads the network form at `pos`: a positive `VarInt`; a value that
    /// is not positive is rejected.
    pub fn read(data: &[u8], pos: usize) -> (res: Result<(Enchantable, usize), WireError>)
        ensures
            match (res, spec_read_varint(data@, pos as int)) {
                (Ok((e, end)), Ok((v, send))) => v > 0 && e.spec_value() == v && end == send,
                (Err(e), Ok((v, _))) => v <= 0 && e == WireError::Invalid,
                (Err(e), Err(se)) => e == se,
                _ => false,
            },
    {
        let (v, end) = read_varint(data, pos)?;
        match Enchantable::new(v) {
            Ok(e) => Ok((e, end)),
            Err(_) => Err(WireError::Invalid),
        }
    }

    /// The persistent form: a compound holding the int `value`.
    pub fn to_nbt_tag(self) -> (res: NbtTag)
        ensures
            res matches NbtTag::Compound(es) && es@.len() == 1 && es@[0].0@ == "value"@
                && es@[0].1 == NbtTag::Int(self.spec_value()),
    {
        let mut es: Vec<(String, NbtTag)> = Vec::new();
        es.push(entry("value", NbtTag::Int(self.value)));
        NbtTag::Compound(es)
    }

    /// The enchantability a persistent form holds, if it is valid.
    pub open spec fn spec_nbt_value(tag: NbtTag) -> Option<i32> {
        match tag {
            NbtTag::Compound(es) => match compound_lookup(es@, "value"@) {
                Some(v) => match spec_codec_i32(v) {
                    Some(n) => if n > 0 {
                        Some(n)
                    } else {
                        None
                    },
                    None => None,
                },
                None => None,
            },
            _ => None,
        }
    }

    /// Reads the persistent form: a compound whose `value` is a positive
    /// number.
    pub fn from_nbt_tag(tag: &NbtTag) -> (res: Option<Enchantable>)
        ensures
            match (res, Enchantable::spec_nbt_value(*tag)) {
                (Some(e), Some(v)) => e.spec_value() == v,
                (None, None) => true,
                _ => false,
            },
    {
        let es = match tag {
            NbtTag::Compound(es) => es,
            _ => {
                return None;
            },
        };
        match compound_get(es, "value") {
            Some(v) => match codec_i32(v) {
                Some(n) => match Enchantable::new(n) {
                    Ok(e) => Some(e),
                    Err(_) => None,
                },
                None => None,
            },
            None => None,
        }
    }
}

/// Law: the network form of an enchantability reads back unchanged.
pub proof fn lemma_enchantable_round_trip(pre: Seq<u8>, e: Enchantable, rest: Seq<u8>)
    requires
        e.spec_value() > 0,
    ensures
        spec_read_varint(pre + varint_bytes(e.spec_value()) + rest, pre.len() as int) == Ok::<
            (i32, int),
            WireError,
        >((e.spec_value(), (pre.len() + varint_bytes(e.spec_value()).len()) as int)),
{
    lemma_varint_round_trip(pre, e.spec_value(), rest);
}

} // verus!
