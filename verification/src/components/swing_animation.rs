//! The `minecraft:swing_animation` item component.

use vstd::prelude::*;
use crate::nbt::{NbtTag, codec_i32, compound_get, compound_lookup, entry, spec_codec_i32};
use crate::wire::{
    WireError, read_agrees, read_varint, spec_read_varint, varint_bytes, write_varint,
    lemma_small_varint, lemma_varint_round_trip, str_equals,
};

verus! {

/// Visual animation used when an item is swung.
#[derive(Debug, Clone, Copy, PartialEq, Eq, Structural)]
pub enum SwingAnimationType {
    NoSwing,
    Whack,
    Stab,
}

impl Default for SwingAnimationType {
    fn default() -> (res: Self)
        ensures
            res == SwingAnimationType::Whack,
    {
        SwingAnimationType::Whack
    }
}

impl SwingAnimationType {
    /// The persistent name.
    pub open spec fn spec_serialized_name(self) -> Seq<char> {
        match self {
            SwingAnimationType::NoSwing => "none"@,
            SwingAnimationType::Whack => "whack"@,
            SwingAnimationType::Stab => "stab"@,
        }
    }

    /// The network id.
    pub open spec fn spec_network_id(self) -> i32 {
        match self {
            SwingAnimationType::NoSwing => 0,
            SwingAnimationType::Whack => 1,
            SwingAnimationType::Stab => 2,
        }
    }

    /// The animation of a network id; unknown ids swing nothing.
    pub open spec fn spec_from_network_id(id: i32) -> SwingAnimationType {
        if id == 1 {
            SwingAnimationType::Whack
        } else if id == 2 {
            SwingAnimationType::Stab
        } else {
            SwingAnimationType::NoSwing
        }
    }

    /// The animation of a persistent name, if it is one.
    pub open spec fn spec_from_serialized_name(name: Seq<char>) -> Option<SwingAnimationType> {
        if name == "none"@ {
            Some(SwingAnimationType::NoSwing)
        } else if name == "whack"@ {
            Some(SwingAnimationType::Whack)
        } else if name == "stab"@ {
            Some(SwingAnimationType::Stab)
        } else {
            None
        }
    }

    /// Returns the persistent name.
    pub fn serialized_name(self) -> (res: &'static str)
        ensures
            res@ == self.spec_serialized_name(),
    {
        match self {
            SwingAnimationType::NoSwing => "none",
            SwingAnimationType::Whack => "whack",
            SwingAnimationType::Stab => "stab",
        }
    }

    fn network_id(self) -> (res: i32)
        ensures
            res == self.spec_network_id(),
            self == SwingAnimationType::NoSwing ==> res == 0,
            self == SwingAnimationType::Whack ==> res == 1,
            self == SwingAnimationType::Stab ==> res == 2,
    {
        match self {
            SwingAnimationType::NoSwing => 0,
            SwingAnimationType::Whack => 1,
            SwingAnimationType::Stab => 2,
        }
    }

    fn from_network_id(id: i32) -> (res: SwingAnimationType)
        ensures
            res == SwingAnimationType::spec_from_network_id(id),
            id == 1 ==> res == SwingAnimationType::Whack,
            id == 2 ==> res == SwingAnimationType::Stab,
            id != 1 && id != 2 ==> res == SwingAnimationType::NoSwing,
    {
        match id {
            1 => SwingAnimationType::Whack,
            2 => SwingAnimationType::Stab,
            _ => SwingAnimationType::NoSwing,
        }
    }

    fn from_serialized_name(name: &str) -> (res: Option<SwingAnimationType>)
        ensures
            res == SwingAnimationType::spec_from_serialized_name(name@),
    {
        if str_equals(name, "none") {
            Some(SwingAnimationType::NoSwing)
        } else if str_equals(name, "whack") {
            Some(SwingAnimationType::Whack)
        } else if str_equals(name, "stab") {
            Some(SwingAnimationType::Stab)
        } else {
            None
        }
    }

    /// Appends the id as a `VarInt`.
    pub fn write(&self, buf: &mut Vec<u8>)
        ensures
            final(buf)@ == old(buf)@ + varint_bytes(self.spec_network_id()),
            *self == SwingAnimationType::NoSwing ==> final(buf)@ == old(buf)@ + seq![0u8],
            *self == SwingAnimationType::Whack ==> final(buf)@ == old(buf)@ + seq![1u8],
            *self == SwingAnimationType::Stab ==> final(buf)@ == old(buf)@ + seq![2u8],
    {
        proof {
            lemma_swing_type_vanilla_ids(*self, *self);
        }
        write_varint(buf, self.network_id());
    }

    /// The network reading at `pos`: unknown ids swing nothing.
    pub open spec fn spec_read(s: Seq<u8>, pos: int) -> Result<(SwingAnimationType, int), WireError> {
        match spec_read_varint(s, pos) {
            Ok((id, end)) => Ok((SwingAnimationType::spec_from_network_id(id), end)),
            Err(e) => Err(e),
        }
    }

    /// Reads an animation type at `pos`.
    pub fn read(data: &[u8], pos: usize) -> (res: Result<(SwingAnimationType, usize), WireError>)
        ensures
            read_agrees(res, SwingAnimationType::spec_read(data@, pos as int)),
            pos < data@.len() && data@[pos as int] == 0 ==> res == Ok::<(SwingAnimationType, usize), WireError>((SwingAnimationType::NoSwing, (pos + 1) as usize)),
            pos < data@.len() && data@[pos as int] == 1 ==> res == Ok::<(SwingAnimationType, usize), WireError>((SwingAnimationType::Whack, (pos + 1) as usize)),
            pos < data@.len() && data@[pos as int] == 2 ==> res == Ok::<(SwingAnimationType, usize), WireError>((SwingAnimationType::Stab, (pos + 1) as usize)),
    {
        proof {
            if pos < data@.len() && data@[pos as int] < 3 {
                let b = data@[pos as int];
                let v: i32 = b as i32;
                lemma_small_varint(v);
                assert(data@ =~= data@.take(pos as int) + varint_bytes(v) + data@.skip(pos + 1));
                lemma_varint_round_trip(data@.take(pos as int), v, data@.skip(pos + 1));
                lemma_swing_type_vanilla_ids(SwingAnimationType::NoSwing, SwingAnimationType::NoSwing);
            }
        }
        let (id, end) = read_varint(data, pos)?;
        Ok((SwingAnimationType::from_network_id(id), end))
    }
}

/// Swing animation type and duration in ticks.
#[derive(Debug, Clone, Copy, PartialEq, Eq, Structural)]
pub struct SwingAnimation {
    pub animation_type: SwingAnimationType,
    pub duration: i32,
}

/// The default duration of a swing, in ticks.
pub const DEFAULT_SWING_DURATION: i32 = 6;

impl Default for SwingAnimation {
    fn default() -> (res: Self)
        ensures
            res == SwingAnimation::spec_default(),
    {
        SwingAnimation::new(SwingAnimationType::Whack, DEFAULT_SWING_DURATION)
    }
}

impl SwingAnimation {
    /// A six-tick whack.
    pub open spec fn spec_default() -> SwingAnimation {
        SwingAnimation { animation_type: SwingAnimationType::Whack, duration: DEFAULT_SWING_DURATION }
    }

    /// Creates a swing animation.
    pub fn new(animation_type: SwingAnimationType, duration: i32) -> (res: Self)
        ensures
            res.animation_type == animation_type,
            res.duration == duration,
    {
        SwingAnimation { animation_type, duration }
    }

    /// The network bytes: the type id, then the duration, both `VarInt`s.
    pub open spec fn spec_bytes(self) -> Seq<u8> {
        varint_bytes(self.animation_type.spec_network_id()) + varint_bytes(self.duration)
    }

    /// Appends the network form.
    pub fn write(&self, buf: &mut Vec<u8>)
        ensures
            final(buf)@ == old(buf)@ + self.spec_bytes(),
            self.animation_type == SwingAnimationType::NoSwing ==> final(buf)@ == old(buf)@ + seq![0u8] + varint_bytes(self.duration),
            self.animation_type == SwingAnimationType::Whack ==> final(buf)@ == old(buf)@ + seq![1u8] + varint_bytes(self.duration),
            self.animation_type == SwingAnimationType::Stab ==> final(buf)@ == old(buf)@ + seq![2u8] + varint_bytes(self.duration),
    {
        proof {
            lemma_swing_type_vanilla_ids(self.animation_type, self.animation_type);
        }
        self.animation_type.write(buf);
        write_varint(buf, self.duration);
        assert(buf@ =~= old(buf)@ + self.spec_bytes());
    }

    /// The network reading at `pos`.
    pub open spec fn spec_read(s: Seq<u8>, pos: int) -> Result<(SwingAnimation, int), WireError> {
        match SwingAnimationType::spec_read(s, pos) {
            Err(e) => Err(e),
            Ok((t, p1)) => match spec_read_varint(s, p1) {
                Err(e) => Err(e),
                Ok((d, p2)) => Ok((SwingAnimation { animation_type: t, duration: d }, p2)),
            },
        }
    }

    /// Reads a swing animation at `pos`.
    pub fn read(data: &[u8], pos: usize) -> (res: Result<(SwingAnimation, usize), WireError>)
        ensures
            read_agrees(res, SwingAnimation::spec_read(data@, pos as int)),
    {
        let (t, p1) = SwingAnimationType::read(data, pos)?;
        let (d, p2) = read_varint(data, p1)?;
        Ok((SwingAnimation::new(t, d), p2))
    }

    /// Whether `tag` is the persistent form of this animation: a compound
    /// holding the type name unless it is the default whack, then the
    /// duration unless it is the default six ticks.
    pub open spec fn spec_nbt(self, tag: NbtTag) -> bool {
        let has_type = self.animation_type != SwingAnimationType::Whack;
        let has_duration = self.duration != DEFAULT_SWING_DURATION;
        let d = if has_type {
            1int
        } else {
            0int
        };
        &&& tag matches NbtTag::Compound(es)
        &&& es@.len() == d + if has_duration {
            1int
        } else {
            0int
        }
        &&& has_type ==> (es@[0].0@ == "type"@ && (es@[0].1 matches NbtTag::String(s)
            && s@ == self.animation_type.spec_serialized_name()))
        &&& has_duration ==> es@[d].0@ == "duration"@ && es@[d].1 == NbtTag::Int(self.duration)
    }

    /// Returns the persistent form.
    pub fn to_nbt_tag(self) -> (res: NbtTag)
        ensures
            self.spec_nbt(res),
    {
        let mut es: Vec<(String, NbtTag)> = Vec::new();
        if self.animation_type != SwingAnimationType::Whack {
            es.push(entry("type", NbtTag::String(self.animation_type.serialized_name().to_owned())));
        }
        if self.duration != DEFAULT_SWING_DURATION {
            es.push(entry("duration", NbtTag::Int(self.duration)));
        }
        NbtTag::Compound(es)
    }

    /// Reads the persistent form: a compound whose absent fields take their
    /// defaults; the duration must be positive.
    pub open spec fn spec_from_nbt(tag: NbtTag) -> Option<SwingAnimation> {
        match tag {
            NbtTag::Compound(es) => {
                let t = match compound_lookup(es@, "type"@) {
                    None => Some(SwingAnimationType::Whack),
                    Some(NbtTag::String(s)) => SwingAnimationType::spec_from_serialized_name(s@),
                    Some(_) => None,
                };
                let d = match compound_lookup(es@, "duration"@) {
                    None => Some(DEFAULT_SWING_DURATION),
                    Some(v) => spec_codec_i32(v),
                };
                match (t, d) {
                    (Some(t), Some(d)) => if d > 0 {
                        Some(SwingAnimation { animation_type: t, duration: d })
                    } else {
                        None
                    },
                    _ => None,
                }
            },
            _ => None,
        }
    }

    /// Reads the persistent form.
    pub fn from_nbt_tag(tag: &NbtTag) -> (res: Option<SwingAnimation>)
        ensures
            res == SwingAnimation::spec_from_nbt(*tag),
    {
        let es = match tag {
            NbtTag::Compound(es) => es,
            _ => {
                return None;
            },
        };
        let t = match compound_get(es, "type") {
            None => SwingAnimationType::Whack,
            Some(NbtTag::String(s)) => match SwingAnimationType::from_serialized_name(s.as_str()) {
                Some(t) => t,
                None => {
                    return None;
                },
            },
            Some(_) => {
                return None;
            },
        };
        let d = match compound_get(es, "duration") {
            None => DEFAULT_SWING_DURATION,
            Some(v) => match codec_i32(v) {
                Some(d) => d,
                None => {
                    return None;
                },
            },
        };
        if d > 0 {
            Some(SwingAnimation::new(t, d))
        } else {
            None
        }
    }
}

/// Law: the persistent name of an animation type names that type.
pub proof fn lemma_swing_type_name_round_trip(v: SwingAnimationType)
    ensures
        SwingAnimationType::spec_from_serialized_name(v.spec_serialized_name()) == Some(v),
{
    reveal_strlit("none");
    reveal_strlit("whack");
    reveal_strlit("stab");
    assert("whack"@.len() != "none"@.len());
    assert("stab"@[0] != "none"@[0]);
    assert("stab"@.len() != "whack"@.len());
}

/// Law: the network form of a swing animation reads back unchanged.
pub proof fn lemma_swing_animation_network_round_trip(pre: Seq<u8>, v: SwingAnimation, rest: Seq<u8>)
    ensures
        SwingAnimation::spec_read(pre + v.spec_bytes() + rest, pre.len() as int)
            == Ok::<(SwingAnimation, int), WireError>(
            (v, (pre.len() + v.spec_bytes().len()) as int),
        ),
{
    let a = varint_bytes(v.animation_type.spec_network_id());
    let b = varint_bytes(v.duration);
    assert(pre + v.spec_bytes() + rest =~= pre + a + (b + rest));
    lemma_varint_round_trip(pre, v.animation_type.spec_network_id(), b + rest);
    assert(pre + v.spec_bytes() + rest =~= (pre + a) + b + rest);
    lemma_varint_round_trip(pre + a, v.duration, rest);
}

/// Law: the persistent form of a swing animation with a positive duration
/// reads back unchanged.
pub proof fn lemma_swing_animation_nbt_round_trip(v: SwingAnimation, tag: NbtTag)
    requires
        v.spec_nbt(tag),
        v.duration > 0,
    ensures
        SwingAnimation::spec_from_nbt(tag) == Some(v),
{
    lemma_swing_type_name_round_trip(v.animation_type);
    reveal_strlit("type");
    reveal_strlit("duration");
    assert("type"@.len() != "duration"@.len());
    if let NbtTag::Compound(es) = tag {
        reveal_with_fuel(compound_lookup, 3);
        if v.animation_type != SwingAnimationType::Whack {
            assert(es@.drop_first().len() + 1 == es@.len());
            if v.duration != DEFAULT_SWING_DURATION {
                assert(es@.drop_first()[0] == es@[1]);
            }
        }
    }
}

/// Law: swing types travel as the vanilla ids none 0, whack 1 and stab 2,
/// each a single `VarInt` byte; every type's id names it again, any other id
/// reads as no swing, and no two types share an id.
pub proof fn lemma_swing_type_vanilla_ids(t: SwingAnimationType, other: SwingAnimationType)
    ensures
        SwingAnimationType::NoSwing.spec_network_id() == 0,
        SwingAnimationType::Whack.spec_network_id() == 1,
        SwingAnimationType::Stab.spec_network_id() == 2,
        SwingAnimationType::spec_from_network_id(0) == SwingAnimationType::NoSwing,
        SwingAnimationType::spec_from_network_id(1) == SwingAnimationType::Whack,
        SwingAnimationType::spec_from_network_id(2) == SwingAnimationType::Stab,
        forall|id: i32| id < 0 || id > 2 ==> #[trigger] SwingAnimationType::spec_from_network_id(id) == SwingAnimationType::NoSwing,
        varint_bytes(0) == seq![0u8],
        varint_bytes(1) == seq![1u8],
        varint_bytes(2) == seq![2u8],
        SwingAnimationType::spec_from_network_id(t.spec_network_id()) == t,
        t != other ==> t.spec_network_id() != other.spec_network_id(),
{
    lemma_small_varint(0);
    lemma_small_varint(1);
    lemma_small_varint(2);
}

} // verus!
