//! The `minecraft:suspicious_stew_effects` item component.

use vstd::prelude::*;
use crate::holder::{RegistryRef, registry_by_id, registry_by_key, spec_by_key};
use crate::identifier::{parse_identifier, spec_parse_identifier};
use crate::nbt::{NbtTag, codec_i32, compound_get, compound_lookup, entry, spec_codec_i32};
use crate::wire::{
    WireError, concat_map, lemma_concat_map_push, lemma_prepend_items_assoc,
    lemma_read_seq_round_trip, lemma_varint_round_trip, prepend_items, read_agrees, read_varint,
    spec_read_seq, spec_read_varint, varint_bytes, write_varint,
};

verus! {

/// One effect granted by eating a suspicious stew.
#[derive(Debug, Clone, PartialEq)]
pub struct SuspiciousStewEffect {
    effect: RegistryRef,
    duration: i32,
}

impl SuspiciousStewEffect {
    /// The duration, in ticks, that the persistent form leaves out.
    pub const DEFAULT_DURATION: i32 = 160;

    /// The mob effect granted.
    pub closed spec fn spec_effect(self) -> RegistryRef {
        self.effect
    }

    /// The duration in ticks.
    pub closed spec fn spec_duration(self) -> i32 {
        self.duration
    }

    /// The effect `effect` for `duration` ticks.
    pub closed spec fn spec_new(effect: RegistryRef, duration: i32) -> SuspiciousStewEffect {
        SuspiciousStewEffect { effect, duration }
    }

    /// Grants `effect` for `duration` ticks.
    pub fn new(effect: RegistryRef, duration: i32) -> (res: Self)
        ensures
            res == Self::spec_new(effect, duration),
            res.spec_effect() == effect,
            res.spec_duration() == duration,
    {
        SuspiciousStewEffect { effect, duration }
    }

    /// The mob effect granted.
    pub fn effect(&self) -> (res: RegistryRef)
        ensures
            res == self.spec_effect(),
    {
        self.effect.duplicate()
    }

    /// The duration in ticks.
    pub fn duration(&self) -> (res: i32)
        ensures
            res == self.spec_duration(),
    {
        self.duration
    }

    /// Whether the effect's network id fits the protocol's range.
    pub open spec fn encodable(self) -> bool {
        self.spec_effect().id <= i32::MAX
    }

    /// The network form: the effect's id, then the duration, as `VarInt`s.
    pub open spec fn spec_bytes(self) -> Seq<u8> {
        varint_bytes(self.spec_effect().id as i32) + varint_bytes(self.spec_duration())
    }

    /// Writes the network form; an effect id past the protocol's range is refused.
    pub fn write(&self, buf: &mut Vec<u8>) -> (res: Result<(), WireError>)
        ensures
            res is Ok <==> self.encodable(),
            res is Ok ==> final(buf)@ == old(buf)@ + self.spec_bytes(),
            res is Err ==> final(buf)@ == old(buf)@,
    {
        if self.effect.id > 0x7fff_ffff {
            return Err(WireError::Invalid);
        }
        write_varint(buf, self.effect.id as i32);
        write_varint(buf, self.duration);
        assert(final(buf)@ =~= old(buf)@ + self.spec_bytes());
        Ok(())
    }

    /// Reads the network form, resolving the effect id in the mob effect registry `registry`.
    pub open spec fn spec_read(s: Seq<u8>, pos: int, registry: Seq<RegistryRef>) -> Result<(SuspiciousStewEffect, int), WireError> {
        match spec_read_varint(s, pos) {
            Err(e) => Err(e),
            Ok((id, next)) => if id < 0 {
                Err(WireError::Negative)
            } else if id >= registry.len() {
                Err(WireError::Invalid)
            } else {
                match spec_read_varint(s, next) {
                    Err(e) => Err(e),
                    Ok((duration, end)) => Ok((Self::spec_new(registry[id as int], duration), end)),
                }
            },
        }
    }

    /// Reads the network form, resolving the effect id in the mob effect registry `registry`.
    pub fn read(data: &[u8], pos: usize, registry: &Vec<RegistryRef>) -> (res: Result<(SuspiciousStewEffect, usize), WireError>)
        ensures
            read_agrees(res, Self::spec_read(data@, pos as int, registry@)),
    {
        let (id, next) = read_varint(data, pos)?;
        if id < 0 {
            return Err(WireError::Negative);
        }
        let effect = match registry_by_id(registry, id as usize) {
            Some(effect) => effect,
            None => return Err(WireError::Invalid),
        };
        let (duration, end) = read_varint(data, next)?;
        Ok((SuspiciousStewEffect { effect, duration }, end))
    }

    /// The duration a persistent compound gives: its `duration` entry read
    /// as an integer, or the default where that is missing or not a number.
    pub open spec fn spec_nbt_duration(entries: Seq<(String, NbtTag)>) -> i32 {
        match compound_lookup(entries, "duration"@) {
            Some(t) => match spec_codec_i32(t) {
                Some(d) => d,
                None => Self::DEFAULT_DURATION,
            },
            None => Self::DEFAULT_DURATION,
        }
    }

    /// Whether `entries` is the persistent compound of this effect: the
    /// effect's key under `id`, then the duration under `duration` unless it
    /// is the default.
    pub open spec fn is_nbt_entries(self, entries: Seq<(String, NbtTag)>) -> bool {
        &&& entries.len() == (if self.spec_duration() == Self::DEFAULT_DURATION { 1int } else { 2int })
        &&& entries[0].0@ == "id"@
        &&& entries[0].1 matches NbtTag::String(k) && k@ == self.spec_effect().key@
        &&& self.spec_duration() != Self::DEFAULT_DURATION ==> entries[1].0@ == "duration"@
            && entries[1].1 == NbtTag::Int(self.spec_duration())
    }

    /// The persistent compound entries of this effect.
    pub fn to_nbt_entries(&self) -> (res: Vec<(String, NbtTag)>)
        ensures
            self.is_nbt_entries(res@),
    {
        let mut entries = Vec::new();
        entries.push(entry("id", NbtTag::String(self.effect.key.clone())));
        if self.duration != Self::DEFAULT_DURATION {
            entries.push(entry("duration", NbtTag::Int(self.duration)));
        }
        entries
    }

    /// Reads a persistent compound, resolving the key under `id` in the mob
    /// effect registry `registry`.
    pub open spec fn spec_from_nbt_entries(entries: Seq<(String, NbtTag)>, registry: Seq<RegistryRef>) -> Option<SuspiciousStewEffect> {
        match compound_lookup(entries, "id"@) {
            Some(NbtTag::String(text)) => match spec_parse_identifier(text@) {
                Some(key) => match spec_by_key(registry, key) {
                    Some(effect) => Some(Self::spec_new(effect, Self::spec_nbt_duration(entries))),
                    None => None,
                },
                None => None,
            },
            _ => None,
        }
    }

    /// Reads a persistent compound, resolving the key under `id` in the mob
    /// effect registry `registry`.
    pub fn from_nbt_entries(entries: &Vec<(String, NbtTag)>, registry: &Vec<RegistryRef>) -> (res: Option<SuspiciousStewEffect>)
        ensures
            res == Self::spec_from_nbt_entries(entries@, registry@),
    {
        let text = match compound_get(entries, "id") {
            Some(NbtTag::String(text)) => text,
            _ => return None,
        };
        let key = parse_identifier(text.as_str())?;
        let effect = registry_by_key(registry, key.as_str())?;
        let duration = match compound_get(entries, "duration") {
            Some(tag) => match codec_i32(tag) {
                Some(d) => d,
                None => Self::DEFAULT_DURATION,
            },
            None => Self::DEFAULT_DURATION,
        };
        Some(SuspiciousStewEffect { effect, duration })
    }
}

/// Reading back the network form gives the same effect, when the registry
/// lists the effect at its own network id.
pub proof fn lemma_stew_effect_round_trip(pre: Seq<u8>, v: SuspiciousStewEffect, registry: Seq<RegistryRef>, rest: Seq<u8>)
    requires
        v.encodable(),
        v.spec_effect().id < registry.len(),
        registry[v.spec_effect().id as int] == v.spec_effect(),
    ensures
        SuspiciousStewEffect::spec_read(pre + v.spec_bytes() + rest, pre.len() as int, registry)
            == Ok::<(SuspiciousStewEffect, int), WireError>((v, (pre.len() + v.spec_bytes().len()) as int)),
{
    let id_bytes = varint_bytes(v.spec_effect().id as i32);
    let d_bytes = varint_bytes(v.spec_duration());
    lemma_varint_round_trip(pre, v.spec_effect().id as i32, d_bytes + rest);
    assert(pre + v.spec_bytes() + rest =~= pre + id_bytes + (d_bytes + rest));
    lemma_varint_round_trip(pre + id_bytes, v.spec_duration(), rest);
    assert(pre + id_bytes + d_bytes + rest =~= pre + v.spec_bytes() + rest);
    assert(SuspiciousStewEffect::spec_new(v.spec_effect(), v.spec_duration()) == v);
}

/// Reading back the persistent compound gives the same effect, when the
/// effect's key is a full identifier and the registry finds the effect by it.
pub proof fn lemma_stew_effect_nbt_round_trip(v: SuspiciousStewEffect, entries: Seq<(String, NbtTag)>, registry: Seq<RegistryRef>)
    requires
        v.is_nbt_entries(entries),
        spec_parse_identifier(v.spec_effect().key@) == Some(v.spec_effect().key@),
        spec_by_key(registry, v.spec_effect().key@) == Some(v.spec_effect()),
    ensures
        SuspiciousStewEffect::spec_from_nbt_entries(entries, registry) == Some(v),
{
    reveal_strlit("id");
    reveal_strlit("duration");
    assert(entries.drop_first().len() + 1 == entries.len());
    if v.spec_duration() != SuspiciousStewEffect::DEFAULT_DURATION {
        assert(entries.drop_first()[0] == entries[1]);
        assert("duration"@.len() == 8 && "id"@.len() == 2);
        assert(entries[1].0@ != "id"@);
        assert(compound_lookup(entries, "duration"@) == compound_lookup(entries.drop_first(), "duration"@));
    } else {
        assert(entries.drop_first().len() == 0);
        assert(compound_lookup(entries.drop_first(), "duration"@) is None);
    }
    assert(SuspiciousStewEffect::spec_new(v.spec_effect(), v.spec_duration()) == v);
}

/// The effects of a suspicious stew, in order.
#[derive(Debug, Clone, PartialEq)]
pub struct SuspiciousStewEffects {
    effects: Vec<SuspiciousStewEffect>,
}

/// The network form of one effect, as a function for list encodings.
pub open spec fn stew_effect_bytes() -> spec_fn(SuspiciousStewEffect) -> Seq<u8> {
    |e: SuspiciousStewEffect| e.spec_bytes()
}

/// The network reader of one effect over `registry`, as a function for list decodings.
pub open spec fn stew_effect_reader(registry: Seq<RegistryRef>) -> spec_fn(Seq<u8>, int) -> Result<(SuspiciousStewEffect, int), WireError> {
    |s: Seq<u8>, pos: int| SuspiciousStewEffect::spec_read(s, pos, registry)
}

impl Default for SuspiciousStewEffects {
    fn default() -> (res: Self)
        ensures
            res.spec_effects() == Seq::<SuspiciousStewEffect>::empty(),
    {
        SuspiciousStewEffects::empty()
    }
}

impl SuspiciousStewEffects {
    /// The effects, in order.
    pub closed spec fn spec_effects(self) -> Seq<SuspiciousStewEffect> {
        self.effects@
    }

    /// No effects.
    pub fn empty() -> (res: Self)
        ensures
            res.spec_effects() == Seq::<SuspiciousStewEffect>::empty(),
    {
        SuspiciousStewEffects { effects: Vec::new() }
    }

    /// The given effects, in order.
    pub fn new(effects: Vec<SuspiciousStewEffect>) -> (res: Self)
        ensures
            res.spec_effects() == effects@,
    {
        SuspiciousStewEffects { effects }
    }

    /// The effects, in order.
    pub fn effects(&self) -> (res: &[SuspiciousStewEffect])
        ensures
            res@ == self.spec_effects(),
    {
        self.effects.as_slice()
    }

    /// Whether every effect's network id fits the protocol's range.
    pub open spec fn encodable(self) -> bool {
        &&& self.spec_effects().len() <= i32::MAX
        &&& forall|i: int| 0 <= i < self.spec_effects().len() ==> #[trigger] self.spec_effects()[i].encodable()
    }

    /// The network form: the count as a `VarInt`, then each effect.
    pub open spec fn spec_bytes(self) -> Seq<u8> {
        varint_bytes(self.spec_effects().len() as i32) + concat_map(self.spec_effects(), stew_effect_bytes())
    }

    /// Writes the network form; fails where an effect cannot be written.
    pub fn write(&self, buf: &mut Vec<u8>) -> (res: Result<(), WireError>)
        ensures
            res is Ok <==> self.encodable(),
            res is Ok ==> final(buf)@ == old(buf)@ + self.spec_bytes(),
    {
        if self.effects.len() > 0x7fff_ffff {
            return Err(WireError::TooMany);
        }
        write_varint(buf, self.effects.len() as i32);
        let ghost start = buf@;
        let mut i: usize = 0;
        assert(self.effects@.take(0) =~= Seq::<SuspiciousStewEffect>::empty());
        while i < self.effects.len()
            invariant
                i <= self.effects@.len(),
                start == old(buf)@ + varint_bytes(self.effects@.len() as i32),
                buf@ == start + concat_map(self.effects@.take(i as int), stew_effect_bytes()),
                forall|j: int| 0 <= j < i ==> #[trigger] self.effects@[j].encodable(),
            decreases self.effects.len() - i,
        {
            match self.effects[i].write(buf) {
                Ok(()) => {},
                Err(e) => {
                    assert(!self.spec_effects()[i as int].encodable());
                    return Err(e);
                },
            }
            proof {
                lemma_concat_map_push(self.effects@.take(i as int), self.effects@[i as int], stew_effect_bytes());
                assert(self.effects@.take(i as int).push(self.effects@[i as int]) =~= self.effects@.take(i + 1));
            }
            i = i + 1;
        }
        assert(self.effects@.take(i as int) =~= self.effects@);
        Ok(())
    }

    /// Reads the network form over the mob effect registry `registry`.
    pub open spec fn spec_read(s: Seq<u8>, pos: int, registry: Seq<RegistryRef>) -> Result<(Seq<SuspiciousStewEffect>, int), WireError> {
        match spec_read_varint(s, pos) {
            Err(e) => Err(e),
            Ok((count, next)) => if count < 0 {
                Err(WireError::Negative)
            } else {
                spec_read_seq(s, next, count as nat, stew_effect_reader(registry))
            },
        }
    }

    /// Reads the network form over the mob effect registry `registry`.
    #[verifier::rlimit(40)]
    pub fn read(data: &[u8], pos: usize, registry: &Vec<RegistryRef>) -> (res: Result<(SuspiciousStewEffects, usize), WireError>)
        ensures
            match (res, Self::spec_read(data@, pos as int, registry@)) {
                (Ok((v, end)), Ok((sv, send))) => v.spec_effects() == sv && end == send,
                (Err(e), Err(se)) => e == se,
                _ => false,
            },
    {
        let (count, next) = read_varint(data, pos)?;
        if count < 0 {
            return Err(WireError::Negative);
        }
        let ghost reader = stew_effect_reader(registry@);
        assert(Self::spec_read(data@, pos as int, registry@) == spec_read_seq(data@, next as int, count as nat, reader));
        let mut effects: Vec<SuspiciousStewEffect> = Vec::new();
        let mut cur = next;
        let mut i: i32 = 0;
        while i < count
            invariant
                0 <= i <= count,
                reader == stew_effect_reader(registry@),
                Self::spec_read(data@, pos as int, registry@) == spec_read_seq(data@, next as int, count as nat, reader),
                spec_read_seq(data@, next as int, count as nat, reader)
                    == prepend_items(effects@, spec_read_seq(data@, cur as int, (count - i) as nat, reader)),
            decreases count - i,
        {
            let (effect, end) = match SuspiciousStewEffect::read(data, cur, registry) {
                Ok(r) => r,
                Err(e) => {
                    assert(reader(data@, cur as int) == Err::<(SuspiciousStewEffect, int), WireError>(e));
                    assert(spec_read_seq(data@, cur as int, (count - i) as nat, reader) == Err::<(Seq<SuspiciousStewEffect>, int), WireError>(e));
                    assert(spec_read_seq(data@, next as int, count as nat, reader) == Err::<(Seq<SuspiciousStewEffect>, int), WireError>(e));
                    return Err(e);
                },
            };
            proof {
                let tail = spec_read_seq(data@, end as int, (count - i - 1) as nat, reader);
                assert(reader(data@, cur as int) == Ok::<(SuspiciousStewEffect, int), WireError>((effect, end as int)));
                assert(spec_read_seq(data@, cur as int, (count - i) as nat, reader) == prepend_items(seq![effect], tail));
                lemma_prepend_items_assoc(effects@, seq![effect], tail);
            }
            let ghost before = effects@;
            effects.push(effect);
            assert(effects@ =~= before + seq![effect]);
            cur = end;
            i = i + 1;
        }
        assert(spec_read_seq(data@, cur as int, 0, reader) == Ok::<(Seq<SuspiciousStewEffect>, int), WireError>((Seq::empty(), cur as int)));
        assert(effects@ + Seq::<SuspiciousStewEffect>::empty() =~= effects@);
        Ok((SuspiciousStewEffects { effects }, cur))
    }
}

impl SuspiciousStewEffects {
    /// `tag` is the persistent form: a list holding each effect's compound,
    /// in order.
    pub open spec fn is_nbt_form(self, tag: NbtTag) -> bool {
        tag matches NbtTag::List(items) && effect_list_form(items@, self.spec_effects())
    }

    /// The persistent form.
    pub fn to_nbt_tag(&self) -> (res: NbtTag)
        ensures
            self.is_nbt_form(res),
    {
        let mut items: Vec<NbtTag> = Vec::new();
        let mut i: usize = 0;
        while i < self.effects.len()
            invariant
                i <= self.effects@.len(),
                items@.len() == i,
                forall|j: int| 0 <= j < i ==> (#[trigger] items@[j] matches NbtTag::Compound(es)
                    && self.effects@[j].is_nbt_entries(es@)),
            decreases self.effects.len() - i,
        {
            items.push(NbtTag::Compound(self.effects[i].to_nbt_entries()));
            i = i + 1;
        }
        let res = NbtTag::List(items);
        assert(effect_list_form(items@, self.spec_effects()));
        res
    }

    /// The effects a persistent list's items give over the mob effect
    /// registry `registry`; `None` where an item is not a compound or does
    /// not read as an effect.
    pub open spec fn spec_nbt_effects(items: Seq<NbtTag>, registry: Seq<RegistryRef>) -> Option<Seq<SuspiciousStewEffect>>
        decreases items.len(),
    {
        if items.len() == 0 {
            Some(Seq::empty())
        } else {
            match items[0] {
                NbtTag::Compound(es) => match SuspiciousStewEffect::spec_from_nbt_entries(es@, registry) {
                    Some(e) => match Self::spec_nbt_effects(items.drop_first(), registry) {
                        Some(rest) => Some(seq![e] + rest),
                        None => None,
                    },
                    None => None,
                },
                _ => None,
            }
        }
    }

    /// Reads the persistent form over the mob effect registry `registry`: a
    /// list of effect compounds.
    pub open spec fn spec_from_nbt(tag: NbtTag, registry: Seq<RegistryRef>) -> Option<Seq<SuspiciousStewEffect>> {
        match tag {
            NbtTag::List(items) => Self::spec_nbt_effects(items@, registry),
            _ => None,
        }
    }

    /// Reads the persistent form over the mob effect registry `registry`.
    pub fn from_nbt_tag(tag: &NbtTag, registry: &Vec<RegistryRef>) -> (res: Option<SuspiciousStewEffects>)
        ensures
            match (res, Self::spec_from_nbt(*tag, registry@)) {
                (Some(v), Some(effects)) => v.spec_effects() == effects,
                (None, None) => true,
                _ => false,
            },
    {
        let items = match tag {
            NbtTag::List(items) => items,
            _ => return None,
        };
        let mut effects: Vec<SuspiciousStewEffect> = Vec::new();
        let mut i: usize = 0;
        assert(items@.skip(0) =~= items@);
        while i < items.len()
            invariant
                *tag == NbtTag::List(*items),
                i <= items@.len(),
                Self::spec_nbt_effects(items@, registry@) == match Self::spec_nbt_effects(items@.skip(i as int), registry@) {
                    Some(rest) => Some(effects@ + rest),
                    None => None::<Seq<SuspiciousStewEffect>>,
                },
            decreases items.len() - i,
        {
            let ghost cur = items@.skip(i as int);
            assert(cur.drop_first() =~= items@.skip(i + 1));
            assert(cur[0] == items@[i as int]);
            let es = match &items[i] {
                NbtTag::Compound(es) => es,
                _ => return None,
            };
            let effect = match SuspiciousStewEffect::from_nbt_entries(es, registry) {
                Some(effect) => effect,
                None => return None,
            };
            proof {
                let tail = Self::spec_nbt_effects(items@.skip(i + 1), registry@);
                match tail {
                    Some(rest) => {
                        assert(effects@ + (seq![effect] + rest) =~= effects@.push(effect) + rest);
                    },
                    None => {},
                }
            }
            effects.push(effect);
            i = i + 1;
        }
        assert(items@.skip(i as int) =~= Seq::<NbtTag>::empty());
        assert(effects@ + Seq::<SuspiciousStewEffect>::empty() =~= effects@);
        Some(SuspiciousStewEffects { effects })
    }
}

/// `items` holds the persistent compound of each of `effects`, in order.
pub open spec fn effect_list_form(items: Seq<NbtTag>, effects: Seq<SuspiciousStewEffect>) -> bool {
    &&& items.len() == effects.len()
    &&& forall|i: int| 0 <= i < items.len() ==> (#[trigger] items[i] matches NbtTag::Compound(es)
        && effects[i].is_nbt_entries(es@))
}

/// Each effect's key is a full identifier under which the registry finds
/// that effect.
pub open spec fn effects_resolvable(effects: Seq<SuspiciousStewEffect>, registry: Seq<RegistryRef>) -> bool {
    forall|i: int| 0 <= i < effects.len() ==> spec_parse_identifier(#[trigger] effects[i].spec_effect().key@) == Some(effects[i].spec_effect().key@)
        && spec_by_key(registry, effects[i].spec_effect().key@) == Some(effects[i].spec_effect())
}

/// The items of a persistent list read back as the effects they hold.
pub proof fn lemma_nbt_effects_round_trip(items: Seq<NbtTag>, effects: Seq<SuspiciousStewEffect>, registry: Seq<RegistryRef>)
    requires
        effect_list_form(items, effects),
        effects_resolvable(effects, registry),
    ensures
        SuspiciousStewEffects::spec_nbt_effects(items, registry) == Some(effects),
    decreases items.len(),
{
    if items.len() == 0 {
        assert(effects =~= Seq::<SuspiciousStewEffect>::empty());
    } else {
        let es = items[0]->Compound_0;
        assert(items[0] matches NbtTag::Compound(e2) && effects[0].is_nbt_entries(e2@));
        assert(spec_parse_identifier(effects[0].spec_effect().key@) == Some(effects[0].spec_effect().key@));
        lemma_stew_effect_nbt_round_trip(effects[0], es@, registry);
        let tail = effects.drop_first();
        assert forall|i: int| 0 <= i < items.drop_first().len() implies (#[trigger] items.drop_first()[i] matches NbtTag::Compound(e3)
            && tail[i].is_nbt_entries(e3@)) by {
            assert(items[i + 1] matches NbtTag::Compound(e4) && effects[i + 1].is_nbt_entries(e4@));
        }
        assert forall|i: int| 0 <= i < tail.len() implies spec_parse_identifier(#[trigger] tail[i].spec_effect().key@) == Some(tail[i].spec_effect().key@)
            && spec_by_key(registry, tail[i].spec_effect().key@) == Some(tail[i].spec_effect()) by {
            assert(spec_parse_identifier(effects[i + 1].spec_effect().key@) == Some(effects[i + 1].spec_effect().key@));
        }
        lemma_nbt_effects_round_trip(items.drop_first(), tail, registry);
        assert(seq![effects[0]] + tail =~= effects);
    }
}

/// Law: the persistent form of effects whose keys the registry resolves
/// back to them reads back as the same effects.
pub proof fn lemma_stew_effects_nbt_round_trip(v: SuspiciousStewEffects, tag: NbtTag, registry: Seq<RegistryRef>)
    requires
        v.is_nbt_form(tag),
        effects_resolvable(v.spec_effects(), registry),
    ensures
        SuspiciousStewEffects::spec_from_nbt(tag, registry) == Some(v.spec_effects()),
{
    lemma_nbt_effects_round_trip(tag->List_0@, v.spec_effects(), registry);
}

/// Reading back the network form gives the same effects, when the registry
/// lists each effect at its own network id.
pub proof fn lemma_stew_effects_round_trip(pre: Seq<u8>, v: SuspiciousStewEffects, registry: Seq<RegistryRef>, rest: Seq<u8>)
    requires
        v.encodable(),
        forall|i: int| 0 <= i < v.spec_effects().len() ==> {
            let e = #[trigger] v.spec_effects()[i];
            e.spec_effect().id < registry.len() && registry[e.spec_effect().id as int] == e.spec_effect()
        },
    ensures
        SuspiciousStewEffects::spec_read(pre + v.spec_bytes() + rest, pre.len() as int, registry)
            == Ok::<(Seq<SuspiciousStewEffect>, int), WireError>((v.spec_effects(), (pre.len() + v.spec_bytes().len()) as int)),
{
    let items = v.spec_effects();
    let count_bytes = varint_bytes(items.len() as i32);
    let body = concat_map(items, stew_effect_bytes());
    lemma_varint_round_trip(pre, items.len() as i32, body + rest);
    assert(pre + v.spec_bytes() + rest =~= pre + count_bytes + (body + rest));
    assert forall|i: int, p: Seq<u8>, r: Seq<u8>| 0 <= i < items.len() implies
        #[trigger] stew_effect_reader(registry)(p + stew_effect_bytes()(items[i]) + r, p.len() as int)
            == Ok::<(SuspiciousStewEffect, int), WireError>((items[i], (p.len() + stew_effect_bytes()(items[i]).len()) as int)) by {
        assert(items[i].encodable());
        lemma_stew_effect_round_trip(p, items[i], registry, r);
    }
    lemma_read_seq_round_trip(pre + count_bytes, items, rest, stew_effect_bytes(), stew_effect_reader(registry));
    assert(pre + count_bytes + body + rest =~= pre + v.spec_bytes() + rest);
}

} // verus!
