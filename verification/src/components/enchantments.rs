//! The `minecraft:enchantments` and `minecraft:stored_enchantments` item components.

use vstd::prelude::*;
use crate::holder::{RegistryRef, in_id_order, lemma_by_key_at_id, registry_by_id, registry_by_key, spec_by_key};
use crate::identifier::{parse_identifier, spec_parse_identifier};
use crate::keyed::{KeyedList, apply_keyed, lemma_apply_keyed_front};
use crate::nbt::{NbtTag, entry};
use crate::wire::{WireError, lemma_varint_round_trip, read_varint, spec_read_varint, varint_bytes, write_varint};

verus! {

/// The level of each enchantment on an item, by enchantment key.
#[derive(Debug, Clone, PartialEq)]
pub struct ItemEnchantments {
    pub levels: KeyedList<u32>,
}

impl ItemEnchantments {
    /// The invariant: one level per enchantment.
    pub open spec fn wf(self) -> bool {
        self.levels.wf()
    }

    /// The level of `key`: zero where the item lacks it.
    pub open spec fn spec_level(self, key: Seq<char>) -> u32 {
        if self.levels@.contains_key(key) { self.levels@[key] } else { 0 }
    }

    /// No enchantments.
    pub fn empty() -> (res: Self)
        ensures
            res.wf(),
            res.levels@ == Map::<Seq<char>, u32>::empty(),
    {
        ItemEnchantments { levels: KeyedList::new() }
    }

    /// The level of `enchantment`: zero where the item lacks it.
    pub fn get_level(&self, enchantment: &str) -> (res: u32)
        requires
            self.wf(),
        ensures
            res == self.spec_level(enchantment@),
    {
        match self.levels.get(enchantment) {
            Some(level) => *level,
            None => 0,
        }
    }

    /// Sets the level of `enchantment`; level zero removes it.
    pub fn set(&mut self, enchantment: &str, level: u32)
        requires
            old(self).wf(),
        ensures
            final(self).wf(),
            final(self).levels@ == (if level == 0 {
                old(self).levels@.remove(enchantment@)
            } else {
                old(self).levels@.insert(enchantment@, level)
            }),
    {
        if level == 0 {
            self.levels.remove(enchantment);
        } else {
            self.levels.insert(enchantment, level);
        }
    }

    /// Raises the level of `enchantment` to `level`, capped at 255, where
    /// that is higher: an existing level is never lowered, and level zero
    /// changes nothing.
    pub fn upgrade(&mut self, enchantment: &str, level: u32)
        requires
            old(self).wf(),
        ensures
            final(self).wf(),
            final(self).levels@ == (if level > 0 {
                let existing = old(self).spec_level(enchantment@);
                let capped = if level < 255 { level } else { 255 };
                old(self).levels@.insert(enchantment@, if existing > capped { existing } else { capped })
            } else {
                old(self).levels@
            }),
    {
        if level > 0 {
            let existing = self.get_level(enchantment);
            let capped = if level < 255 { level } else { 255 };
            let raised = if existing > capped { existing } else { capped };
            self.levels.insert(enchantment, raised);
        }
    }

    /// Whether the item has no enchantments.
    pub fn is_empty(&self) -> (res: bool)
        requires
            self.wf(),
        ensures
            res == (self.levels@ == Map::<Seq<char>, u32>::empty()),
    {
        self.levels.is_empty()
    }

    /// The number of enchantments.
    pub fn len(&self) -> (res: usize)
        requires
            self.wf(),
        ensures
            res == self.levels@.dom().len(),
    {
        self.levels.len()
    }

    /// Whether every enchantment is in `registry`.
    pub open spec fn encodable(self, registry: Seq<RegistryRef>) -> bool {
        forall|i: int| 0 <= i < self.levels.spec_items().len() ==> #[trigger] spec_by_key(registry, self.levels.spec_items()[i].0) is Some
    }

    /// The network form of the enchantments in their kept order over the
    /// enchantment registry `registry`: each registry id and level as `VarInt`s.
    pub open spec fn spec_entries_bytes(items: Seq<(Seq<char>, u32)>, registry: Seq<RegistryRef>) -> Seq<u8>
        decreases items.len(),
    {
        if items.len() == 0 {
            Seq::empty()
        } else {
            Self::spec_entries_bytes(items.drop_last(), registry)
                + varint_bytes(spec_by_key(registry, items.last().0)->0.id as i32)
                + varint_bytes(items.last().1 as i32)
        }
    }

    /// The network form over the enchantment registry `registry`: the count,
    /// then each enchantment's registry id and level.
    pub open spec fn spec_bytes(self, registry: Seq<RegistryRef>) -> Seq<u8> {
        varint_bytes(self.levels.spec_items().len() as i32) + Self::spec_entries_bytes(self.levels.spec_items(), registry)
    }

    /// Writes the network form over the enchantment registry `registry`; an
    /// enchantment the registry lacks is refused.
    pub fn write(&self, buf: &mut Vec<u8>, registry: &Vec<RegistryRef>) -> (res: Result<(), WireError>)
        ensures
            res is Ok <==> self.encodable(registry@),
            res is Ok ==> final(buf)@ == old(buf)@ + self.spec_bytes(registry@),
    {
        let entries = self.levels.entries();
        let ghost items = self.levels.spec_items();
        assert(entries@.len() == items.len());
        let count = (#[verifier::truncate] (entries.len() as i32));
        write_varint(buf, count);
        let ghost start = buf@;
        let mut i: usize = 0;
        assert(items.take(0) =~= Seq::<(Seq<char>, u32)>::empty());
        while i < entries.len()
            invariant
                i <= entries@.len() == items.len(),
                items == entries@.map_values(|e: (String, u32)| (e.0@, e.1)),
                items == self.levels.spec_items(),
                buf@ == start + Self::spec_entries_bytes(items.take(i as int), registry@),
                forall|j: int| 0 <= j < i ==> #[trigger] spec_by_key(registry@, items[j].0) is Some,
            decreases entries.len() - i,
        {
            assert(items[i as int] == (entries@[i as int].0@, entries@[i as int].1));
            let enchantment = match registry_by_key(registry, entries[i].0.as_str()) {
                Some(e) => e,
                None => {
                    assert(!(spec_by_key(registry@, items[i as int].0) is Some));
                    return Err(WireError::Invalid);
                },
            };
            let id = (#[verifier::truncate] (enchantment.id as i32));
            let level = (#[verifier::truncate] (entries[i].1 as i32));
            write_varint(buf, id);
            write_varint(buf, level);
            proof {
                assert(items.take(i + 1).drop_last() =~= items.take(i as int));
                assert(items.take(i + 1).last() == items[i as int]);
                assert(buf@ =~= start + Self::spec_entries_bytes(items.take(i + 1), registry@));
            }
            i = i + 1;
        }
        assert(items.take(i as int) =~= items);
        assert(final(buf)@ =~= old(buf)@ + self.spec_bytes(registry@));
        Ok(())
    }

    /// Reads `count` enchantment ids and levels over `registry` into `levels`.
    pub open spec fn spec_read_entries(s: Seq<u8>, pos: int, count: nat, registry: Seq<RegistryRef>, levels: Map<Seq<char>, u32>) -> Result<(Map<Seq<char>, u32>, int), WireError>
        decreases count,
    {
        if count == 0 {
            Ok((levels, pos))
        } else {
            match spec_read_varint(s, pos) {
                Err(e) => Err(e),
                Ok((id, p1)) => match spec_read_varint(s, p1) {
                    Err(e) => Err(e),
                    Ok((level, p2)) => if id < 0 || id >= registry.len() {
                        Err(WireError::Invalid)
                    } else {
                        Self::spec_read_entries(s, p2, (count - 1) as nat, registry,
                            levels.insert(registry[id as int].key@, level as u32))
                    },
                },
            }
        }
    }

    /// Reads the network form over the enchantment registry `registry`: a
    /// count in `0..=256`, then each registry id and level; a later entry for
    /// an enchantment replaces an earlier one.
    pub open spec fn spec_read(s: Seq<u8>, pos: int, registry: Seq<RegistryRef>) -> Result<(Map<Seq<char>, u32>, int), WireError> {
        match spec_read_varint(s, pos) {
            Err(e) => Err(e),
            Ok((count, next)) => if count < 0 || count > 256 {
                Err(WireError::Invalid)
            } else {
                Self::spec_read_entries(s, next, count as nat, registry, Map::empty())
            },
        }
    }

    /// Reads the network form over the enchantment registry `registry`.
    pub fn read(data: &[u8], pos: usize, registry: &Vec<RegistryRef>) -> (res: Result<(ItemEnchantments, usize), WireError>)
        ensures
            match (res, Self::spec_read(data@, pos as int, registry@)) {
                (Ok((v, end)), Ok((levels, send))) => v.wf() && v.levels@ == levels && end == send,
                (Err(e), Err(se)) => e == se,
                _ => false,
            },
    {
        let (count, next) = read_varint(data, pos)?;
        if count < 0 || count > 256 {
            return Err(WireError::Invalid);
        }
        let mut result = ItemEnchantments::empty();
        let mut cur = next;
        let mut i: i32 = 0;
        while i < count
            invariant
                0 <= i <= count <= 256,
                result.wf(),
                Self::spec_read(data@, pos as int, registry@) == Self::spec_read_entries(data@, next as int, count as nat, registry@, Map::empty()),
                Self::spec_read_entries(data@, next as int, count as nat, registry@, Map::empty())
                    == Self::spec_read_entries(data@, cur as int, (count - i) as nat, registry@, result.levels@),
            decreases count - i,
        {
            let (id, p1) = read_varint(data, cur)?;
            let (level, p2) = read_varint(data, p1)?;
            if id < 0 {
                return Err(WireError::Invalid);
            }
            let enchantment = match registry_by_id(registry, id as usize) {
                Some(e) => e,
                None => return Err(WireError::Invalid),
            };
            let level = (#[verifier::truncate] (level as u32));
            result.levels.insert(enchantment.key.as_str(), level);
            cur = p2;
            i = i + 1;
        }
        Ok((result, cur))
    }

    /// The persistent form: each enchantment's key with its level as an int.
    pub fn to_nbt_entries(&self) -> (res: Vec<(String, NbtTag)>)
        ensures
            res@.len() == self.levels.spec_items().len(),
            forall|i: int| 0 <= i < res@.len() ==> #[trigger] res@[i].0@ == self.levels.spec_items()[i].0
                && res@[i].1 == NbtTag::Int(self.levels.spec_items()[i].1 as i32),
    {
        let entries = self.levels.entries();
        let mut out: Vec<(String, NbtTag)> = Vec::new();
        let mut i: usize = 0;
        while i < entries.len()
            invariant
                i <= entries@.len(),
                self.levels.spec_items() == entries@.map_values(|e: (String, u32)| (e.0@, e.1)),
                out@.len() == i,
                forall|j: int| 0 <= j < i ==> #[trigger] out@[j].0@ == self.levels.spec_items()[j].0
                    && out@[j].1 == NbtTag::Int(self.levels.spec_items()[j].1 as i32),
            decreases entries.len() - i,
        {
            let level = (#[verifier::truncate] (entries[i].1 as i32));
            out.push(entry(entries[i].0.as_str(), NbtTag::Int(level)));
            i = i + 1;
        }
        out
    }

    /// The levels a persistent compound's entries give, added to `levels`:
    /// an entry counts where its key is an identifier and its value a
    /// positive int; a later entry for an enchantment replaces an earlier one.
    pub open spec fn spec_from_nbt_entries(entries: Seq<(String, NbtTag)>, levels: Map<Seq<char>, u32>) -> Map<Seq<char>, u32>
        decreases entries.len(),
    {
        if entries.len() == 0 {
            levels
        } else {
            let next = match (spec_parse_identifier(entries[0].0@), entries[0].1) {
                (Some(key), NbtTag::Int(level)) => if level > 0 { levels.insert(key, level as u32) } else { levels },
                _ => levels,
            };
            Self::spec_from_nbt_entries(entries.drop_first(), next)
        }
    }

    /// Reads a persistent compound's entries; entries that are not an
    /// identifier with a positive int are skipped.
    pub fn from_nbt_entries(entries: &Vec<(String, NbtTag)>) -> (res: ItemEnchantments)
        ensures
            res.wf(),
            res.levels@ == Self::spec_from_nbt_entries(entries@, Map::empty()),
    {
        let mut result = ItemEnchantments::empty();
        let mut i: usize = 0;
        assert(entries@.skip(0) =~= entries@);
        while i < entries.len()
            invariant
                i <= entries@.len(),
                result.wf(),
                Self::spec_from_nbt_entries(entries@, Map::empty())
                    == Self::spec_from_nbt_entries(entries@.skip(i as int), result.levels@),
            decreases entries.len() - i,
        {
            assert(entries@.skip(i as int).drop_first() =~= entries@.skip(i + 1));
            assert(entries@.skip(i as int)[0] == entries@[i as int]);
            let key = parse_identifier(entries[i].0.as_str());
            match (key, &entries[i].1) {
                (Some(key), NbtTag::Int(level)) => {
                    if *level > 0 {
                        result.levels.insert(key.as_str(), *level as u32);
                    }
                },
                _ => {},
            }
            i = i + 1;
        }
        result
    }
}

/// The network form of one enchantment: its registry id and level.
pub open spec fn entry_bytes(item: (Seq<char>, u32), registry: Seq<RegistryRef>) -> Seq<u8> {
    varint_bytes(spec_by_key(registry, item.0)->0.id as i32) + varint_bytes(item.1 as i32)
}

/// The entries' network form is the first entry's, then the rest's.
pub proof fn lemma_entries_bytes_front(items: Seq<(Seq<char>, u32)>, registry: Seq<RegistryRef>)
    requires
        items.len() > 0,
    ensures
        ItemEnchantments::spec_entries_bytes(items, registry)
            == entry_bytes(items[0], registry) + ItemEnchantments::spec_entries_bytes(items.drop_first(), registry),
    decreases items.len(),
{
    if items.len() == 1 {
        assert(items.drop_last() =~= Seq::<(Seq<char>, u32)>::empty());
        assert(items.drop_first() =~= Seq::<(Seq<char>, u32)>::empty());
        assert(ItemEnchantments::spec_entries_bytes(items.drop_last(), registry) =~= Seq::<u8>::empty());
        assert(ItemEnchantments::spec_entries_bytes(items.drop_first(), registry) =~= Seq::<u8>::empty());
        assert(ItemEnchantments::spec_entries_bytes(items, registry) =~= entry_bytes(items[0], registry));
        assert(ItemEnchantments::spec_entries_bytes(items, registry)
            =~= entry_bytes(items[0], registry) + ItemEnchantments::spec_entries_bytes(items.drop_first(), registry));
    } else {
        lemma_entries_bytes_front(items.drop_last(), registry);
        assert(items.drop_last().drop_first() =~= items.drop_first().drop_last());
        assert(items.drop_first().last() == items.last());
        assert(ItemEnchantments::spec_entries_bytes(items, registry)
            =~= entry_bytes(items[0], registry) + ItemEnchantments::spec_entries_bytes(items.drop_first(), registry));
    }
}

/// Enchantments written in order over a registry in id order read back,
/// each inserted in turn.
pub proof fn lemma_read_entries_round_trip(
    pre: Seq<u8>,
    items: Seq<(Seq<char>, u32)>,
    rest: Seq<u8>,
    registry: Seq<RegistryRef>,
    acc: Map<Seq<char>, u32>,
)
    requires
        in_id_order(registry),
        forall|i: int| 0 <= i < items.len() ==> #[trigger] spec_by_key(registry, items[i].0) is Some,
    ensures
        ItemEnchantments::spec_read_entries(pre + ItemEnchantments::spec_entries_bytes(items, registry) + rest,
            pre.len() as int, items.len(), registry, acc)
            == Ok::<(Map<Seq<char>, u32>, int), WireError>((apply_keyed(acc, items),
                (pre.len() + ItemEnchantments::spec_entries_bytes(items, registry).len()) as int)),
    decreases items.len(),
{
    let bytes = ItemEnchantments::spec_entries_bytes(items, registry);
    if items.len() == 0 {
        assert(bytes =~= Seq::<u8>::empty());
        assert(pre + bytes + rest =~= pre + rest);
    } else {
        let x = items[0];
        let tail = items.drop_first();
        assert(spec_by_key(registry, items[0].0) is Some);
        lemma_by_key_at_id(registry, x.0);
        let r = spec_by_key(registry, x.0)->0;
        let idb = varint_bytes(r.id as i32);
        let lvb = varint_bytes(x.1 as i32);
        let tb = ItemEnchantments::spec_entries_bytes(tail, registry);
        lemma_entries_bytes_front(items, registry);
        let s = pre + bytes + rest;
        assert(s =~= pre + idb + (lvb + tb + rest));
        lemma_varint_round_trip(pre, r.id as i32, lvb + tb + rest);
        let pre1 = pre + idb;
        assert(s =~= pre1 + lvb + (tb + rest));
        lemma_varint_round_trip(pre1, x.1 as i32, tb + rest);
        let lvl = x.1;
        assert((lvl as i32) as u32 == lvl) by (bit_vector);
        let pre2 = pre1 + lvb;
        assert(s =~= pre2 + tb + rest);
        assert forall|i: int| 0 <= i < tail.len() implies #[trigger] spec_by_key(registry, tail[i].0) is Some by {
            assert(tail[i] == items[i + 1]);
            assert(spec_by_key(registry, items[i + 1].0) is Some);
        }
        lemma_read_entries_round_trip(pre2, tail, rest, registry, acc.insert(x.0, x.1));
        lemma_apply_keyed_front(acc, items);
        assert(((items.len() - 1) as nat) == tail.len());
    }
}

/// Law: the network form of enchantments that are all in a registry listed
/// in id order, at most 256 of them, reads back as the same enchantments.
pub proof fn lemma_network_round_trip(pre: Seq<u8>, e: ItemEnchantments, registry: Seq<RegistryRef>, rest: Seq<u8>)
    requires
        e.wf(),
        e.encodable(registry),
        in_id_order(registry),
        e.levels.spec_items().len() <= 256,
    ensures
        ItemEnchantments::spec_read(pre + e.spec_bytes(registry) + rest, pre.len() as int, registry)
            == Ok::<(Map<Seq<char>, u32>, int), WireError>((e.levels@, (pre.len() + e.spec_bytes(registry).len()) as int)),
{
    let items = e.levels.spec_items();
    let cb = varint_bytes(items.len() as i32);
    let body = ItemEnchantments::spec_entries_bytes(items, registry);
    let s = pre + e.spec_bytes(registry) + rest;
    assert(s =~= pre + cb + (body + rest));
    lemma_varint_round_trip(pre, items.len() as i32, body + rest);
    let pre1 = pre + cb;
    assert(s =~= pre1 + body + rest);
    lemma_read_entries_round_trip(pre1, items, rest, registry, Map::empty());
    e.levels.lemma_view_is_applied();
}

/// Law: after setting a level, the enchantment reads back at that level.
pub proof fn lemma_set_then_get(before: ItemEnchantments, after: ItemEnchantments, key: Seq<char>, level: u32)
    requires
        after.levels@ == (if level == 0 { before.levels@.remove(key) } else { before.levels@.insert(key, level) }),
    ensures
        after.spec_level(key) == level,
        forall|other: Seq<char>| other != key ==> after.spec_level(other) == before.spec_level(other),
{
}

} // verus!
