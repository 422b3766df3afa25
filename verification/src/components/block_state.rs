//! The `minecraft:block_state` item component: block-state properties a
//! block item applies when it is placed.

use vstd::prelude::*;
use crate::keyed::{apply_keyed, lemma_apply_keyed_distinct, lemma_apply_keyed_front};
use crate::nbt::NbtTag;
use crate::sorted::{SortedStringMap, lemma_sorted_distinct, lemma_sorted_unique, seq_less, strictly_sorted};
use crate::wire::{
    WireError, concat_map, lemma_concat_map_push, lemma_network_string_round_trip, lemma_varint_round_trip,
    read_network_string, read_varint, spec_read_network_string, spec_read_varint, string_bytes, string_fits,
    varint_bytes, write_network_string, write_varint,
};

verus! {

/// The longest property name or value on the network, in UTF-16 units.
pub const MAX_PROPERTY_STRING: usize = 32767;

/// String-valued block properties, kept in ascending name order.
#[derive(Debug, PartialEq, Eq)]
pub struct BlockItemStateProperties {
    properties: SortedStringMap<String>,
}

impl Clone for BlockItemStateProperties {
    fn clone(&self) -> (res: Self)
        ensures
            res.spec_items() == self.spec_items(),
    {
        proof {
            use_type_invariant(self);
            self.lemma_wf();
        }
        let entries = self.properties.entries();
        let ghost items = self.spec_items();
        assert(entries@.len() == items.len());
        let mut result = BlockItemStateProperties::empty();
        proof {
            assert(items.take(0) =~= Seq::<(Seq<char>, Seq<char>)>::empty());
            assert(result.spec_map() == apply_keyed(Map::<Seq<char>, Seq<char>>::empty(), items.take(0)));
        }
        let mut i: usize = 0;
        while i < entries.len()
            invariant
                i <= entries@.len() == items.len(),
                items == self.spec_items(),
                self.wf(),
                forall|j: int| 0 <= j < entries@.len() ==> #[trigger] items[j] == (entries@[j].0@, entries@[j].1@),
                result.wf(),
                result.spec_map() == apply_keyed(Map::<Seq<char>, Seq<char>>::empty(), items.take(i as int)),
            decreases entries.len() - i,
        {
            assert(items[i as int] == (entries@[i as int].0@, entries@[i as int].1@));
            result = result.inserted(entries[i].0.clone(), entries[i].1.clone());
            proof {
                assert(items.take(i + 1).drop_last() =~= items.take(i as int));
                assert(items.take(i + 1).last() == items[i as int]);
            }
            i = i + 1;
        }
        proof {
            assert(items.take(i as int) =~= items);
            lemma_sorted_unique(result.spec_items(), items);
        }
        result
    }
}

impl Default for BlockItemStateProperties {
    fn default() -> (res: Self)
        ensures
            res.wf(),
            res.spec_items() == Seq::<(Seq<char>, Seq<char>)>::empty(),
    {
        BlockItemStateProperties::empty()
    }
}

impl BlockItemStateProperties {
    /// The properties as name and value, in ascending name order.
    pub closed spec fn spec_items(self) -> Seq<(Seq<char>, Seq<char>)> {
        self.properties.spec_items().map_values(|e: (Seq<char>, String)| (e.0, e.1@))
    }

    /// The value of each property name.
    pub open spec fn spec_map(self) -> Map<Seq<char>, Seq<char>> {
        apply_keyed(Map::empty(), self.spec_items())
    }

    /// The invariant: names strictly ascend.
    pub open spec fn wf(self) -> bool {
        strictly_sorted(self.spec_items())
    }

    #[verifier::type_invariant]
    spec fn sorted_inv(self) -> bool {
        self.properties.wf()
    }

    proof fn lemma_wf(self)
        ensures
            self.wf() == self.properties.wf(),
    {
        let a = self.properties.spec_items();
        let b = self.spec_items();
        assert forall|i: int| 0 <= i < b.len() implies #[trigger] b[i].0 == a[i].0 by {}
        if self.wf() {
            assert forall|i: int, j: int| 0 <= i < j < a.len() implies seq_less(#[trigger] a[i].0, #[trigger] a[j].0) by {
                assert(seq_less(b[i].0, b[j].0));
            }
        }
        if self.properties.wf() {
            assert forall|i: int, j: int| 0 <= i < j < b.len() implies seq_less(#[trigger] b[i].0, #[trigger] b[j].0) by {
                assert(seq_less(a[i].0, a[j].0));
            }
        }
    }

    /// The map of a well-formed value, by its names and values.
    proof fn lemma_map(self)
        requires
            self.wf(),
        ensures
            forall|k: Seq<char>| self.spec_map().contains_key(k)
                <==> (exists|i: int| 0 <= i < self.spec_items().len() && #[trigger] self.spec_items()[i].0 == k),
            forall|k: Seq<char>| self.spec_map().contains_key(k) <==> self.properties@.contains_key(k),
            forall|k: Seq<char>| #[trigger] self.spec_map().contains_key(k) ==> self.spec_map()[k] == self.properties@[k]@,
    {
        self.lemma_wf();
        self.properties.lemma_view();
        let a = self.properties.spec_items();
        let b = self.spec_items();
        lemma_sorted_distinct(b);
        lemma_apply_keyed_distinct(b);
        assert forall|k: Seq<char>| self.spec_map().contains_key(k) <==> self.properties@.contains_key(k) by {
            if self.spec_map().contains_key(k) {
                let i = choose|i: int| 0 <= i < b.len() && #[trigger] b[i].0 == k;
                assert(a[i].0 == k);
            }
            if self.properties@.contains_key(k) {
                let i = choose|i: int| 0 <= i < a.len() && #[trigger] a[i].0 == k;
                assert(b[i].0 == k);
            }
        }
        assert forall|k: Seq<char>| #[trigger] self.spec_map().contains_key(k) implies self.spec_map()[k] == self.properties@[k]@ by {
            let i = choose|i: int| 0 <= i < b.len() && #[trigger] b[i].0 == k;
            assert(a[i].0 == k);
            assert(self.spec_map()[b[i].0] == b[i].1);
            assert(self.properties@[a[i].0] == a[i].1);
        }
    }

    /// No properties.
    pub fn empty() -> (res: Self)
        ensures
            res.wf(),
            res.spec_items() == Seq::<(Seq<char>, Seq<char>)>::empty(),
    {
        let res = BlockItemStateProperties { properties: SortedStringMap::new() };
        assert(res.spec_items() =~= Seq::<(Seq<char>, Seq<char>)>::empty());
        res
    }

    /// These properties with `name` set to `value`, replacing an earlier value.
    fn inserted(self, name: String, value: String) -> (res: Self)
        requires
            self.wf(),
        ensures
            res.wf(),
            res.spec_map() == self.spec_map().insert(name@, value@),
    {
        let ghost k = name@;
        let ghost v = value@;
        let ghost before = self;
        proof {
            self.lemma_map();
            self.lemma_wf();
        }
        let mut properties = self.properties;
        properties.insert(name, value);
        let res = BlockItemStateProperties { properties };
        proof {
            res.lemma_wf();
            res.lemma_map();
            assert(res.spec_map() =~= before.spec_map().insert(k, v)) by {
                assert forall|x: Seq<char>| #[trigger] res.spec_map().contains_key(x) implies res.spec_map()[x] == before.spec_map().insert(k, v)[x] by {
                    if x != k {
                        assert(before.spec_map().contains_key(x));
                    }
                }
            }
        }
        res
    }

    /// The properties `properties` set in turn; a later value for a name
    /// replaces an earlier one.
    pub fn new(properties: Vec<(String, String)>) -> (res: Self)
        ensures
            res.wf(),
            res.spec_map() == apply_keyed(Map::empty(), properties@.map_values(|e: (String, String)| (e.0@, e.1@))),
    {
        let ghost items = properties@.map_values(|e: (String, String)| (e.0@, e.1@));
        let mut result = BlockItemStateProperties::empty();
        proof {
            assert(items.take(0) =~= Seq::<(Seq<char>, Seq<char>)>::empty());
            assert(result.spec_map() == apply_keyed(Map::<Seq<char>, Seq<char>>::empty(), items.take(0)));
        }
        let n = properties.len();
        let mut i: usize = 0;
        while i < n
            invariant
                n == items.len() == properties@.len(),
                items == properties@.map_values(|e: (String, String)| (e.0@, e.1@)),
                i <= n,
                result.wf(),
                result.spec_map() == apply_keyed(Map::<Seq<char>, Seq<char>>::empty(), items.take(i as int)),
            decreases n - i,
        {
            assert(items[i as int] == (properties@[i as int].0@, properties@[i as int].1@));
            result = result.inserted(properties[i].0.clone(), properties[i].1.clone());
            proof {
                assert(items.take(i + 1).drop_last() =~= items.take(i as int));
                assert(items.take(i + 1).last() == items[i as int]);
            }
            i = i + 1;
        }
        assert(items.take(n as int) =~= items);
        result
    }

    /// The properties in ascending name order.
    pub fn properties(&self) -> (res: &[(String, String)])
        ensures
            res@.map_values(|e: (String, String)| (e.0@, e.1@)) == self.spec_items(),
    {
        let res = self.properties.entries();
        assert(res@.map_values(|e: (String, String)| (e.0@, e.1@)) =~= self.spec_items());
        res
    }

    /// The value of `property`, if it is set.
    pub fn get(&self, property: &str) -> (res: Option<&str>)
        ensures
            match res {
                Some(v) => self.spec_map().contains_key(property@) && v@ == self.spec_map()[property@],
                None => !self.spec_map().contains_key(property@),
            },
    {
        proof {
            use_type_invariant(self);
            self.lemma_wf();
            assert(self.wf());
            self.lemma_map();
            self.lemma_wf();
        }
        match self.properties.get(property) {
            Some(v) => Some(v.as_str()),
            None => None,
        }
    }

    /// Whether no property is set.
    pub fn is_empty(&self) -> (res: bool)
        ensures
            res == (self.spec_items().len() == 0),
    {
        self.properties.is_empty()
    }

    /// Whether the value fits the network form: a count that fits an `i32`
    /// and names and values of at most 32767 UTF-16 units.
    pub open spec fn encodable(self) -> bool {
        &&& self.spec_items().len() <= i32::MAX
        &&& forall|i: int| 0 <= i < self.spec_items().len() ==>
            string_fits(#[trigger] self.spec_items()[i].0, MAX_PROPERTY_STRING as int)
                && string_fits(self.spec_items()[i].1, MAX_PROPERTY_STRING as int)
    }

    /// The network form: the count as a `VarInt`, then each name and value
    /// as a length-prefixed string, in ascending name order.
    pub open spec fn spec_bytes(self) -> Seq<u8> {
        varint_bytes(self.spec_items().len() as i32) + concat_map(self.spec_items(), property_item())
    }

    /// Writes the network form; an oversized count, name or value is refused.
    pub fn write(&self, buf: &mut Vec<u8>) -> (res: Result<(), WireError>)
        ensures
            self.wf(),
            res is Ok <==> self.encodable(),
            res is Ok ==> final(buf)@ == old(buf)@ + self.spec_bytes(),
    {
        proof {
            use_type_invariant(self);
            self.lemma_wf();
        }
        let entries = self.properties.entries();
        let ghost items = self.spec_items();
        assert(entries@.len() == items.len());
        if entries.len() > 0x7fff_ffff {
            return Err(WireError::TooMany);
        }
        write_varint(buf, entries.len() as i32);
        let ghost start = buf@;
        let mut i: usize = 0;
        assert(items.take(0) =~= Seq::<(Seq<char>, Seq<char>)>::empty());
        while i < entries.len()
            invariant
                i <= entries@.len() == items.len(),
                items == self.spec_items(),
                self.wf(),
                forall|j: int| 0 <= j < entries@.len() ==> #[trigger] items[j] == (entries@[j].0@, entries@[j].1@),
                buf@ == start + concat_map(items.take(i as int), property_item()),
                forall|j: int| 0 <= j < i ==> string_fits(#[trigger] items[j].0, MAX_PROPERTY_STRING as int)
                    && string_fits(items[j].1, MAX_PROPERTY_STRING as int),
            decreases entries.len() - i,
        {
            assert(items[i as int] == (entries@[i as int].0@, entries@[i as int].1@));
            let ghost before = buf@;
            match write_network_string(buf, entries[i].0.as_str(), MAX_PROPERTY_STRING) {
                Ok(()) => {},
                Err(e) => {
                    assert(!string_fits(self.spec_items()[i as int].0, MAX_PROPERTY_STRING as int));
                    return Err(e);
                },
            }
            match write_network_string(buf, entries[i].1.as_str(), MAX_PROPERTY_STRING) {
                Ok(()) => {},
                Err(e) => {
                    assert(!string_fits(self.spec_items()[i as int].1, MAX_PROPERTY_STRING as int)
                        && string_fits(self.spec_items()[i as int].0, MAX_PROPERTY_STRING as int));
                    return Err(e);
                },
            }
            proof {
                assert(string_fits(items[i as int].0, MAX_PROPERTY_STRING as int)
                    && string_fits(items[i as int].1, MAX_PROPERTY_STRING as int));
                assert(buf@ =~= before + property_item()(items[i as int]));
                lemma_concat_map_push(items.take(i as int), items[i as int], property_item());
                assert(items.take(i as int).push(items[i as int]) =~= items.take(i + 1));
            }
            assert(forall|j: int| 0 <= j <= i ==> string_fits(#[trigger] items[j].0, MAX_PROPERTY_STRING as int)
                && string_fits(items[j].1, MAX_PROPERTY_STRING as int));
            i = i + 1;
        }
        assert(items.take(i as int) =~= items);
        assert(final(buf)@ =~= old(buf)@ + self.spec_bytes());
        Ok(())
    }

    /// Reads `count` names and values at `pos`, setting each in `acc` in turn.
    pub open spec fn spec_read_properties(s: Seq<u8>, pos: int, count: nat, acc: Map<Seq<char>, Seq<char>>)
        -> Result<(Map<Seq<char>, Seq<char>>, int), WireError>
        decreases count,
    {
        if count == 0 {
            Ok((acc, pos))
        } else {
            match spec_read_network_string(s, pos, MAX_PROPERTY_STRING as int) {
                Err(e) => Err(e),
                Ok((name, p1)) => match spec_read_network_string(s, p1, MAX_PROPERTY_STRING as int) {
                    Err(e) => Err(e),
                    Ok((value, p2)) => Self::spec_read_properties(s, p2, (count - 1) as nat, acc.insert(name, value)),
                },
            }
        }
    }

    /// Reads the network form: a non-negative count, then that many names and
    /// values; a later value for a name replaces an earlier one.
    pub open spec fn spec_read(s: Seq<u8>, pos: int) -> Result<(Map<Seq<char>, Seq<char>>, int), WireError> {
        match spec_read_varint(s, pos) {
            Err(e) => Err(e),
            Ok((count, next)) => if count < 0 {
                Err(WireError::Negative)
            } else {
                Self::spec_read_properties(s, next, count as nat, Map::empty())
            },
        }
    }

    /// Reads the network form at `pos`.
    pub fn read(data: &[u8], pos: usize) -> (res: Result<(BlockItemStateProperties, usize), WireError>)
        ensures
            match (res, Self::spec_read(data@, pos as int)) {
                (Ok((v, end)), Ok((m, send))) => v.wf() && v.spec_map() == m && end == send,
                (Err(e), Err(se)) => e == se,
                _ => false,
            },
    {
        let (count, next) = read_varint(data, pos)?;
        if count < 0 {
            return Err(WireError::Negative);
        }
        let mut result = BlockItemStateProperties::empty();
        assert(result.spec_map() == Map::<Seq<char>, Seq<char>>::empty());
        let mut cur = next;
        let mut i: i32 = 0;
        while i < count
            invariant
                0 <= i <= count,
                result.wf(),
                Self::spec_read(data@, pos as int) == Self::spec_read_properties(data@, next as int, count as nat, Map::empty()),
                Self::spec_read_properties(data@, next as int, count as nat, Map::empty())
                    == Self::spec_read_properties(data@, cur as int, (count - i) as nat, result.spec_map()),
            decreases count - i,
        {
            let (name, p1) = read_network_string(data, cur, MAX_PROPERTY_STRING)?;
            let (value, p2) = read_network_string(data, p1, MAX_PROPERTY_STRING)?;
            result = result.inserted(name, value);
            cur = p2;
            i = i + 1;
        }
        Ok((result, cur))
    }

    /// `tag` is the persistent form: a compound with each property, in
    /// ascending name order, as a string.
    pub open spec fn is_nbt_form(self, tag: NbtTag) -> bool {
        tag matches NbtTag::Compound(es) && entries_form(es@, self.spec_items())
    }

    /// The persistent form.
    pub fn to_nbt_tag(&self) -> (res: NbtTag)
        ensures
            self.wf(),
            self.is_nbt_form(res),
    {
        proof {
            use_type_invariant(self);
            self.lemma_wf();
        }
        let entries = self.properties.entries();
        let ghost items = self.spec_items();
        let mut es: Vec<(String, NbtTag)> = Vec::new();
        let mut i: usize = 0;
        while i < entries.len()
            invariant
                i <= entries@.len() == items.len(),
                items == self.spec_items(),
                forall|j: int| 0 <= j < entries@.len() ==> #[trigger] items[j] == (entries@[j].0@, entries@[j].1@),
                es@.len() == i,
                forall|j: int| 0 <= j < i ==> #[trigger] es@[j].0@ == items[j].0
                    && (es@[j].1 matches NbtTag::String(v) && v@ == items[j].1),
            decreases entries.len() - i,
        {
            assert(items[i as int] == (entries@[i as int].0@, entries@[i as int].1@));
            es.push((entries[i].0.clone(), NbtTag::String(entries[i].1.clone())));
            i = i + 1;
        }
        let res = NbtTag::Compound(es);
        assert(entries_form(es@, items));
        res
    }

    /// The properties a compound's entries give, set in `acc` in turn; `None`
    /// where a value is not a string.
    pub open spec fn spec_from_nbt_entries(es: Seq<(String, NbtTag)>, acc: Map<Seq<char>, Seq<char>>)
        -> Option<Map<Seq<char>, Seq<char>>>
        decreases es.len(),
    {
        if es.len() == 0 {
            Some(acc)
        } else {
            match es[0].1 {
                NbtTag::String(v) => Self::spec_from_nbt_entries(es.drop_first(), acc.insert(es[0].0@, v@)),
                _ => None,
            }
        }
    }

    /// Reads the persistent form: a compound whose every entry is a string.
    pub open spec fn spec_from_nbt(tag: NbtTag) -> Option<Map<Seq<char>, Seq<char>>> {
        match tag {
            NbtTag::Compound(es) => Self::spec_from_nbt_entries(es@, Map::empty()),
            _ => None,
        }
    }

    /// Reads the persistent form.
    pub fn from_nbt_tag(tag: &NbtTag) -> (res: Option<BlockItemStateProperties>)
        ensures
            match (res, Self::spec_from_nbt(*tag)) {
                (Some(v), Some(m)) => v.wf() && v.spec_map() == m,
                (None, None) => true,
                _ => false,
            },
    {
        let es = match tag {
            NbtTag::Compound(es) => es,
            _ => return None,
        };
        let mut result = BlockItemStateProperties::empty();
        assert(result.spec_map() == Map::<Seq<char>, Seq<char>>::empty());
        let mut i: usize = 0;
        assert(es@.skip(0) =~= es@);
        while i < es.len()
            invariant
                *tag == NbtTag::Compound(*es),
                i <= es@.len(),
                result.wf(),
                Self::spec_from_nbt_entries(es@, Map::empty())
                    == Self::spec_from_nbt_entries(es@.skip(i as int), result.spec_map()),
            decreases es.len() - i,
        {
            assert(es@.skip(i as int).drop_first() =~= es@.skip(i + 1));
            assert(es@.skip(i as int)[0] == es@[i as int]);
            match &es[i].1 {
                NbtTag::String(v) => {
                    result = result.inserted(es[i].0.clone(), v.clone());
                },
                _ => return None,
            }
            i = i + 1;
        }
        assert(es@.skip(i as int) =~= Seq::<(String, NbtTag)>::empty());
        Some(result)
    }
}

/// `es` holds each of `items` in order, its value as a string.
pub open spec fn entries_form(es: Seq<(String, NbtTag)>, items: Seq<(Seq<char>, Seq<char>)>) -> bool {
    &&& es.len() == items.len()
    &&& forall|i: int| 0 <= i < es.len() ==> #[trigger] es[i].0@ == items[i].0
        && (es[i].1 matches NbtTag::String(v) && v@ == items[i].1)
}

/// The network form of one property: its name, then its value.
pub open spec fn property_item() -> spec_fn((Seq<char>, Seq<char>)) -> Seq<u8> {
    |e: (Seq<char>, Seq<char>)| string_bytes(e.0) + string_bytes(e.1)
}

/// Properties written in order read back, each set in turn.
#[verifier::rlimit(40)]
pub proof fn lemma_read_properties_round_trip(
    pre: Seq<u8>,
    items: Seq<(Seq<char>, Seq<char>)>,
    rest: Seq<u8>,
    acc: Map<Seq<char>, Seq<char>>,
)
    requires
        forall|i: int| 0 <= i < items.len() ==> string_fits(#[trigger] items[i].0, MAX_PROPERTY_STRING as int)
            && string_fits(items[i].1, MAX_PROPERTY_STRING as int),
    ensures
        BlockItemStateProperties::spec_read_properties(pre + concat_map(items, property_item()) + rest,
            pre.len() as int, items.len(), acc)
            == Ok::<(Map<Seq<char>, Seq<char>>, int), WireError>((apply_keyed(acc, items),
                (pre.len() + concat_map(items, property_item()).len()) as int)),
    decreases items.len(),
{
    let bytes = concat_map(items, property_item());
    if items.len() == 0 {
        assert(pre + bytes + rest =~= pre + rest);
    } else {
        let x = items[0];
        let tail = items.drop_first();
        assert(string_fits(items[0].0, MAX_PROPERTY_STRING as int));
        let nb = string_bytes(x.0);
        let vb = string_bytes(x.1);
        let tb = concat_map(tail, property_item());
        let s = pre + bytes + rest;
        assert(bytes == property_item()(x) + tb);
        assert(s =~= pre + nb + (vb + tb + rest));
        lemma_network_string_round_trip(pre, x.0, MAX_PROPERTY_STRING as int, vb + tb + rest);
        let pre1 = pre + nb;
        assert(s =~= pre1 + vb + (tb + rest));
        lemma_network_string_round_trip(pre1, x.1, MAX_PROPERTY_STRING as int, tb + rest);
        let pre2 = pre1 + vb;
        assert(s =~= pre2 + tb + rest);
        assert forall|i: int| 0 <= i < tail.len() implies string_fits(#[trigger] tail[i].0, MAX_PROPERTY_STRING as int)
            && string_fits(tail[i].1, MAX_PROPERTY_STRING as int) by {
            assert(tail[i] == items[i + 1]);
            assert(string_fits(items[i + 1].0, MAX_PROPERTY_STRING as int));
        }
        lemma_read_properties_round_trip(pre2, tail, rest, acc.insert(x.0, x.1));
        lemma_apply_keyed_front(acc, items);
        assert(((items.len() - 1) as nat) == tail.len());
    }
}

/// Law: the network form of properties that fit it reads back as the same
/// properties.
pub proof fn lemma_network_round_trip(pre: Seq<u8>, p: BlockItemStateProperties, rest: Seq<u8>)
    requires
        p.wf(),
        p.encodable(),
    ensures
        BlockItemStateProperties::spec_read(pre + p.spec_bytes() + rest, pre.len() as int)
            == Ok::<(Map<Seq<char>, Seq<char>>, int), WireError>((p.spec_map(), (pre.len() + p.spec_bytes().len()) as int)),
{
    let items = p.spec_items();
    let cb = varint_bytes(items.len() as i32);
    let body = concat_map(items, property_item());
    let s = pre + p.spec_bytes() + rest;
    assert(s =~= pre + cb + (body + rest));
    lemma_varint_round_trip(pre, items.len() as i32, body + rest);
    let pre1 = pre + cb;
    assert(s =~= pre1 + body + rest);
    lemma_read_properties_round_trip(pre1, items, rest, Map::empty());
}

/// The entries of a persistent form read back, each set in turn.
pub proof fn lemma_nbt_entries_round_trip(es: Seq<(String, NbtTag)>, items: Seq<(Seq<char>, Seq<char>)>, acc: Map<Seq<char>, Seq<char>>)
    requires
        entries_form(es, items),
    ensures
        BlockItemStateProperties::spec_from_nbt_entries(es, acc) == Some(apply_keyed(acc, items)),
    decreases es.len(),
{
    if es.len() > 0 {
        assert(es[0].0@ == items[0].0);
        let tail = items.drop_first();
        assert forall|i: int| 0 <= i < es.drop_first().len() implies #[trigger] es.drop_first()[i].0@ == tail[i].0
            && (es.drop_first()[i].1 matches NbtTag::String(v) && v@ == tail[i].1) by {
            assert(es[i + 1].0@ == items[i + 1].0);
        }
        lemma_nbt_entries_round_trip(es.drop_first(), tail, acc.insert(items[0].0, items[0].1));
        lemma_apply_keyed_front(acc, items);
    } else {
        assert(items =~= Seq::<(Seq<char>, Seq<char>)>::empty());
    }
}

/// Law: the persistent form reads back as the same properties.
pub proof fn lemma_nbt_round_trip(p: BlockItemStateProperties, tag: NbtTag)
    requires
        p.is_nbt_form(tag),
    ensures
        BlockItemStateProperties::spec_from_nbt(tag) == Some(p.spec_map()),
{
    let es = tag->Compound_0;
    let items = p.spec_items();
    lemma_nbt_entries_round_trip(es@, items, Map::empty());
}

/// Whether some list of names and values in ascending name order sets `m`.
pub open spec fn has_sorted_properties(m: Map<Seq<char>, Seq<char>>) -> bool {
    exists|items: Seq<(Seq<char>, Seq<char>)>| strictly_sorted(items) && apply_keyed(Map::empty(), items) == m
}

/// The names and values of `m` in ascending name order.
pub open spec fn sorted_properties(m: Map<Seq<char>, Seq<char>>) -> Seq<(Seq<char>, Seq<char>)> {
    choose|items: Seq<(Seq<char>, Seq<char>)>| strictly_sorted(items) && apply_keyed(Map::empty(), items) == m
}

/// Whether the properties `m` fit the network form.
pub open spec fn properties_view_encodable(m: Map<Seq<char>, Seq<char>>) -> bool {
    let items = sorted_properties(m);
    &&& has_sorted_properties(m)
    &&& items.len() <= i32::MAX
    &&& forall|i: int| 0 <= i < items.len() ==>
        string_fits(#[trigger] items[i].0, MAX_PROPERTY_STRING as int)
            && string_fits(items[i].1, MAX_PROPERTY_STRING as int)
}

/// The network form of the properties `m`.
pub open spec fn properties_view_bytes(m: Map<Seq<char>, Seq<char>>) -> Seq<u8> {
    let items = sorted_properties(m);
    varint_bytes(items.len() as i32) + concat_map(items, property_item())
}

/// Whether `tag` is the persistent form of the properties `m`.
pub open spec fn properties_view_nbt(m: Map<Seq<char>, Seq<char>>, tag: NbtTag) -> bool {
    &&& has_sorted_properties(m)
    &&& tag matches NbtTag::Compound(es) && entries_form(es@, sorted_properties(m))
}

/// Properties are determined by their map: the form of a value is the form
/// of its map.
pub proof fn lemma_properties_view(p: BlockItemStateProperties)
    requires
        p.wf(),
    ensures
        has_sorted_properties(p.spec_map()),
        sorted_properties(p.spec_map()) == p.spec_items(),
        properties_view_encodable(p.spec_map()) == p.encodable(),
        properties_view_bytes(p.spec_map()) == p.spec_bytes(),
        forall|tag: NbtTag| properties_view_nbt(p.spec_map(), tag) == #[trigger] p.is_nbt_form(tag),
{
    let m = p.spec_map();
    assert(strictly_sorted(p.spec_items()) && apply_keyed(Map::empty(), p.spec_items()) == m);
    let items = sorted_properties(m);
    lemma_sorted_unique(items, p.spec_items());
}

/// Law: the network form of properties that fit it reads back as the same
/// properties.
pub proof fn lemma_properties_view_round_trip(pre: Seq<u8>, m: Map<Seq<char>, Seq<char>>, rest: Seq<u8>)
    requires
        properties_view_encodable(m),
    ensures
        BlockItemStateProperties::spec_read(pre + properties_view_bytes(m) + rest, pre.len() as int)
            == Ok::<(Map<Seq<char>, Seq<char>>, int), WireError>((m, (pre.len() + properties_view_bytes(m).len()) as int)),
{
    let items = sorted_properties(m);
    let cb = varint_bytes(items.len() as i32);
    let body = concat_map(items, property_item());
    let s = pre + properties_view_bytes(m) + rest;
    assert(s =~= pre + cb + (body + rest));
    lemma_varint_round_trip(pre, items.len() as i32, body + rest);
    let pre1 = pre + cb;
    assert(s =~= pre1 + body + rest);
    lemma_read_properties_round_trip(pre1, items, rest, Map::empty());
}

/// Law: the persistent form of properties reads back as the same properties.
pub proof fn lemma_properties_view_nbt_round_trip(m: Map<Seq<char>, Seq<char>>, tag: NbtTag)
    requires
        properties_view_nbt(m, tag),
    ensures
        BlockItemStateProperties::spec_from_nbt(tag) == Some(m),
{
    let es = tag->Compound_0;
    lemma_nbt_entries_round_trip(es@, sorted_properties(m), Map::empty());
}

} // verus!
