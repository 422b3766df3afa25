//! The `minecraft:debug_stick_state` item component: the block-state
//! property a debug stick has selected for each block.

use vstd::prelude::*;
use crate::identifier::{parse_identifier, spec_parse_identifier};
use crate::keyed::{apply_keyed, lemma_apply_keyed_distinct, lemma_apply_keyed_front, lemma_distinct_of_last};
use crate::nbt::NbtTag;
use crate::sorted::{SortedStringMap, lemma_sorted_distinct, seq_less, strictly_sorted};
use crate::wire::str_equals;

verus! {

/// A registered block: its key and the names of its state properties.
#[derive(Debug, Clone, PartialEq, Eq)]
pub struct BlockRef {
    pub key: String,
    pub property_names: Vec<String>,
}

impl BlockRef {
    /// The block's key and property names.
    pub open spec fn spec_view(self) -> (Seq<char>, Seq<Seq<char>>) {
        (self.key@, self.property_names@.map_values(|n: String| n@))
    }

    /// A copy of this block.
    pub fn duplicate(&self) -> (res: BlockRef)
        ensures
            res.spec_view() == self.spec_view(),
    {
        let mut names: Vec<String> = Vec::new();
        let mut i: usize = 0;
        while i < self.property_names.len()
            invariant
                i <= self.property_names@.len(),
                names@.len() == i,
                forall|j: int| 0 <= j < i ==> #[trigger] names@[j]@ == self.property_names@[j]@,
            decreases self.property_names.len() - i,
        {
            names.push(self.property_names[i].clone());
            i = i + 1;
        }
        let res = BlockRef { key: self.key.clone(), property_names: names };
        assert(res.property_names@.map_values(|n: String| n@) =~= self.property_names@.map_values(|n: String| n@));
        res
    }
}

/// Whether `block` has a state property named `name`.
pub open spec fn has_property(block: (Seq<char>, Seq<Seq<char>>), name: Seq<char>) -> bool {
    block.1.contains(name)
}

/// Whether `block` has a state property named `name`.
pub fn block_has_property(block: &BlockRef, name: &str) -> (res: bool)
    ensures
        res == has_property(block.spec_view(), name@),
{
    let mut p: usize = 0;
    while p < block.property_names.len()
        invariant
            p <= block.property_names@.len(),
            forall|q: int| 0 <= q < p ==> #[trigger] block.property_names@[q]@ != name@,
        decreases block.property_names.len() - p,
    {
        if str_equals(block.property_names[p].as_str(), name) {
            assert(block.spec_view().1[p as int] == name@);
            return true;
        }
        p = p + 1;
    }
    proof {
        if block.spec_view().1.contains(name@) {
            let j = choose|j: int| 0 <= j < block.spec_view().1.len() && block.spec_view().1[j] == name@;
            assert(block.property_names@[j]@ == name@);
        }
    }
    false
}

/// The first block of `blocks` with key `key`.
pub open spec fn spec_block_by_key(blocks: Seq<BlockRef>, key: Seq<char>) -> Option<BlockRef>
    decreases blocks.len(),
{
    if blocks.len() == 0 {
        None
    } else if blocks[0].key@ == key {
        Some(blocks[0])
    } else {
        spec_block_by_key(blocks.drop_first(), key)
    }
}

/// The first block of `blocks` with key `key` has the key and property
/// names `view`.
pub open spec fn block_registered_as(blocks: Seq<BlockRef>, key: Seq<char>, view: (Seq<char>, Seq<Seq<char>>)) -> bool {
    spec_block_by_key(blocks, key) matches Some(b) && b.spec_view() == view
}

/// The first block of `blocks` with key `key`.
pub fn block_by_key<'a>(blocks: &'a Vec<BlockRef>, key: &str) -> (res: Option<&'a BlockRef>)
    ensures
        match res {
            Some(b) => spec_block_by_key(blocks@, key@) == Some(*b),
            None => spec_block_by_key(blocks@, key@) is None,
        },
{
    let mut i: usize = 0;
    assert(blocks@.skip(0) =~= blocks@);
    while i < blocks.len()
        invariant
            i <= blocks@.len(),
            spec_block_by_key(blocks@, key@) == spec_block_by_key(blocks@.skip(i as int), key@),
        decreases blocks.len() - i,
    {
        assert(blocks@.skip(i as int).drop_first() =~= blocks@.skip(i + 1));
        if str_equals(blocks[i].key.as_str(), key) {
            return Some(&blocks[i]);
        }
        i = i + 1;
    }
    None
}

/// The property selected for one block.
#[derive(Debug, Clone, PartialEq, Eq)]
pub struct DebugStickProperty {
    block: BlockRef,
    property: String,
}

impl DebugStickProperty {
    /// The block's key and property names.
    pub closed spec fn spec_block(self) -> (Seq<char>, Seq<Seq<char>>) {
        self.block.spec_view()
    }

    /// The selected property's name.
    pub closed spec fn spec_property(self) -> Seq<char> {
        self.property@
    }

    /// The block.
    pub fn block(&self) -> (res: &BlockRef)
        ensures
            res.spec_view() == self.spec_block(),
    {
        &self.block
    }

    /// The selected property's name.
    pub fn property(&self) -> (res: &str)
        ensures
            res@ == self.spec_property(),
    {
        self.property.as_str()
    }
}

/// A block lacks the property named for it.
#[derive(Debug, Clone, PartialEq, Eq)]
pub struct UnknownBlockProperty {
    pub block: String,
    pub property: String,
}

/// The selected property of each block, kept in ascending block-key order.
#[derive(Debug, Clone, PartialEq, Eq)]
pub struct DebugStickState {
    properties: SortedStringMap<DebugStickProperty>,
}

impl Default for DebugStickState {
    fn default() -> (res: Self)
        ensures
            res.wf(),
            res.spec_items() == Seq::<(Seq<char>, ((Seq<char>, Seq<Seq<char>>), Seq<char>))>::empty(),
    {
        DebugStickState::empty()
    }
}

impl DebugStickState {
    /// Each block key with its block and selected property name, in
    /// ascending key order.
    pub closed spec fn spec_items(self) -> Seq<(Seq<char>, ((Seq<char>, Seq<Seq<char>>), Seq<char>))> {
        self.properties.spec_items().map_values(|e: (Seq<char>, DebugStickProperty)| (e.0, (e.1.block.spec_view(), e.1.property@)))
    }

    /// The block and selected property name of each block key.
    pub open spec fn spec_map(self) -> Map<Seq<char>, ((Seq<char>, Seq<Seq<char>>), Seq<char>)> {
        apply_keyed(Map::empty(), self.spec_items())
    }

    /// The invariant: block keys strictly ascend, and each selection is
    /// kept under its block's key and names a property of that block.
    pub open spec fn wf(self) -> bool {
        strictly_sorted(self.spec_items()) && selections_valid(self.spec_items())
    }

    proof fn lemma_wf(self)
        ensures
            strictly_sorted(self.spec_items()) == self.properties.wf(),
    {
        let a = self.properties.spec_items();
        let b = self.spec_items();
        assert forall|i: int| 0 <= i < b.len() implies #[trigger] b[i].0 == a[i].0 by {}
        if strictly_sorted(b) {
            assert forall|i: int, j: int| 0 <= i < j < a.len() implies seq_less(#[trigger] a[i].0, #[trigger] a[j].0) by {
                assert(seq_less(b[i].0, b[j].0));
            }
        }
        if self.properties.wf() {
            assert forall|i: int, j: int| 0 <= i < j < b.len() implies seq_less(#[trigger] b[i].0, #[trigger] b[j].0) by {
                assert(seq_less(a[i].0, a[j].0));
            }
        }
    }

    proof fn lemma_map(self)
        requires
            self.wf(),
        ensures
            forall|k: Seq<char>| self.spec_map().contains_key(k) <==> self.properties@.contains_key(k),
            forall|k: Seq<char>| #[trigger] self.spec_map().contains_key(k) ==>
                self.spec_map()[k] == (self.properties@[k].block.spec_view(), self.properties@[k].property@),
            forall|k: Seq<char>| #[trigger] self.spec_map().contains_key(k) ==>
                self.spec_map()[k].0.0 == k && has_property(self.spec_map()[k].0, self.spec_map()[k].1),
            forall|i: int| 0 <= i < self.spec_items().len() ==> self.spec_map()[#[trigger] self.spec_items()[i].0] == self.spec_items()[i].1
                && self.spec_map().contains_key(self.spec_items()[i].0),
    {
        self.lemma_wf();
        self.properties.lemma_view();
        let a = self.properties.spec_items();
        let b = self.spec_items();
        lemma_sorted_distinct(b);
        lemma_apply_keyed_distinct(b);
        assert forall|k: Seq<char>| #[trigger] self.spec_map().contains_key(k) implies
            self.spec_map()[k].0.0 == k && has_property(self.spec_map()[k].0, self.spec_map()[k].1) by {
            let i = choose|i: int| 0 <= i < b.len() && #[trigger] b[i].0 == k;
            assert(self.spec_map()[b[i].0] == b[i].1);
            assert(b[i].1.0.0 == b[i].0 && has_property(b[i].1.0, b[i].1.1));
        }
        assert forall|k: Seq<char>| self.spec_map().contains_key(k) <==> self.properties@.contains_key(k) by {
            if self.spec_map().contains_key(k) {
                let i = choose|i: int| 0 <= i < b.len() && #[trigger] b[i].0 == k;
                assert(a[i].0 == k);
            }
            if self.properties@.contains_key(k) {
                let i = choose|i: int| 0 <= i < a.len() && #[trigger] a[i].0 == k;
                assert(b[i].0 == k);
            }
        }
        assert forall|k: Seq<char>| #[trigger] self.spec_map().contains_key(k) implies
            self.spec_map()[k] == (self.properties@[k].block.spec_view(), self.properties@[k].property@) by {
            let i = choose|i: int| 0 <= i < b.len() && #[trigger] b[i].0 == k;
            assert(a[i].0 == k);
            assert(self.spec_map()[b[i].0] == b[i].1);
            assert(self.properties@[a[i].0] == a[i].1);
        }
    }

    /// No selections.
    pub fn empty() -> (res: Self)
        ensures
            res.wf(),
            res.spec_items() == Seq::<(Seq<char>, ((Seq<char>, Seq<Seq<char>>), Seq<char>))>::empty(),
    {
        let res = DebugStickState { properties: SortedStringMap::new() };
        assert(res.spec_items() =~= Seq::<(Seq<char>, ((Seq<char>, Seq<Seq<char>>), Seq<char>))>::empty());
        res
    }

    fn insert(&mut self, block: BlockRef, property: String)
        requires
            old(self).wf(),
            has_property(block.spec_view(), property@),
        ensures
            final(self).wf(),
            final(self).spec_map() == old(self).spec_map().insert(block.key@, (block.spec_view(), property@)),
    {
        let ghost k = block.key@;
        let ghost v = (block.spec_view(), property@);
        proof {
            old(self).lemma_map();
            old(self).lemma_wf();
        }
        let key = block.key.clone();
        self.properties.insert(key, DebugStickProperty { block, property });
        proof {
            self.lemma_wf();
            let items = self.spec_items();
            self.properties.lemma_view();
            let a = self.properties.spec_items();
            lemma_sorted_distinct(items);
            lemma_apply_keyed_distinct(items);
            assert forall|i: int| 0 <= i < items.len() implies #[trigger] items[i].1.0.0 == items[i].0
                && has_property(items[i].1.0, items[i].1.1) by {
                assert(a[i].0 == items[i].0);
                assert(self.properties@[a[i].0] == a[i].1);
                assert(self.properties@.contains_key(a[i].0));
                if items[i].0 != k {
                    assert(old(self).properties@.contains_key(items[i].0));
                    assert(old(self).spec_map().contains_key(items[i].0));
                }
            }
            self.lemma_map();
            assert(self.spec_map() =~= old(self).spec_map().insert(k, v)) by {
                assert forall|x: Seq<char>| #[trigger] self.spec_map().contains_key(x) implies self.spec_map()[x] == old(self).spec_map().insert(k, v)[x] by {
                    if x != k {
                        assert(old(self).spec_map().contains_key(x));
                    }
                }
            }
        }
    }

    /// Selects, for each block in turn, the property with the given name; a
    /// later selection for a block replaces an earlier one. A block that
    /// lacks the named property is refused.
    pub fn new(entries: Vec<(BlockRef, String)>) -> (res: Result<Self, UnknownBlockProperty>)
        ensures
            res is Ok <==> forall|i: int| 0 <= i < entries@.len() ==> #[trigger] has_property(entries@[i].0.spec_view(), entries@[i].1@),
            res matches Ok(s) ==> s.wf() && s.spec_map() == apply_keyed(Map::empty(), selection_items(entries@)),
    {
        let ghost items = selection_items(entries@);
        let mut result = DebugStickState::empty();
        proof {
            assert(items.take(0) =~= Seq::<(Seq<char>, ((Seq<char>, Seq<Seq<char>>), Seq<char>))>::empty());
            assert(result.spec_map() == apply_keyed(Map::<Seq<char>, ((Seq<char>, Seq<Seq<char>>), Seq<char>)>::empty(), items.take(0)));
        }
        let n = entries.len();
        let mut i: usize = 0;
        while i < n
            invariant
                n == items.len() == entries@.len(),
                items == selection_items(entries@),
                i <= n,
                result.wf(),
                result.spec_map() == apply_keyed(Map::<Seq<char>, ((Seq<char>, Seq<Seq<char>>), Seq<char>)>::empty(), items.take(i as int)),
                forall|j: int| 0 <= j < i ==> #[trigger] has_property(entries@[j].0.spec_view(), entries@[j].1@),
            decreases n - i,
        {
            let block = &entries[i].0;
            let name = &entries[i].1;
            if !block_has_property(block, name.as_str()) {
                return Err(UnknownBlockProperty { block: block.key.clone(), property: name.clone() });
            }
            result.insert(block.duplicate(), name.clone());
            proof {
                assert(items[i as int] == (entries@[i as int].0.key@, (entries@[i as int].0.spec_view(), entries@[i as int].1@)));
                assert(items.take(i + 1).drop_last() =~= items.take(i as int));
                assert(items.take(i + 1).last() == items[i as int]);
            }
            i = i + 1;
        }
        assert(items.take(n as int) =~= items);
        Ok(result)
    }

    /// The selections in ascending block-key order.
    pub fn properties(&self) -> (res: Vec<&DebugStickProperty>)
        ensures
            res@.len() == self.spec_items().len(),
            forall|i: int| 0 <= i < res@.len() ==> (#[trigger] res@[i]).spec_block() == self.spec_items()[i].1.0
                && res@[i].spec_property() == self.spec_items()[i].1.1,
    {
        let entries = self.properties.entries();
        let mut res: Vec<&DebugStickProperty> = Vec::new();
        let mut i: usize = 0;
        while i < entries.len()
            invariant
                i <= entries@.len(),
                entries@.map_values(|e: (String, DebugStickProperty)| (e.0@, e.1)) == self.properties.spec_items(),
                res@.len() == i,
                forall|j: int| 0 <= j < i ==> (#[trigger] res@[j]).spec_block() == self.spec_items()[j].1.0
                    && res@[j].spec_property() == self.spec_items()[j].1.1,
            decreases entries.len() - i,
        {
            assert(self.properties.spec_items()[i as int] == (entries@[i as int].0@, entries@[i as int].1));
            res.push(&entries[i].1);
            i = i + 1;
        }
        res
    }

    /// The persistent form: a compound mapping each block key, in ascending
    /// order, to its selected property's name.
    pub open spec fn is_nbt_form(self, tag: NbtTag) -> bool {
        tag matches NbtTag::Compound(es) && selection_entries_form(es@, self.spec_items())
    }

    /// The persistent form.
    pub fn to_nbt_tag(&self) -> (res: NbtTag)
        ensures
            self.is_nbt_form(res),
    {
        let entries = self.properties.entries();
        let ghost items = self.spec_items();
        let mut es: Vec<(String, NbtTag)> = Vec::new();
        let mut i: usize = 0;
        while i < entries.len()
            invariant
                i <= entries@.len(),
                items == self.spec_items(),
                entries@.map_values(|e: (String, DebugStickProperty)| (e.0@, e.1)) == self.properties.spec_items(),
                es@.len() == i,
                forall|j: int| 0 <= j < i ==> #[trigger] es@[j].0@ == items[j].0
                    && (es@[j].1 matches NbtTag::String(v) && v@ == items[j].1.1),
            decreases entries.len() - i,
        {
            assert(self.properties.spec_items()[i as int] == (entries@[i as int].0@, entries@[i as int].1));
            es.push((entries[i].0.clone(), NbtTag::String(entries[i].1.property.clone())));
            i = i + 1;
        }
        let res = NbtTag::Compound(es);
        assert(selection_entries_form(es@, items));
        res
    }

    /// The selections a persistent compound's entries name over the block
    /// registry `blocks`: each key an identifier of a registered block, each
    /// value a string; `None` otherwise.
    pub open spec fn spec_nbt_selections(es: Seq<(String, NbtTag)>, blocks: Seq<BlockRef>) -> Option<Seq<((Seq<char>, Seq<Seq<char>>), Seq<char>)>>
        decreases es.len(),
    {
        if es.len() == 0 {
            Some(Seq::empty())
        } else {
            match spec_parse_identifier(es[0].0@) {
                None => None,
                Some(key) => match spec_block_by_key(blocks, key) {
                    None => None,
                    Some(block) => match es[0].1 {
                        NbtTag::String(v) => match Self::spec_nbt_selections(es.drop_first(), blocks) {
                            Some(rest) => Some(seq![(block.spec_view(), v@)] + rest),
                            None => None,
                        },
                        _ => None,
                    },
                },
            }
        }
    }

    /// Reads the persistent form over the block registry `blocks`: the
    /// selections of a compound, each property checked as `new` does.
    pub open spec fn spec_from_nbt(tag: NbtTag, blocks: Seq<BlockRef>) -> Option<Map<Seq<char>, ((Seq<char>, Seq<Seq<char>>), Seq<char>)>> {
        match tag {
            NbtTag::Compound(es) => match Self::spec_nbt_selections(es@, blocks) {
                Some(sel) => if forall|i: int| 0 <= i < sel.len() ==> #[trigger] has_property(sel[i].0, sel[i].1) {
                    Some(apply_keyed(Map::empty(), sel.map_values(|e: ((Seq<char>, Seq<Seq<char>>), Seq<char>)| (e.0.0, e))))
                } else {
                    None
                },
                None => None,
            },
            _ => None,
        }
    }

    /// Reads the persistent form over the block registry `blocks`.
    pub fn from_nbt_tag(tag: &NbtTag, blocks: &Vec<BlockRef>) -> (res: Option<DebugStickState>)
        ensures
            match (res, Self::spec_from_nbt(*tag, blocks@)) {
                (Some(s), Some(m)) => s.wf() && s.spec_map() == m,
                (None, None) => true,
                _ => false,
            },
    {
        let es = match tag {
            NbtTag::Compound(es) => es,
            _ => return None,
        };
        let mut entries: Vec<(BlockRef, String)> = Vec::new();
        let mut i: usize = 0;
        assert(es@.skip(0) =~= es@);
        while i < es.len()
            invariant
                *tag == NbtTag::Compound(*es),
                i <= es@.len(),
                Self::spec_nbt_selections(es@, blocks@) == match Self::spec_nbt_selections(es@.skip(i as int), blocks@) {
                    Some(rest) => Some(entries@.map_values(|e: (BlockRef, String)| (e.0.spec_view(), e.1@)) + rest),
                    None => None::<Seq<((Seq<char>, Seq<Seq<char>>), Seq<char>)>>,
                },
            decreases es.len() - i,
        {
            let ghost cur = es@.skip(i as int);
            assert(cur.drop_first() =~= es@.skip(i + 1));
            assert(cur[0] == es@[i as int]);
            let key = match parse_identifier(es[i].0.as_str()) {
                Some(key) => key,
                None => return None,
            };
            let block = match block_by_key(blocks, key.as_str()) {
                Some(block) => block,
                None => return None,
            };
            let value = match &es[i].1 {
                NbtTag::String(v) => v,
                _ => return None,
            };
            let copy = block.duplicate();
            let value_copy = value.clone();
            proof {
                let tail = Self::spec_nbt_selections(es@.skip(i + 1), blocks@);
                match tail {
                    Some(rest) => {
                        assert(entries@.map_values(|e: (BlockRef, String)| (e.0.spec_view(), e.1@)) + (seq![(block.spec_view(), value@)] + rest)
                            =~= entries@.push((copy, value_copy)).map_values(|e: (BlockRef, String)| (e.0.spec_view(), e.1@)) + rest);
                    },
                    None => {},
                }
            }
            entries.push((copy, value_copy));
            i = i + 1;
        }
        assert(es@.skip(i as int) =~= Seq::<(String, NbtTag)>::empty());
        let ghost sel = entries@.map_values(|e: (BlockRef, String)| (e.0.spec_view(), e.1@));
        assert(sel + Seq::<((Seq<char>, Seq<Seq<char>>), Seq<char>)>::empty() =~= sel);
        proof {
            assert(selection_items(entries@) =~= sel.map_values(|e: ((Seq<char>, Seq<Seq<char>>), Seq<char>)| (e.0.0, e)));
            assert forall|j: int| 0 <= j < sel.len() implies
                (#[trigger] has_property(sel[j].0, sel[j].1)) == has_property(entries@[j].0.spec_view(), entries@[j].1@) by {}
            assert(Self::spec_nbt_selections(es@, blocks@) == Some(sel));
            assert((forall|j: int| 0 <= j < sel.len() ==> #[trigger] has_property(sel[j].0, sel[j].1))
                == (forall|j: int| 0 <= j < entries@.len() ==> #[trigger] has_property(entries@[j].0.spec_view(), entries@[j].1@))) by {
                if forall|j: int| 0 <= j < sel.len() ==> #[trigger] has_property(sel[j].0, sel[j].1) {
                    assert forall|j: int| 0 <= j < entries@.len() implies #[trigger] has_property(entries@[j].0.spec_view(), entries@[j].1@) by {
                        assert(has_property(sel[j].0, sel[j].1));
                    }
                }
                if forall|j: int| 0 <= j < entries@.len() ==> #[trigger] has_property(entries@[j].0.spec_view(), entries@[j].1@) {
                    assert forall|j: int| 0 <= j < sel.len() implies #[trigger] has_property(sel[j].0, sel[j].1) by {
                        assert(has_property(entries@[j].0.spec_view(), entries@[j].1@));
                    }
                }
            }
        }
        match DebugStickState::new(entries) {
            Ok(s) => Some(s),
            Err(_) => None,
        }
    }
}

/// Each selection is kept under its block's key and names a property of
/// that block.
pub open spec fn selections_valid(items: Seq<(Seq<char>, ((Seq<char>, Seq<Seq<char>>), Seq<char>))>) -> bool {
    forall|i: int| 0 <= i < items.len() ==> #[trigger] items[i].1.0.0 == items[i].0
        && has_property(items[i].1.0, items[i].1.1)
}

/// The selections `new` makes of `entries`: each block's key with the block
/// and the property name.
pub open spec fn selection_items(entries: Seq<(BlockRef, String)>) -> Seq<(Seq<char>, ((Seq<char>, Seq<Seq<char>>), Seq<char>))> {
    entries.map_values(|e: (BlockRef, String)| (e.0.key@, (e.0.spec_view(), e.1@)))
}

/// The selections built from `entries`: one per distinct block key of
/// `entries`, in strictly ascending key order, each holding the block and
/// property name of the last entry for that block.
pub proof fn lemma_selections_last_entry_wins(s: DebugStickState, entries: Seq<(BlockRef, String)>)
    requires
        s.wf(),
        s.spec_map() == apply_keyed(Map::empty(), selection_items(entries)),
    ensures
        forall|i: int, j: int| 0 <= i < j < s.spec_items().len() ==> seq_less(#[trigger] s.spec_items()[i].0, #[trigger] s.spec_items()[j].0),
        forall|j: int| 0 <= j < entries.len() ==> exists|i: int| 0 <= i < s.spec_items().len()
            && #[trigger] s.spec_items()[i].0 == (#[trigger] selection_items(entries)[j]).0,
        forall|i: int| 0 <= i < s.spec_items().len() ==> exists|j: int| 0 <= j < entries.len()
            && #[trigger] selection_items(entries)[j].0 == (#[trigger] s.spec_items()[i]).0
            && s.spec_items()[i].1 == selection_items(entries)[j].1
            && forall|l: int| j < l < entries.len() ==> #[trigger] selection_items(entries)[l].0 != s.spec_items()[i].0,
{
    lemma_sorted_distinct(s.spec_items());
    lemma_distinct_of_last(s.spec_items(), selection_items(entries));
}

/// `es` maps each of `items`' keys, in order, to its property name as a string.
pub open spec fn selection_entries_form(es: Seq<(String, NbtTag)>, items: Seq<(Seq<char>, ((Seq<char>, Seq<Seq<char>>), Seq<char>))>) -> bool {
    &&& es.len() == items.len()
    &&& forall|i: int| 0 <= i < es.len() ==> #[trigger] es[i].0@ == items[i].0
        && (es[i].1 matches NbtTag::String(v) && v@ == items[i].1.1)
}

/// The selections of a persistent form's entries, each key a canonical
/// identifier of a block found in `blocks`, are the stored selections.
pub proof fn lemma_nbt_selections_round_trip(
    es: Seq<(String, NbtTag)>,
    items: Seq<(Seq<char>, ((Seq<char>, Seq<Seq<char>>), Seq<char>))>,
    blocks: Seq<BlockRef>,
)
    requires
        selection_entries_form(es, items),
        forall|i: int| 0 <= i < items.len() ==> spec_parse_identifier(#[trigger] items[i].0) == Some(items[i].0)
            && block_registered_as(blocks, items[i].0, items[i].1.0),
    ensures
        DebugStickState::spec_nbt_selections(es, blocks)
            == Some(items.map_values(|e: (Seq<char>, ((Seq<char>, Seq<Seq<char>>), Seq<char>))| e.1)),
    decreases es.len(),
{
    let f = |e: (Seq<char>, ((Seq<char>, Seq<Seq<char>>), Seq<char>))| e.1;
    if es.len() == 0 {
        assert(items.map_values(f) =~= Seq::<((Seq<char>, Seq<Seq<char>>), Seq<char>)>::empty());
    } else {
        assert(es[0].0@ == items[0].0);
        assert(spec_parse_identifier(items[0].0) == Some(items[0].0));
        let tail = items.drop_first();
        assert forall|i: int| 0 <= i < es.drop_first().len() implies #[trigger] es.drop_first()[i].0@ == tail[i].0
            && (es.drop_first()[i].1 matches NbtTag::String(v) && v@ == tail[i].1.1) by {
            assert(es[i + 1].0@ == items[i + 1].0);
        }
        assert forall|i: int| 0 <= i < tail.len() implies spec_parse_identifier(#[trigger] tail[i].0) == Some(tail[i].0)
            && block_registered_as(blocks, tail[i].0, tail[i].1.0) by {
            assert(spec_parse_identifier(items[i + 1].0) == Some(items[i + 1].0));
        }
        lemma_nbt_selections_round_trip(es.drop_first(), tail, blocks);
        assert(seq![items[0].1] + tail.map_values(f) =~= items.map_values(f));
    }
}

/// Law: the persistent form of a state whose block keys are canonical
/// identifiers of the same blocks in the block registry reads back as the
/// same state.
pub proof fn lemma_nbt_round_trip(s: DebugStickState, tag: NbtTag, blocks: Seq<BlockRef>)
    requires
        s.wf(),
        s.is_nbt_form(tag),
        forall|i: int| 0 <= i < s.spec_items().len() ==> spec_parse_identifier(#[trigger] s.spec_items()[i].0) == Some(s.spec_items()[i].0)
            && block_registered_as(blocks, s.spec_items()[i].0, s.spec_items()[i].1.0),
    ensures
        DebugStickState::spec_from_nbt(tag, blocks) == Some(s.spec_map()),
{
    let es = tag->Compound_0;
    let items = s.spec_items();
    let f = |e: (Seq<char>, ((Seq<char>, Seq<Seq<char>>), Seq<char>))| e.1;
    lemma_nbt_selections_round_trip(es@, items, blocks);
    let sel = items.map_values(f);
    assert forall|i: int| 0 <= i < sel.len() implies #[trigger] has_property(sel[i].0, sel[i].1) by {
        assert(items[i].1.0.0 == items[i].0 && has_property(items[i].1.0, items[i].1.1));
    }
    assert(sel.map_values(|e: ((Seq<char>, Seq<Seq<char>>), Seq<char>)| (e.0.0, e)) =~= items) by {
        assert forall|i: int| 0 <= i < items.len() implies #[trigger] items[i].1.0.0 == items[i].0 by {}
    }
}

} // verus!
