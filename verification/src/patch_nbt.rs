//! The persistent (NBT) form of component patches.
//!
//! A patch is saved as a compound: each saved component that the patch sets
//! appears under its key with its value's persistent form, and each saved
//! component that it removes appears under its key marked with `!`, holding
//! an empty compound. Components that are not registered, or that the game
//! does not save, are left out.

use vstd::prelude::*;
use crate::component_data::{ComponentData, DataView, lemma_component_data_nbt_round_trip, nbt_round_trips};
use crate::identifier::{lemma_canonical_identifier_head, parse_identifier, spec_parse_identifier};
use crate::nbt::NbtTag;
use crate::patch::{
    ComponentEntry, ComponentPatchEntry, DataComponentPatch, EntryView, DataComponentRegistry, apply_entries,
    lemma_apply_distinct, lemma_filter_items, spec_persistent_codec,
};
use crate::wire::WireError;

verus! {

/// Keeps a patch item in the persistent form: its component is saved, and a
/// value it sets is one the component's codec writes.
pub open spec fn nbt_keep(entries: Seq<ComponentEntry>) -> spec_fn((Seq<char>, EntryView)) -> Option<(Seq<char>, EntryView)> {
    |e: (Seq<char>, EntryView)| match spec_persistent_codec(entries, e.0) {
        None => None,
        Some(codec) => match e.1 {
            EntryView::Value(d) => if d.nbt_encodable(codec) { Some(e) } else { None },
            EntryView::Removed => Some(e),
        },
    }
}

/// The compound key of an item: the component key, marked with `!` when the
/// component is removed.
pub open spec fn nbt_item_key(e: (Seq<char>, EntryView)) -> Seq<char> {
    match e.1 {
        EntryView::Removed => seq!['!'] + e.0,
        EntryView::Value(_) => e.0,
    }
}

/// `tag` holds the item: the value's persistent form, or an empty compound
/// for a removal.
pub open spec fn nbt_item_value(e: (Seq<char>, EntryView), tag: NbtTag) -> bool {
    match e.1 {
        EntryView::Value(d) => d.is_nbt(tag),
        EntryView::Removed => tag matches NbtTag::Compound(c) && c@.len() == 0,
    }
}

/// The compound entry `e` holds `item` under its compound key.
pub open spec fn nbt_item_entry(e: (String, NbtTag), item: (Seq<char>, EntryView)) -> bool {
    e.0@ == nbt_item_key(item) && nbt_item_value(item, e.1)
}

/// `es` holds each of `items`, in order, under its compound key.
pub open spec fn nbt_items_form(es: Seq<(String, NbtTag)>, items: Seq<(Seq<char>, EntryView)>) -> bool {
    &&& es.len() == items.len()
    &&& forall|i: int| 0 <= i < es.len() ==> #[trigger] nbt_item_entry(es[i], items[i])
}

/// The item one compound entry gives: a `!`-marked key names a removed
/// component and must hold a compound; another key names a set component
/// and holds its value's persistent form. The key must be an identifier of
/// a saved component.
#[verifier::opaque]
pub open spec fn spec_nbt_item(e: (String, NbtTag), entries: Seq<ComponentEntry>) -> Option<(Seq<char>, EntryView)> {
    let k = e.0@;
    if k.len() > 0 && k[0] == '!' {
        match spec_parse_identifier(k.drop_first()) {
            Some(id) => match spec_persistent_codec(entries, id) {
                Some(_) => if e.1 is Compound { Some((id, EntryView::Removed)) } else { None },
                None => None,
            },
            None => None,
        }
    } else {
        match spec_parse_identifier(k) {
            Some(id) => match spec_persistent_codec(entries, id) {
                Some(codec) => match DataView::spec_read_nbt(codec, e.1, entries) {
                    Some(d) => Some((id, EntryView::Value(d))),
                    None => None,
                },
                None => None,
            },
            None => None,
        }
    }
}

/// The items a compound's entries give, in order; `None` where one entry
/// gives none.
pub open spec fn spec_nbt_items(es: Seq<(String, NbtTag)>, entries: Seq<ComponentEntry>) -> Option<Seq<(Seq<char>, EntryView)>>
    decreases es.len(),
{
    if es.len() == 0 {
        Some(Seq::empty())
    } else {
        match spec_nbt_item(es[0], entries) {
            Some(x) => match spec_nbt_items(es.drop_first(), entries) {
                Some(rest) => Some(seq![x] + rest),
                None => None,
            },
            None => None,
        }
    }
}

/// A `!` followed by `key`.
fn removed_key(key: &str) -> (res: String)
    ensures
        res@ == seq!['!'] + key@,
{
    proof {
        reveal_strlit("!");
    }
    String::from_str("!").concat(key)
}

/// The item one compound entry gives, over `registry`.
fn read_nbt_item(e: &(String, NbtTag), registry: &DataComponentRegistry) -> (res: Option<(String, ComponentPatchEntry)>)
    requires
        registry.wf(),
    ensures
        match res {
            Some(x) => spec_nbt_item(*e, registry.spec_entries()) == Some((x.0@, x.1@)),
            None => spec_nbt_item(*e, registry.spec_entries()) is None,
        },
{
    reveal(spec_nbt_item);
    let k = e.0.as_str();
    let n = k.unicode_len();
    if n > 0 && k.get_char(0) == '!' {
        let rest = k.substring_char(1, n);
        assert(rest@ =~= k@.drop_first());
        let id = match parse_identifier(rest) {
            Some(id) => id,
            None => return None,
        };
        if registry.persistent_codec(id.as_str()).is_none() {
            return None;
        }
        match &e.1 {
            NbtTag::Compound(_) => {},
            _ => return None,
        }
        Some((id, ComponentPatchEntry::Removed))
    } else {
        let id = match parse_identifier(k) {
            Some(id) => id,
            None => return None,
        };
        let codec = match registry.persistent_codec(id.as_str()) {
            Some(codec) => codec,
            None => return None,
        };
        let d = match ComponentData::read_nbt(codec, &e.1, registry) {
            Some(d) => d,
            None => return None,
        };
        Some((id, ComponentPatchEntry::Value(d)))
    }
}

impl DataComponentPatch {
    /// The items the persistent form keeps, in order.
    pub open spec fn nbt_kept(self, entries: Seq<ComponentEntry>) -> Seq<(Seq<char>, EntryView)> {
        self.spec_items().filter_map(nbt_keep(entries))
    }

    /// Whether every value the patch sets for a saved component is one the
    /// component's codec writes.
    pub open spec fn nbt_strictly_encodable(self, entries: Seq<ComponentEntry>) -> bool {
        forall|i: int| 0 <= i < self.spec_items().len() ==> #[trigger] nbt_keep(entries)(self.spec_items()[i]) is Some
            || spec_persistent_codec(entries, self.spec_items()[i].0) is None
    }

    /// The entries of the persistent form; with `strict`, a saved value that
    /// its codec refuses fails the whole form, and otherwise it is left out.
    fn encode_nbt(&self, registry: &DataComponentRegistry, strict: bool) -> (res: Result<Vec<(String, NbtTag)>, WireError>)
        requires
            registry.wf(),
        ensures
            res is Ok <==> (!strict || self.nbt_strictly_encodable(registry.spec_entries())),
            res matches Ok(es) ==> nbt_items_form(es@, self.nbt_kept(registry.spec_entries())),
            res matches Err(e) ==> e == WireError::Invalid,
    {
        let ghost entries = registry.spec_entries();
        let ghost items = self.spec_items();
        let ghost keep = nbt_keep(entries);
        let list = self.iter();
        let mut es: Vec<(String, NbtTag)> = Vec::new();
        let mut i: usize = 0;
        assert(items.take(0) =~= Seq::<(Seq<char>, EntryView)>::empty());
        while i < list.len()
            invariant
                registry.wf(),
                entries == registry.spec_entries(),
                items == self.spec_items(),
                keep == nbt_keep(entries),
                list@.map_values(|e: (String, ComponentPatchEntry)| (e.0@, e.1@)) == items,
                i <= list@.len(),
                nbt_items_form(es@, items.take(i as int).filter_map(keep)),
                strict ==> forall|j: int| 0 <= j < i ==> #[trigger] keep(items[j]) is Some
                    || spec_persistent_codec(entries, items[j].0) is None,
            decreases list.len() - i,
        {
            let ghost x = items[i as int];
            let ghost before = items.take(i as int).filter_map(keep);
            proof {
                assert(x == (list@[i as int].0@, list@[i as int].1@));
                assert(items.take(i + 1).drop_last() =~= items.take(i as int));
                assert(items.take(i + 1).last() == x);
            }
            let key = &list[i].0;
            match registry.persistent_codec(key.as_str()) {
                None => {
                    assert(keep(x) is None);
                    assert(items.take(i + 1).filter_map(keep) == before);
                },
                Some(codec) => {
                    match &list[i].1 {
                        ComponentPatchEntry::Value(d) => {
                            match d.write_nbt(codec) {
                                Ok(tag) => {
                                    assert(keep(x) == Some(x));
                                    assert(items.take(i + 1).filter_map(keep) == before + seq![x]);
                                    let ghost old_es = es@;
                                    es.push((key.clone(), tag));
                                    proof {
                                        let after = before + seq![x];
                                        assert forall|j: int| 0 <= j < es@.len() implies #[trigger] nbt_item_entry(es@[j], after[j]) by {
                                            if j < old_es.len() {
                                                assert(es@[j] == old_es[j]);
                                                assert(after[j] == before[j]);
                                                assert(nbt_item_entry(old_es[j], before[j]));
                                            }
                                        }
                                        assert(nbt_items_form(es@, after));
                                    }
                                },
                                Err(e) => {
                                    assert(keep(x) is None);
                                    if strict {
                                        return Err(e);
                                    }
                                    assert(items.take(i + 1).filter_map(keep) == before);
                                },
                            }
                        },
                        ComponentPatchEntry::Removed => {
                            assert(keep(x) == Some(x));
                            assert(items.take(i + 1).filter_map(keep) == before + seq![x]);
                            let empty: Vec<(String, NbtTag)> = Vec::new();
                            let ghost old_es = es@;
                            es.push((removed_key(key.as_str()), NbtTag::Compound(empty)));
                            proof {
                                let after = before + seq![x];
                                assert forall|j: int| 0 <= j < es@.len() implies #[trigger] nbt_item_entry(es@[j], after[j]) by {
                                    if j < old_es.len() {
                                        assert(es@[j] == old_es[j]);
                                        assert(after[j] == before[j]);
                                        assert(nbt_item_entry(old_es[j], before[j]));
                                    }
                                }
                                assert(nbt_items_form(es@, after));
                            }
                        },
                    }
                },
            }
            i = i + 1;
        }
        assert(items.take(i as int) =~= items);
        Ok(es)
    }

    /// The persistent form; a value its component's codec refuses is left
    /// out, as the game does when it saves.
    pub fn to_nbt_tag(&self, registry: &DataComponentRegistry) -> (res: NbtTag)
        requires
            registry.wf(),
        ensures
            res matches NbtTag::Compound(es) && nbt_items_form(es@, self.nbt_kept(registry.spec_entries())),
    {
        match self.encode_nbt(registry, false) {
            Ok(es) => NbtTag::Compound(es),
            Err(_) => NbtTag::Compound(Vec::new()),
        }
    }

    /// The persistent form, refused when a value its component's codec
    /// refuses is set for a saved component.
    pub fn try_to_nbt_tag(&self, registry: &DataComponentRegistry) -> (res: Result<NbtTag, WireError>)
        requires
            registry.wf(),
        ensures
            res is Ok <==> self.nbt_strictly_encodable(registry.spec_entries()),
            res matches Ok(tag) ==> tag matches NbtTag::Compound(es) && nbt_items_form(es@, self.nbt_kept(registry.spec_entries())),
            res matches Err(e) ==> e == WireError::Invalid,
    {
        match self.encode_nbt(registry, true) {
            Ok(es) => Ok(NbtTag::Compound(es)),
            Err(e) => Err(e),
        }
    }

    /// Reads the persistent form over the component registry: a compound
    /// whose every entry gives an item; a later item for a component replaces
    /// an earlier one.
    pub open spec fn spec_from_nbt(tag: NbtTag, entries: Seq<ComponentEntry>) -> Option<Seq<(Seq<char>, EntryView)>> {
        match tag {
            NbtTag::Compound(es) => spec_nbt_items(es@, entries),
            _ => None,
        }
    }

    /// Reads the persistent form over `registry`.
    pub fn from_nbt_tag(tag: &NbtTag, registry: &DataComponentRegistry) -> (res: Option<DataComponentPatch>)
        requires
            registry.wf(),
        ensures
            match (res, Self::spec_from_nbt(*tag, registry.spec_entries())) {
                (Some(p), Some(items)) => p.wf() && p@ == apply_entries(Map::empty(), items),
                (None, None) => true,
                _ => false,
            },
    {
        let ghost entries = registry.spec_entries();
        let es = match tag {
            NbtTag::Compound(es) => es,
            _ => return None,
        };
        let mut result = DataComponentPatch::new();
        let ghost mut produced: Seq<(Seq<char>, EntryView)> = Seq::empty();
        let mut i: usize = 0;
        assert(es@.skip(0) =~= es@);
        assert(result@ == apply_entries(Map::empty(), produced));
        while i < es.len()
            invariant
                registry.wf(),
                entries == registry.spec_entries(),
                *tag == NbtTag::Compound(*es),
                i <= es@.len(),
                result.wf(),
                result@ == apply_entries(Map::empty(), produced),
                spec_nbt_items(es@, entries) == match spec_nbt_items(es@.skip(i as int), entries) {
                    Some(rest) => Some(produced + rest),
                    None => None::<Seq<(Seq<char>, EntryView)>>,
                },
            decreases es.len() - i,
        {
            let ghost cur = es@.skip(i as int);
            assert(cur.drop_first() =~= es@.skip(i + 1));
            assert(cur[0] == es@[i as int]);
            let (id, entry) = match read_nbt_item(&es[i], registry) {
                Some(x) => x,
                None => return None,
            };
            proof {
                assert(spec_nbt_item(es@[i as int], entries) == Some((id@, entry@)));
                let tail = spec_nbt_items(es@.skip(i + 1), entries);
                match tail {
                    Some(rest) => {
                        assert(produced + (seq![(id@, entry@)] + rest) =~= produced.push((id@, entry@)) + rest);
                    },
                    None => {},
                }
            }
            result.insert_entry(id.as_str(), entry);
            proof {
                let next = produced.push((id@, entry@));
                assert(next.drop_last() =~= produced);
                assert(apply_entries(Map::empty(), next) == apply_entries(Map::empty(), produced).insert(id@, entry@));
                produced = next;
            }
            i = i + 1;
        }
        assert(es@.skip(i as int) =~= Seq::<(String, NbtTag)>::empty());
        assert(produced + Seq::<(Seq<char>, EntryView)>::empty() =~= produced);
        Some(result)
    }
}

/// The rest of a form holds the rest of the items.
proof fn lemma_items_form_tail(es: Seq<(String, NbtTag)>, kept: Seq<(Seq<char>, EntryView)>)
    requires
        nbt_items_form(es, kept),
        es.len() > 0,
    ensures
        nbt_items_form(es.drop_first(), kept.drop_first()),
{
    let e2 = es.drop_first();
    let k2 = kept.drop_first();
    assert forall|j: int| 0 <= j < e2.len() implies #[trigger] nbt_item_entry(e2[j], k2[j]) by {
        assert(e2[j] == es[j + 1]);
        assert(k2[j] == kept[j + 1]);
        assert(nbt_item_entry(es[j + 1], kept[j + 1]));
    }
}

/// The entries of a persistent form whose keys are identifiers in full form
/// of saved components, with values that read back, give back its items.
#[verifier::rlimit(40)]
pub proof fn lemma_nbt_items_round_trip(
    es: Seq<(String, NbtTag)>,
    kept: Seq<(Seq<char>, EntryView)>,
    entries: Seq<ComponentEntry>,
)
    requires
        nbt_items_form(es, kept),
        forall|j: int| 0 <= j < kept.len() ==> spec_parse_identifier(#[trigger] kept[j].0) == Some(kept[j].0)
            && nbt_keep(entries)(kept[j]) is Some
            && (kept[j].1 matches EntryView::Value(d) ==> nbt_round_trips(d, entries)),
    ensures
        spec_nbt_items(es, entries) == Some(kept),
    decreases es.len(),
{
    if es.len() == 0 {
        assert(kept =~= Seq::<(Seq<char>, EntryView)>::empty());
    } else {
        let x = kept[0];
        assert(nbt_item_entry(es[0], kept[0]));
        assert(spec_parse_identifier(kept[0].0) == Some(kept[0].0));
        lemma_canonical_identifier_head(x.0);
        let codec = spec_persistent_codec(entries, x.0)->Some_0;
        match x.1 {
            EntryView::Removed => {
                assert((seq!['!'] + x.0).drop_first() =~= x.0);
                assert((seq!['!'] + x.0)[0] == '!');
            },
            EntryView::Value(d) => {
                assert(d.nbt_encodable(codec));
                lemma_component_data_nbt_round_trip(d, codec, es[0].1, entries);
            },
        }
        assert(spec_nbt_item(es[0], entries) == Some(x)) by {
            reveal(spec_nbt_item);
        }
        let tail = kept.drop_first();
        lemma_items_form_tail(es, kept);
        assert forall|j: int| 0 <= j < tail.len() implies spec_parse_identifier(#[trigger] tail[j].0) == Some(tail[j].0)
            && nbt_keep(entries)(tail[j]) is Some
            && (tail[j].1 matches EntryView::Value(d) ==> nbt_round_trips(d, entries)) by {
            assert(spec_parse_identifier(kept[j + 1].0) == Some(kept[j + 1].0));
        }
        lemma_nbt_items_round_trip(es.drop_first(), tail, entries);
        assert(seq![x] + tail =~= kept);
    }
}

/// Law: the persistent form of a patch whose keys are identifiers in full
/// form, and whose values read back, reads back as the items it keeps: the
/// saved components, each with the patch's entry, in order.
pub proof fn lemma_patch_nbt_round_trip(p: DataComponentPatch, entries: Seq<ComponentEntry>, tag: NbtTag)
    requires
        p.wf(),
        tag matches NbtTag::Compound(es) && nbt_items_form(es@, p.nbt_kept(entries)),
        forall|i: int| 0 <= i < p.spec_items().len() ==> spec_parse_identifier(#[trigger] p.spec_items()[i].0) == Some(p.spec_items()[i].0)
            && (p.spec_items()[i].1 matches EntryView::Value(d) ==> nbt_round_trips(d, entries)),
    ensures
        DataComponentPatch::spec_from_nbt(tag, entries) == Some(p.nbt_kept(entries)),
{
    let items = p.spec_items();
    let keep = nbt_keep(entries);
    let kept = p.nbt_kept(entries);
    lemma_filter_items(items, keep);
    assert forall|j: int| 0 <= j < kept.len() implies spec_parse_identifier(#[trigger] kept[j].0) == Some(kept[j].0)
        && nbt_keep(entries)(kept[j]) is Some
        && (kept[j].1 matches EntryView::Value(d) ==> nbt_round_trips(d, entries)) by {
        assert(kept.contains(kept[j]));
        assert(items.contains(kept[j]) && keep(kept[j]) is Some);
        let k = choose|k: int| 0 <= k < items.len() && items[k] == kept[j];
        assert(spec_parse_identifier(items[k].0) == Some(items[k].0));
    }
    lemma_nbt_items_round_trip(tag->Compound_0@, kept, entries);
}

/// Law: the items a patch's persistent form keeps give the patch's entries
/// for exactly the saved components whose values their codecs write.
pub proof fn lemma_nbt_kept_entries(p: DataComponentPatch, entries: Seq<ComponentEntry>)
    requires
        p.wf(),
    ensures
        forall|k: Seq<char>| #[trigger] apply_entries(Map::empty(), p.nbt_kept(entries)).contains_key(k)
            <==> (p@.contains_key(k) && nbt_keep(entries)((k, p@[k])) is Some),
        forall|k: Seq<char>| #[trigger] apply_entries(Map::empty(), p.nbt_kept(entries)).contains_key(k)
            ==> apply_entries(Map::empty(), p.nbt_kept(entries))[k] == p@[k],
{
    let items = p.spec_items();
    let keep = nbt_keep(entries);
    let kept = p.nbt_kept(entries);
    lemma_filter_items(items, keep);
    lemma_apply_distinct(kept);
    p.lemma_view();
    let m = apply_entries(Map::empty(), kept);
    assert forall|k: Seq<char>| #[trigger] m.contains_key(k) <==> (p@.contains_key(k) && keep((k, p@[k])) is Some) by {
        if m.contains_key(k) {
            let j = choose|j: int| 0 <= j < kept.len() && #[trigger] kept[j].0 == k;
            assert(kept.contains(kept[j]));
            assert(kept.contains(kept[j]) ==> items.contains(kept[j]) && keep(kept[j]) is Some);
            let i = choose|i: int| 0 <= i < items.len() && items[i] == kept[j];
            assert(items[i].0 == k);
            assert(p@[items[i].0] == items[i].1);
        }
        if p@.contains_key(k) && keep((k, p@[k])) is Some {
            let i = choose|i: int| 0 <= i < items.len() && #[trigger] items[i].0 == k;
            assert(p@[items[i].0] == items[i].1);
            assert(items[i] == (k, p@[k]));
            assert(items.contains(items[i]));
            assert(kept.contains(items[i]));
            let j = choose|j: int| 0 <= j < kept.len() && kept[j] == items[i];
            assert(kept[j].0 == k);
        }
    }
    assert forall|k: Seq<char>| #[trigger] m.contains_key(k) implies m[k] == p@[k] by {
        let j = choose|j: int| 0 <= j < kept.len() && #[trigger] kept[j].0 == k;
        assert(kept.contains(kept[j]));
        assert(kept.contains(kept[j]) ==> items.contains(kept[j]) && keep(kept[j]) is Some);
        let i = choose|i: int| 0 <= i < items.len() && items[i] == kept[j];
        assert(p@[items[i].0] == items[i].1);
        assert(m[kept[j].0] == kept[j].1);
    }
}

} // verus!
