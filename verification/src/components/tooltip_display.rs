//! The `minecraft:tooltip_display` item component.

use vstd::prelude::*;
use crate::patch::{ComponentEntry, DataComponentRegistry, registry_has_key, registry_id};
use crate::identifier::{parse_identifier, spec_parse_identifier};
use crate::nbt::{NbtTag, codec_bool, compound_get, compound_lookup, entry, lemma_compound_lookup_push, spec_codec_bool};
use crate::wire::{
    WireError, bool_byte, concat_map, lemma_bool_round_trip, lemma_bounded_count_round_trip,
    lemma_concat_map_push, lemma_prepend_items_assoc, lemma_read_seq_round_trip, prepend_items,
    read_bool, read_non_negative_varint, spec_read_bool, spec_read_non_negative_varint, spec_read_seq,
    str_equals, varint_bytes, write_bool, write_varint,
};

verus! {

/// No key occurs twice in `s`.
pub open spec fn no_duplicates(s: Seq<Seq<char>>) -> bool {
    forall|i: int, j: int| 0 <= i < j < s.len() ==> s[i] != s[j]
}

/// `s` with each key kept at its first occurrence only.
pub open spec fn dedup_first(s: Seq<Seq<char>>) -> Seq<Seq<char>>
    decreases s.len(),
{
    if s.len() == 0 {
        Seq::empty()
    } else {
        let d = dedup_first(s.drop_last());
        if d.contains(s.last()) { d } else { d.push(s.last()) }
    }
}

/// The position of `k` in `s`, where it occurs.
pub open spec fn position_of(s: Seq<Seq<char>>, k: Seq<char>) -> int {
    choose|i: int| 0 <= i < s.len() && s[i] == k
}

/// Whether tooltips are hidden, and which component types' lines are hidden,
/// in the order they were first hidden.
#[derive(Debug, PartialEq, Eq)]
pub struct TooltipDisplay {
    hide_tooltip: bool,
    hidden_components: Vec<String>,
}

impl Clone for TooltipDisplay {
    fn clone(&self) -> (res: Self)
        ensures
            res.spec_hide_tooltip() == self.spec_hide_tooltip(),
            res.spec_hidden() == self.spec_hidden(),
    {
        proof {
            use_type_invariant(self);
        }
        let mut hidden_components: Vec<String> = Vec::new();
        let mut i: usize = 0;
        while i < self.hidden_components.len()
            invariant
                i <= self.hidden_components@.len(),
                hidden_components@.len() == i,
                forall|j: int| 0 <= j < i ==> #[trigger] hidden_components@[j]@ == self.hidden_components@[j]@,
            decreases self.hidden_components.len() - i,
        {
            hidden_components.push(self.hidden_components[i].clone());
            i = i + 1;
        }
        assert(hidden_components@.map_values(|k: String| k@) =~= self.spec_hidden());
        TooltipDisplay { hide_tooltip: self.hide_tooltip, hidden_components }
    }
}

impl Default for TooltipDisplay {
    fn default() -> (res: Self)
        ensures
            !res.spec_hide_tooltip(),
            res.spec_hidden() == Seq::<Seq<char>>::empty(),
    {
        let res = TooltipDisplay { hide_tooltip: false, hidden_components: Vec::new() };
        assert(res.spec_hidden() =~= Seq::<Seq<char>>::empty());
        res
    }
}

impl TooltipDisplay {
    /// Whether the whole tooltip is hidden.
    pub closed spec fn spec_hide_tooltip(self) -> bool {
        self.hide_tooltip
    }

    /// The hidden component keys, in order.
    pub closed spec fn spec_hidden(self) -> Seq<Seq<char>> {
        self.hidden_components@.map_values(|k: String| k@)
    }

    /// The invariant: no component is hidden twice.
    #[verifier::type_invariant]
    pub open spec fn wf(self) -> bool {
        no_duplicates(self.spec_hidden())
    }

    /// Whether the whole tooltip is hidden.
    pub fn hide_tooltip(&self) -> (res: bool)
        ensures
            res == self.spec_hide_tooltip(),
    {
        self.hide_tooltip
    }

    /// This display with `component`, not yet hidden, hidden last.
    fn pushed(self, component: String) -> (res: Self)
        requires
            self.wf(),
            !self.spec_hidden().contains(component@),
        ensures
            res.wf(),
            res.spec_hide_tooltip() == self.spec_hide_tooltip(),
            res.spec_hidden() == self.spec_hidden().push(component@),
    {
        let ghost h = self.spec_hidden();
        let ghost k = component@;
        let TooltipDisplay { hide_tooltip, mut hidden_components } = self;
        hidden_components.push(component);
        proof {
            let r = hidden_components@.map_values(|k: String| k@);
            assert(r =~= h.push(k));
            assert forall|a: int, b: int| 0 <= a < b < r.len() implies r[a] != r[b] by {
                if b == h.len() {
                    assert(h.contains(h[a]));
                }
            }
        }
        TooltipDisplay { hide_tooltip, hidden_components }
    }

    /// This display with the component at `index` shown again.
    fn removed(self, index: usize) -> (res: Self)
        requires
            self.wf(),
            index < self.spec_hidden().len(),
        ensures
            res.wf(),
            res.spec_hide_tooltip() == self.spec_hide_tooltip(),
            res.spec_hidden() == self.spec_hidden().remove(index as int),
    {
        let ghost h = self.spec_hidden();
        let TooltipDisplay { hide_tooltip, mut hidden_components } = self;
        hidden_components.remove(index);
        proof {
            let r = hidden_components@.map_values(|k: String| k@);
            assert(r =~= h.remove(index as int));
            assert forall|a: int, b: int| 0 <= a < b < r.len() implies r[a] != r[b] by {
                let a2 = if a < index { a } else { a + 1 };
                let b2 = if b < index { b } else { b + 1 };
                assert(h[a2] != h[b2]);
            }
        }
        TooltipDisplay { hide_tooltip, hidden_components }
    }

    /// Shows or hides the whole tooltip, hiding no component's lines.
    pub fn new(hide_tooltip: bool) -> (res: Self)
        ensures
            res.wf(),
            res.spec_hide_tooltip() == hide_tooltip,
            res.spec_hidden() == Seq::<Seq<char>>::empty(),
    {
        let res = TooltipDisplay { hide_tooltip, hidden_components: Vec::new() };
        assert(res.spec_hidden() =~= Seq::<Seq<char>>::empty());
        res
    }

    /// The hidden component keys, in order.
    pub fn hidden_components(&self) -> (res: &[String])
        ensures
            res@.map_values(|k: String| k@) == self.spec_hidden(),
    {
        self.hidden_components.as_slice()
    }

    fn position(&self, component: &str) -> (res: Option<usize>)
        ensures
            match res {
                Some(i) => i < self.spec_hidden().len() && self.spec_hidden()[i as int] == component@
                    && forall|j: int| 0 <= j < i ==> self.spec_hidden()[j] != component@,
                None => !self.spec_hidden().contains(component@),
            },
    {
        let mut i: usize = 0;
        while i < self.hidden_components.len()
            invariant
                i <= self.hidden_components@.len(),
                forall|j: int| 0 <= j < i ==> self.spec_hidden()[j] != component@,
            decreases self.hidden_components.len() - i,
        {
            if str_equals(self.hidden_components[i].as_str(), component) {
                return Some(i);
            }
            i = i + 1;
        }
        None
    }

    /// Whether the lines of `component` show: the tooltip shows and the
    /// component is not hidden.
    pub fn shows(&self, component: &str) -> (res: bool)
        ensures
            res == (!self.spec_hide_tooltip() && !self.spec_hidden().contains(component@)),
    {
        !self.hide_tooltip && self.position(component).is_none()
    }

    /// A copy with the lines of `component` hidden or shown; a newly hidden
    /// component goes last, a shown one leaves its place.
    pub fn with_hidden(&self, component: &str, hidden: bool) -> (res: Self)
        ensures
            res.wf(),
            res.spec_hide_tooltip() == self.spec_hide_tooltip(),
            res.spec_hidden() == (if hidden {
                if self.spec_hidden().contains(component@) { self.spec_hidden() } else { self.spec_hidden().push(component@) }
            } else {
                if self.spec_hidden().contains(component@) {
                    self.spec_hidden().remove(position_of(self.spec_hidden(), component@))
                } else {
                    self.spec_hidden()
                }
            }),
    {
        proof {
            use_type_invariant(self);
        }
        let mut hidden_components: Vec<String> = Vec::new();
        let mut i: usize = 0;
        while i < self.hidden_components.len()
            invariant
                i <= self.hidden_components@.len(),
                hidden_components@.len() == i,
                forall|j: int| 0 <= j < i ==> hidden_components@[j] == self.hidden_components@[j],
            decreases self.hidden_components.len() - i,
        {
            hidden_components.push(self.hidden_components[i].clone());
            i = i + 1;
        }
        assert(hidden_components@ =~= self.hidden_components@);
        let mut result = TooltipDisplay { hide_tooltip: self.hide_tooltip, hidden_components };
        let ghost h = self.spec_hidden();
        match (self.position(component), hidden) {
            (None, true) => {
                result = result.pushed(component.to_owned());
            },
            (Some(index), false) => {
                result = result.removed(index);
                proof {
                    let p = position_of(h, component@);
                    assert(0 <= p < h.len() && h[p] == component@);
                    if p != index {
                        if p < index {
                            assert(h[p] != h[index as int]);
                        } else {
                            assert(h[index as int] != h[p]);
                        }
                    }
                }
            },
            (Some(index), true) => {
                assert(h.contains(component@)) by {
                    assert(h[index as int] == component@);
                }
            },
            (None, false) => {},
        }
        result
    }

    /// A display hiding `components`, each once, in the order of their first
    /// occurrence.
    pub fn from_hidden_components(hide_tooltip: bool, components: Vec<String>) -> (res: Self)
        ensures
            res.wf(),
            res.spec_hide_tooltip() == hide_tooltip,
            res.spec_hidden() == dedup_first(components@.map_values(|k: String| k@)),
    {
        let ghost keys = components@.map_values(|k: String| k@);
        let mut result = TooltipDisplay::new(hide_tooltip);
        let mut i: usize = 0;
        assert(keys.take(0) =~= Seq::<Seq<char>>::empty());
        while i < components.len()
            invariant
                i <= components@.len(),
                keys == components@.map_values(|k: String| k@),
                result.spec_hide_tooltip() == hide_tooltip,
                result.wf(),
                result.spec_hidden() == dedup_first(keys.take(i as int)),
            decreases components.len() - i,
        {
            proof {
                assert(keys.take(i + 1).drop_last() =~= keys.take(i as int));
                assert(keys.take(i + 1).last() == keys[i as int]);
            }
            if result.position(components[i].as_str()).is_none() {
                assert(components@[i as int]@ == keys[i as int]);
                result = result.pushed(components[i].clone());
            }
            i = i + 1;
        }
        assert(keys.take(i as int) =~= keys);
        result
    }

    /// Whether the count fits an `i32` and every hidden component is
    /// registered under a network id that fits an `i32`.
    pub open spec fn encodable(self, entries: Seq<ComponentEntry>) -> bool {
        &&& self.spec_hidden().len() <= i32::MAX
        &&& forall|i: int| 0 <= i < self.spec_hidden().len() ==> #[trigger] registry_has_key(entries, self.spec_hidden()[i])
            && registry_id(entries, self.spec_hidden()[i]) <= i32::MAX
    }

    /// The network form over the component registry: the hide flag, the number
    /// of hidden components, then each one's network id.
    pub open spec fn spec_bytes(self, entries: Seq<ComponentEntry>) -> Seq<u8> {
        seq![bool_byte(self.spec_hide_tooltip())] + varint_bytes(self.spec_hidden().len() as i32)
            + concat_map(self.spec_hidden(), id_item(entries))
    }

    /// Writes the network form over `registry`; a hidden component the
    /// registry lacks is refused.
    pub fn write(&self, buf: &mut Vec<u8>, registry: &DataComponentRegistry) -> (res: Result<(), WireError>)
        requires
            registry.wf(),
        ensures
            res is Ok <==> self.encodable(registry.spec_entries()),
            res is Ok ==> final(buf)@ == old(buf)@ + self.spec_bytes(registry.spec_entries()),
    {
        let ghost keys = self.spec_hidden();
        let ghost es = registry.spec_entries();
        if self.hidden_components.len() > 0x7fff_ffff {
            return Err(WireError::TooMany);
        }
        write_bool(buf, self.hide_tooltip);
        write_varint(buf, self.hidden_components.len() as i32);
        let ghost start = buf@;
        let mut i: usize = 0;
        assert(keys.take(0) =~= Seq::<Seq<char>>::empty());
        while i < self.hidden_components.len()
            invariant
                registry.wf(),
                es == registry.spec_entries(),
                keys == self.spec_hidden(),
                i <= self.hidden_components@.len(),
                buf@ == start + concat_map(keys.take(i as int), id_item(es)),
                forall|j: int| 0 <= j < i ==> #[trigger] registry_has_key(es, keys[j])
                    && registry_id(es, keys[j]) <= i32::MAX,
            decreases self.hidden_components.len() - i,
        {
            assert(keys[i as int] == self.hidden_components@[i as int]@);
            let id = match registry.get_id(self.hidden_components[i].as_str()) {
                Some(id) => id,
                None => return Err(WireError::Invalid),
            };
            if id > 0x7fff_ffff {
                return Err(WireError::Invalid);
            }
            write_varint(buf, id as i32);
            proof {
                lemma_concat_map_push(keys.take(i as int), keys[i as int], id_item(es));
                assert(keys.take(i as int).push(keys[i as int]) =~= keys.take(i + 1));
            }
            i = i + 1;
        }
        assert(keys.take(i as int) =~= keys);
        assert(final(buf)@ =~= old(buf)@ + self.spec_bytes(es));
        Ok(())
    }

    /// Reads the network form over the component registry: the hide flag, a
    /// non-negative count, then that many registered network ids; a component
    /// listed twice is hidden once, where it first occurs.
    pub open spec fn spec_read(s: Seq<u8>, pos: int, entries: Seq<ComponentEntry>) -> Result<(bool, Seq<Seq<char>>, int), WireError> {
        match spec_read_bool(s, pos) {
            Err(e) => Err(e),
            Ok((hide, p1)) => match spec_read_non_negative_varint(s, p1) {
                Err(e) => Err(e),
                Ok((count, p2)) => match spec_read_seq(s, p2, count as nat, id_reader(entries)) {
                    Err(e) => Err(e),
                    Ok((keys, end)) => Ok((hide, dedup_first(keys), end)),
                },
            },
        }
    }

    /// Reads the network form at `pos` over `registry`.
    pub fn read(data: &[u8], pos: usize, registry: &DataComponentRegistry) -> (res: Result<(TooltipDisplay, usize), WireError>)
        ensures
            match (res, Self::spec_read(data@, pos as int, registry.spec_entries())) {
                (Ok((d, end)), Ok((hide, keys, send))) => d.wf() && d.spec_hide_tooltip() == hide
                    && d.spec_hidden() == keys && end == send,
                (Err(e), Err(se)) => e == se,
                _ => false,
            },
    {
        let ghost es = registry.spec_entries();
        let ghost reader = id_reader(es);
        let (hide_tooltip, p1) = read_bool(data, pos)?;
        let (count, p2) = read_non_negative_varint(data, p1)?;
        let mut result = TooltipDisplay::new(hide_tooltip);
        let ghost mut raw: Seq<Seq<char>> = Seq::empty();
        let mut cur = p2;
        let mut i: usize = 0;
        assert(raw + Seq::<Seq<char>>::empty() =~= raw);
        assert(dedup_first(raw) =~= Seq::<Seq<char>>::empty());
        while i < count
            invariant
                i <= count,
                reader == id_reader(es),
                es == registry.spec_entries(),
                spec_read_bool(data@, pos as int) == Ok::<(bool, int), WireError>((hide_tooltip, p1 as int)),
                spec_read_non_negative_varint(data@, p1 as int) == Ok::<(int, int), WireError>((count as int, p2 as int)),
                spec_read_seq(data@, p2 as int, count as nat, reader)
                    == prepend_items(raw, spec_read_seq(data@, cur as int, (count - i) as nat, reader)),
                result.wf(),
                result.spec_hide_tooltip() == hide_tooltip,
                result.spec_hidden() == dedup_first(raw),
            decreases count - i,
        {
            let ghost rest = spec_read_seq(data@, cur as int, (count - i) as nat, reader);
            let (id, end) = match read_non_negative_varint(data, cur) {
                Ok(r) => r,
                Err(e) => {
                    assert(rest == Err::<(Seq<Seq<char>>, int), WireError>(e));
                    return Err(e);
                },
            };
            let entry = match registry.by_id(id) {
                Some(entry) => entry,
                None => {
                    assert(rest == Err::<(Seq<Seq<char>>, int), WireError>(WireError::Invalid));
                    return Err(WireError::Invalid);
                },
            };
            let ghost k = entry.key@;
            proof {
                let tail = spec_read_seq(data@, end as int, (count - i - 1) as nat, reader);
                assert(reader(data@, cur as int) == Ok::<(Seq<char>, int), WireError>((k, end as int)));
                assert(rest == prepend_items(seq![k], tail));
                lemma_prepend_items_assoc(raw, seq![k], tail);
                assert(raw.push(k).drop_last() =~= raw);
                assert(raw + seq![k] =~= raw.push(k));
            }
            if result.position(entry.key.as_str()).is_none() {
                result = result.pushed(entry.key.clone());
            }
            proof {
                raw = raw.push(k);
            }
            cur = end;
            i = i + 1;
        }
        assert(raw + Seq::<Seq<char>>::empty() =~= raw);
        Ok((result, cur))
    }
}

impl TooltipDisplay {
    /// `tag` is the persistent form: a compound holding `hide_tooltip: 1b`
    /// when the tooltip is hidden and, when some component is hidden, a list
    /// of the hidden keys as strings under `hidden_components`.
    pub open spec fn is_nbt_form(self, tag: NbtTag) -> bool {
        display_nbt_form(self.spec_hide_tooltip(), self.spec_hidden(), tag)
    }

    /// The persistent form.
    pub fn to_nbt_tag(&self) -> (res: NbtTag)
        ensures
            self.wf(),
            self.is_nbt_form(res),
    {
        proof {
            use_type_invariant(self);
            reveal_strlit("hide_tooltip");
            reveal_strlit("hidden_components");
            assert("hide_tooltip"@.len() != "hidden_components"@.len());
        }
        let mut es: Vec<(String, NbtTag)> = Vec::new();
        if self.hide_tooltip {
            let e = entry("hide_tooltip", NbtTag::Byte(1));
            proof {
                lemma_compound_lookup_push(es@, e, "hide_tooltip"@);
                lemma_compound_lookup_push(es@, e, "hidden_components"@);
            }
            es.push(e);
        }
        if self.hidden_components.len() > 0 {
            let mut items: Vec<NbtTag> = Vec::new();
            let mut i: usize = 0;
            while i < self.hidden_components.len()
                invariant
                    i <= self.hidden_components@.len(),
                    items@.len() == i,
                    forall|j: int| 0 <= j < i ==>
                        (#[trigger] items@[j] matches NbtTag::String(k) && k@ == self.spec_hidden()[j]),
                decreases self.hidden_components.len() - i,
            {
                assert(self.spec_hidden()[i as int] == self.hidden_components@[i as int]@);
                items.push(NbtTag::String(self.hidden_components[i].clone()));
                i = i + 1;
            }
            let e = entry("hidden_components", NbtTag::List(items));
            proof {
                lemma_compound_lookup_push(es@, e, "hide_tooltip"@);
                lemma_compound_lookup_push(es@, e, "hidden_components"@);
            }
            es.push(e);
        }
        NbtTag::Compound(es)
    }

    /// The keys a persistent list names: each a string that parses as an
    /// identifier of a registered component type.
    pub open spec fn spec_nbt_keys(items: Seq<NbtTag>, entries: Seq<ComponentEntry>) -> Option<Seq<Seq<char>>>
        decreases items.len(),
    {
        if items.len() == 0 {
            Some(Seq::empty())
        } else {
            match items[0] {
                NbtTag::String(k) => match spec_parse_identifier(k@) {
                    Some(key) => if registry_has_key(entries, key) {
                        match Self::spec_nbt_keys(items.drop_first(), entries) {
                            Some(rest) => Some(seq![key] + rest),
                            None => None,
                        }
                    } else {
                        None
                    },
                    None => None,
                },
                _ => None,
            }
        }
    }

    /// Reads the persistent form over the component registry: a compound
    /// whose optional `hide_tooltip` is a boolean (absent: false) and whose
    /// optional `hidden_components` is a list of registered component keys;
    /// a key listed twice is hidden once, where it first occurs.
    pub open spec fn spec_from_nbt(tag: NbtTag, entries: Seq<ComponentEntry>) -> Option<(bool, Seq<Seq<char>>)> {
        match tag {
            NbtTag::Compound(es) => {
                let hide = match compound_lookup(es@, "hide_tooltip"@) {
                    None => Some(false),
                    Some(t) => spec_codec_bool(t),
                };
                match hide {
                    None => None,
                    Some(h) => match compound_lookup(es@, "hidden_components"@) {
                        None => Some((h, Seq::empty())),
                        Some(NbtTag::List(items)) => if items@.len() == 0 {
                            Some((h, Seq::empty()))
                        } else {
                            match Self::spec_nbt_keys(items@, entries) {
                                Some(keys) => Some((h, dedup_first(keys))),
                                None => None,
                            }
                        },
                        Some(_) => None,
                    },
                }
            },
            _ => None,
        }
    }

    /// Reads the persistent form over `registry`.
    pub fn from_nbt_tag(tag: &NbtTag, registry: &DataComponentRegistry) -> (res: Option<TooltipDisplay>)
        requires
            registry.wf(),
        ensures
            match (res, Self::spec_from_nbt(*tag, registry.spec_entries())) {
                (Some(d), Some((hide, keys))) => d.wf() && d.spec_hide_tooltip() == hide && d.spec_hidden() == keys,
                (None, None) => true,
                _ => false,
            },
    {
        let ghost entries = registry.spec_entries();
        let es = match tag {
            NbtTag::Compound(es) => es,
            _ => return None,
        };
        let hide_tooltip = match compound_get(es, "hide_tooltip") {
            None => false,
            Some(t) => match codec_bool(t) {
                Some(b) => b,
                None => return None,
            },
        };
        let items = match compound_get(es, "hidden_components") {
            None => return Some(TooltipDisplay::new(hide_tooltip)),
            Some(NbtTag::List(items)) => items,
            Some(_) => return None,
        };
        if items.len() == 0 {
            return Some(TooltipDisplay::new(hide_tooltip));
        }
        let mut keys: Vec<String> = Vec::new();
        let mut i: usize = 0;
        assert(items@.skip(0) =~= items@);
        assert(Self::spec_from_nbt(*tag, entries) == match Self::spec_nbt_keys(items@, entries) {
            Some(ks) => Some((hide_tooltip, dedup_first(ks))),
            None => None::<(bool, Seq<Seq<char>>)>,
        });
        while i < items.len()
            invariant
                Self::spec_from_nbt(*tag, entries) == match Self::spec_nbt_keys(items@, entries) {
                    Some(ks) => Some((hide_tooltip, dedup_first(ks))),
                    None => None::<(bool, Seq<Seq<char>>)>,
                },
                registry.wf(),
                entries == registry.spec_entries(),
                i <= items@.len(),
                Self::spec_nbt_keys(items@, entries) == match Self::spec_nbt_keys(items@.skip(i as int), entries) {
                    Some(rest) => Some(keys@.map_values(|k: String| k@) + rest),
                    None => None::<Seq<Seq<char>>>,
                },
            decreases items.len() - i,
        {
            let ghost cur = items@.skip(i as int);
            assert(cur.drop_first() =~= items@.skip(i + 1));
            assert(cur[0] == items@[i as int]);
            let k = match &items[i] {
                NbtTag::String(k) => k,
                _ => return None,
            };
            let key = match parse_identifier(k.as_str()) {
                Some(key) => key,
                None => return None,
            };
            if registry.get_id(key.as_str()).is_none() {
                return None;
            }
            proof {
                let tail = Self::spec_nbt_keys(items@.skip(i + 1), entries);
                assert(cur[0] == NbtTag::String(*k));
                match tail {
                    Some(rest) => {
                        assert(keys@.map_values(|k: String| k@) + (seq![key@] + rest)
                            =~= keys@.push(key).map_values(|k: String| k@) + rest);
                    },
                    None => {},
                }
            }
            keys.push(key);
            i = i + 1;
        }
        assert(items@.skip(i as int) =~= Seq::<NbtTag>::empty());
        assert(keys@.map_values(|k: String| k@) + Seq::<Seq<char>>::empty() =~= keys@.map_values(|k: String| k@));
        Some(TooltipDisplay::from_hidden_components(hide_tooltip, keys))
    }
}

/// The keys of a list of string tags that are registered identifiers in
/// canonical form read back unchanged.
pub proof fn lemma_nbt_keys_round_trip(items: Seq<NbtTag>, keys: Seq<Seq<char>>, entries: Seq<ComponentEntry>)
    requires
        items.len() == keys.len(),
        forall|i: int| 0 <= i < items.len() ==> (#[trigger] items[i] matches NbtTag::String(k) && k@ == keys[i]),
        forall|i: int| 0 <= i < keys.len() ==> #[trigger] registry_has_key(entries, keys[i])
            && spec_parse_identifier(keys[i]) == Some(keys[i]),
    ensures
        TooltipDisplay::spec_nbt_keys(items, entries) == Some(keys),
    decreases items.len(),
{
    if items.len() > 0 {
        assert(items[0] matches NbtTag::String(k) && k@ == keys[0]);
        assert(registry_has_key(entries, keys[0]));
        assert forall|i: int| 0 <= i < items.drop_first().len() implies
            (#[trigger] items.drop_first()[i] matches NbtTag::String(k) && k@ == keys.drop_first()[i]) by {
            assert(items[i + 1] matches NbtTag::String(k) && k@ == keys[i + 1]);
        }
        assert forall|i: int| 0 <= i < keys.drop_first().len() implies #[trigger] registry_has_key(entries, keys.drop_first()[i])
            && spec_parse_identifier(keys.drop_first()[i]) == Some(keys.drop_first()[i]) by {
            assert(registry_has_key(entries, keys[i + 1]));
        }
        lemma_nbt_keys_round_trip(items.drop_first(), keys.drop_first(), entries);
        assert(seq![keys[0]] + keys.drop_first() =~= keys);
    } else {
        assert(keys =~= Seq::<Seq<char>>::empty());
    }
}

/// Law: the persistent form of a display whose hidden components are
/// registered identifiers in canonical form reads back as the same display.
pub proof fn lemma_display_nbt_round_trip(hide: bool, keys: Seq<Seq<char>>, tag: NbtTag, entries: Seq<ComponentEntry>)
    requires
        display_nbt_form(hide, keys, tag),
        display_nbt_round_trips(keys, entries),
    ensures
        TooltipDisplay::spec_from_nbt(tag, entries) == Some((hide, keys)),
{
    if hide {
        assert(spec_codec_bool(NbtTag::Byte(1)) == Some(true));
    }
    if keys.len() == 0 {
        assert(keys =~= Seq::<Seq<char>>::empty());
    } else {
        let es = tag->Compound_0;
        let items = compound_lookup(es@, "hidden_components"@)->Some_0->List_0;
        lemma_nbt_keys_round_trip(items@, keys, entries);
        lemma_dedup_first_no_duplicates(keys);
    }
}

/// `tag` is the persistent form of a display with flag `hide` hiding `keys`:
/// a compound holding `hide_tooltip: 1b` when the tooltip is hidden and, when
/// some component is hidden, a list of the hidden keys as strings under
/// `hidden_components`.
pub open spec fn display_nbt_form(hide: bool, keys: Seq<Seq<char>>, tag: NbtTag) -> bool {
    &&& tag matches NbtTag::Compound(es)
    &&& compound_lookup(es@, "hide_tooltip"@) == (if hide { Some(NbtTag::Byte(1)) } else { None::<NbtTag> })
    &&& if keys.len() == 0 {
        compound_lookup(es@, "hidden_components"@) is None
    } else {
        compound_lookup(es@, "hidden_components"@) matches Some(NbtTag::List(items))
            && items@.len() == keys.len()
            && forall|i: int| 0 <= i < items@.len() ==>
                (#[trigger] items@[i] matches NbtTag::String(k) && k@ == keys[i])
    }
}

/// Whether a display hiding `keys` fits the network form over `entries`: no
/// key twice, a count that fits an `i32`, and each key registered under an id
/// that fits an `i32`.
pub open spec fn display_view_encodable(keys: Seq<Seq<char>>, entries: Seq<ComponentEntry>) -> bool {
    &&& no_duplicates(keys)
    &&& keys.len() <= i32::MAX
    &&& forall|i: int| 0 <= i < keys.len() ==> #[trigger] registry_has_key(entries, keys[i])
        && registry_id(entries, keys[i]) <= i32::MAX
}

/// The network form of a display with flag `hide` hiding `keys`.
pub open spec fn display_view_bytes(hide: bool, keys: Seq<Seq<char>>, entries: Seq<ComponentEntry>) -> Seq<u8> {
    seq![bool_byte(hide)] + varint_bytes(keys.len() as i32) + concat_map(keys, id_item(entries))
}

/// Whether the persistent form of a display hiding `keys` reads back over
/// `entries`: each key registered and written as its canonical identifier.
pub open spec fn display_nbt_round_trips(keys: Seq<Seq<char>>, entries: Seq<ComponentEntry>) -> bool {
    &&& no_duplicates(keys)
    &&& forall|i: int| 0 <= i < keys.len() ==> #[trigger] registry_has_key(entries, keys[i])
        && spec_parse_identifier(keys[i]) == Some(keys[i])
}

/// Law: the network form of a display that fits it reads back as the same
/// flag and keys.
pub proof fn lemma_display_view_round_trip(pre: Seq<u8>, hide: bool, keys: Seq<Seq<char>>, entries: Seq<ComponentEntry>, rest: Seq<u8>)
    requires
        display_view_encodable(keys, entries),
    ensures
        TooltipDisplay::spec_read(pre + display_view_bytes(hide, keys, entries) + rest, pre.len() as int, entries)
            == Ok::<(bool, Seq<Seq<char>>, int), WireError>((hide, keys,
                (pre.len() + display_view_bytes(hide, keys, entries).len()) as int)),
{
    let f = id_item(entries);
    let r = id_reader(entries);
    let body = concat_map(keys, f);
    let cnt = varint_bytes(keys.len() as i32);
    let hb = seq![bool_byte(hide)];
    let s = pre + display_view_bytes(hide, keys, entries) + rest;
    let pre1 = pre + hb;
    let pre2 = pre1 + cnt;
    assert(s =~= pre + hb + (cnt + body + rest));
    lemma_bool_round_trip(pre, hide, cnt + body + rest);
    assert(s =~= pre1 + cnt + (body + rest));
    lemma_bounded_count_round_trip(pre1, keys.len() as int, i32::MAX as int, body + rest);
    assert(s =~= pre2 + body + rest);
    assert forall|i: int, p: Seq<u8>, q: Seq<u8>| 0 <= i < keys.len() implies
        #[trigger] r(p + f(keys[i]) + q, p.len() as int) == Ok::<(Seq<char>, int), WireError>((keys[i], (p.len() + f(keys[i]).len()) as int)) by {
        assert(registry_has_key(entries, keys[i]) && registry_id(entries, keys[i]) <= i32::MAX);
        lemma_id_round_trip(entries, keys[i], p, q);
    }
    lemma_read_seq_round_trip(pre2, keys, rest, f, r);
    lemma_dedup_first_no_duplicates(keys);
}

/// The network id of a registered key, as a `VarInt`.
pub open spec fn id_item(entries: Seq<ComponentEntry>) -> spec_fn(Seq<char>) -> Seq<u8> {
    |k: Seq<char>| varint_bytes(registry_id(entries, k) as i32)
}

/// Reads a registered network id and gives its key.
pub open spec fn id_reader(entries: Seq<ComponentEntry>) -> spec_fn(Seq<u8>, int) -> Result<(Seq<char>, int), WireError> {
    |s: Seq<u8>, pos: int| match spec_read_non_negative_varint(s, pos) {
        Err(e) => Err(e),
        Ok((id, end)) => if id < entries.len() {
            Ok((entries[id].key@, end))
        } else {
            Err(WireError::Invalid)
        },
    }
}

/// A sequence without duplicates is its own first-occurrence dedup.
pub proof fn lemma_dedup_first_no_duplicates(s: Seq<Seq<char>>)
    requires
        no_duplicates(s),
    ensures
        dedup_first(s) == s,
    decreases s.len(),
{
    if s.len() > 0 {
        let init = s.drop_last();
        assert(no_duplicates(init));
        lemma_dedup_first_no_duplicates(init);
        if init.contains(s.last()) {
            let j = choose|j: int| 0 <= j < init.len() && init[j] == s.last();
            assert(s[j] != s[s.len() - 1]);
        }
        assert(init.push(s.last()) =~= s);
    }
}

/// A registered key's network id reads back as the key.
pub proof fn lemma_id_round_trip(entries: Seq<ComponentEntry>, k: Seq<char>, p: Seq<u8>, q: Seq<u8>)
    requires
        registry_has_key(entries, k),
        registry_id(entries, k) <= i32::MAX,
    ensures
        id_reader(entries)(p + id_item(entries)(k) + q, p.len() as int)
            == Ok::<(Seq<char>, int), WireError>((k, (p.len() + id_item(entries)(k).len()) as int)),
{
    let id = registry_id(entries, k);
    assert(0 <= id < entries.len() && entries[id].key@ == k);
    lemma_bounded_count_round_trip(p, id, i32::MAX as int, q);
}

/// Law: the network form of a display whose hidden components are all
/// registered reads back as the same display.
pub proof fn lemma_network_round_trip(pre: Seq<u8>, d: TooltipDisplay, entries: Seq<ComponentEntry>, rest: Seq<u8>)
    requires
        d.wf(),
        d.encodable(entries),
    ensures
        TooltipDisplay::spec_read(pre + d.spec_bytes(entries) + rest, pre.len() as int, entries)
            == Ok::<(bool, Seq<Seq<char>>, int), WireError>((d.spec_hide_tooltip(), d.spec_hidden(),
                (pre.len() + d.spec_bytes(entries).len()) as int)),
{
    let keys = d.spec_hidden();
    let f = id_item(entries);
    let r = id_reader(entries);
    let body = concat_map(keys, f);
    let cnt = varint_bytes(keys.len() as i32);
    let hb = seq![bool_byte(d.spec_hide_tooltip())];
    let s = pre + d.spec_bytes(entries) + rest;
    let pre1 = pre + hb;
    let pre2 = pre1 + cnt;
    assert(s == pre + hb + (cnt + body + rest)) by {
        assert(s =~= pre + hb + (cnt + body + rest));
    }
    lemma_bool_round_trip(pre, d.spec_hide_tooltip(), cnt + body + rest);
    assert(s == pre1 + cnt + (body + rest)) by {
        assert(s =~= pre1 + cnt + (body + rest));
    }
    lemma_bounded_count_round_trip(pre1, keys.len() as int, i32::MAX as int, body + rest);
    assert(s == pre2 + body + rest) by {
        assert(s =~= pre2 + body + rest);
    }
    assert forall|i: int, p: Seq<u8>, q: Seq<u8>| 0 <= i < keys.len() implies
        #[trigger] r(p + f(keys[i]) + q, p.len() as int) == Ok::<(Seq<char>, int), WireError>((keys[i], (p.len() + f(keys[i]).len()) as int)) by {
        assert(registry_has_key(entries, d.spec_hidden()[i]));
        lemma_id_round_trip(entries, keys[i], p, q);
    }
    lemma_read_seq_round_trip(pre2, keys, rest, f, r);
    lemma_dedup_first_no_duplicates(keys);
}

/// Law: hiding a component hides its lines; showing it again shows them
/// unless the whole tooltip is hidden.
pub proof fn lemma_hide_then_show(d: TooltipDisplay, hidden: TooltipDisplay, shown: TooltipDisplay, key: Seq<char>)
    requires
        d.wf(),
        hidden.spec_hide_tooltip() == d.spec_hide_tooltip(),
        hidden.spec_hidden() == (if d.spec_hidden().contains(key) { d.spec_hidden() } else { d.spec_hidden().push(key) }),
        hidden.wf(),
        shown.spec_hide_tooltip() == hidden.spec_hide_tooltip(),
        shown.spec_hidden() == (if hidden.spec_hidden().contains(key) {
            hidden.spec_hidden().remove(position_of(hidden.spec_hidden(), key))
        } else {
            hidden.spec_hidden()
        }),
    ensures
        hidden.spec_hidden().contains(key),
        !shown.spec_hidden().contains(key),
{
    if !d.spec_hidden().contains(key) {
        assert(hidden.spec_hidden()[d.spec_hidden().len() as int] == key);
    }
    let h = hidden.spec_hidden();
    let p = position_of(h, key);
    assert(0 <= p < h.len() && h[p] == key) by {
        let w = choose|i: int| 0 <= i < h.len() && h[i] == key;
    }
    if shown.spec_hidden().contains(key) {
        let q = choose|i: int| 0 <= i < shown.spec_hidden().len() && shown.spec_hidden()[i] == key;
        let q2 = if q < p { q } else { q + 1 };
        assert(h[q2] == key);
        if q2 < p {
            assert(h[q2] != h[p]);
        } else {
            assert(h[p] != h[q2]);
        }
    }
}

} // verus!
