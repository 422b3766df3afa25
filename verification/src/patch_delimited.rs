//! The delimited network form of a component patch, read from untrusted
//! clients: each set component's value carries its byte length, and the
//! sizes are bounded.

use vstd::prelude::*;
use crate::component_data::{ComponentData, DataView};
use crate::patch::{
    DataComponentPatch, DataComponentRegistry, ComponentEntry, EntryView, apply_entries,
    removed_item_reader,
};
use crate::wire::{
    WireError, lemma_prepend_items_assoc, prepend_items, read_non_negative_varint,
    spec_read_non_negative_varint, spec_read_seq,
};

verus! {

/// The most components, set and removed together, a delimited patch holds.
pub const MAX_DELIMITED_COMPONENTS: u64 = 65_536;

/// The most bytes one delimited component value takes.
pub const MAX_DELIMITED_COMPONENT_BYTES: usize = 2_097_152;

/// Reads a delimited set component: its id, the byte length of its value,
/// and the value, read from those bytes alone; reading goes on after them.
pub open spec fn delimited_value_item_reader(entries: Seq<ComponentEntry>) -> spec_fn(Seq<u8>, int) -> Result<((Seq<char>, EntryView), int), WireError> {
    |s: Seq<u8>, pos: int| match spec_read_non_negative_varint(s, pos) {
        Err(e) => Err(e),
        Ok((id, p1)) => match spec_read_non_negative_varint(s, p1) {
            Err(e) => Err(e),
            Ok((len, p2)) => if len > MAX_DELIMITED_COMPONENT_BYTES {
                Err(WireError::TooMany)
            } else if id >= entries.len() {
                Err(WireError::Invalid)
            } else if p2 + len > s.len() {
                Err(WireError::UnexpectedEnd)
            } else {
                match DataView::spec_read(entries[id].kind, s.subrange(p2, p2 + len), 0, entries) {
                    Ok((d, _)) => Ok(((entries[id].key@, EntryView::Value(d)), p2 + len)),
                    Err(e) => Err(e),
                }
            },
        },
    }
}

/// Reads the delimited network form over the registry `entries`: the counts
/// of set and removed components, refused above 65,536 together, then the set
/// components, each delimited, then the removed ids; later entries for a key
/// replace earlier ones.
pub open spec fn spec_read_delimited(s: Seq<u8>, pos: int, entries: Seq<ComponentEntry>) -> Result<(Map<Seq<char>, EntryView>, int), WireError> {
    match spec_read_non_negative_varint(s, pos) {
        Err(e) => Err(e),
        Ok((added, p1)) => match spec_read_non_negative_varint(s, p1) {
            Err(e) => Err(e),
            Ok((removed, p2)) => if added + removed > MAX_DELIMITED_COMPONENTS {
                Err(WireError::TooMany)
            } else {
                spec_read_delimited_items(s, p2, added as nat, removed as nat, entries)
            },
        },
    }
}

/// The part of a delimited patch read that follows the two counts.
pub open spec fn spec_read_delimited_items(s: Seq<u8>, p2: int, added: nat, removed: nat, entries: Seq<ComponentEntry>) -> Result<(Map<Seq<char>, EntryView>, int), WireError> {
    match spec_read_seq(s, p2, added, delimited_value_item_reader(entries)) {
        Err(e) => Err(e),
        Ok((a, p3)) => match spec_read_seq(s, p3, removed, removed_item_reader(entries)) {
            Err(e) => Err(e),
            Ok((r, end)) => Ok((apply_entries(apply_entries(Map::empty(), a), r), end)),
        },
    }
}

impl DataComponentPatch {
    /// Reads one delimited set component at `pos` over `registry`.
    fn read_delimited_value(data: &[u8], pos: usize, registry: &DataComponentRegistry) -> (res: Result<((String, ComponentData), usize), WireError>)
        ensures
            match (res, delimited_value_item_reader(registry.spec_entries())(data@, pos as int)) {
                (Ok(((k, d), end)), Ok((x, send))) => x == (k@, EntryView::Value(d@)) && end == send,
                (Err(e), Err(se)) => e == se,
                _ => false,
            },
    {
        let (id, p1) = read_non_negative_varint(data, pos)?;
        let (len, p2) = read_non_negative_varint(data, p1)?;
        if len > MAX_DELIMITED_COMPONENT_BYTES {
            return Err(WireError::TooMany);
        }
        let entry = match registry.by_id(id) {
            Some(entry) => entry,
            None => return Err(WireError::Invalid),
        };
        if p2 > data.len() || len > data.len() - p2 {
            return Err(WireError::UnexpectedEnd);
        }
        let value_bytes = vstd::slice::slice_subrange(data, p2, p2 + len);
        let (d, _) = ComponentData::read(entry.kind, value_bytes, 0, registry)?;
        Ok(((entry.key.clone(), d), p2 + len))
    }

    /// Reads the delimited network form over `registry`, the form read from
    /// untrusted clients: at most 65,536 components in all, each set
    /// component's value prefixed with its byte length of at most 2 MiB.
    #[verifier::rlimit(60)]
    pub fn read_delimited(data: &[u8], pos: usize, registry: &DataComponentRegistry) -> (res: Result<(DataComponentPatch, usize), WireError>)
        ensures
            match (res, spec_read_delimited(data@, pos as int, registry.spec_entries())) {
                (Ok((p, end)), Ok((m, send))) => p.wf() && p@ == m && end == send,
                (Err(e), Err(se)) => e == se,
                _ => false,
            },
    {
        let ghost es = registry.spec_entries();
        let (added, p1) = read_non_negative_varint(data, pos)?;
        let (removed, p2) = read_non_negative_varint(data, p1)?;
        if added as u64 + removed as u64 > MAX_DELIMITED_COMPONENTS {
            return Err(WireError::TooMany);
        }
        let ghost ra = delimited_value_item_reader(es);
        let ghost rr = removed_item_reader(es);
        assert(spec_read_delimited(data@, pos as int, es) == spec_read_delimited_items(data@, p2 as int, added as nat, removed as nat, es));
        let mut patch = DataComponentPatch::new();
        let ghost mut got: Seq<(Seq<char>, EntryView)> = Seq::empty();
        let mut cur = p2;
        let mut i: usize = 0;
        assert(got + Seq::<(Seq<char>, EntryView)>::empty() =~= got);
        while i < added
            invariant
                i <= added,
                es == registry.spec_entries(),
                ra == delimited_value_item_reader(es),
                spec_read_delimited(data@, pos as int, es) == spec_read_delimited_items(data@, p2 as int, added as nat, removed as nat, es),
                patch.wf(),
                patch@ == apply_entries(Map::empty(), got),
                spec_read_seq(data@, p2 as int, added as nat, ra) == prepend_items(got, spec_read_seq(data@, cur as int, (added - i) as nat, ra)),
            decreases added - i,
        {
            let ghost rest = spec_read_seq(data@, cur as int, (added - i) as nat, ra);
            let ((key, d), end) = match Self::read_delimited_value(data, cur, registry) {
                Ok(r) => r,
                Err(e) => {
                    assert(rest == Err::<(Seq<(Seq<char>, EntryView)>, int), WireError>(e));
                    return Err(e);
                },
            };
            let ghost x = (key@, EntryView::Value(d@));
            proof {
                assert(ra(data@, cur as int) == Ok::<((Seq<char>, EntryView), int), WireError>((x, end as int)));
                let tail = spec_read_seq(data@, end as int, (added - i - 1) as nat, ra);
                assert(rest == prepend_items(seq![x], tail));
                lemma_prepend_items_assoc(got, seq![x], tail);
                assert(got + seq![x] =~= got.push(x));
                assert(got.push(x).drop_last() =~= got);
            }
            patch.set(key.as_str(), d);
            proof {
                got = got.push(x);
            }
            cur = end;
            i = i + 1;
        }
        let ghost got_a = got;
        let p3 = cur;
        assert(spec_read_seq(data@, p2 as int, added as nat, ra) == Ok::<(Seq<(Seq<char>, EntryView)>, int), WireError>((got_a, p3 as int))) by {
            assert(got_a + Seq::<(Seq<char>, EntryView)>::empty() =~= got_a);
        }
        proof {
            got = Seq::empty();
        }
        let mut i: usize = 0;
        assert(got + Seq::<(Seq<char>, EntryView)>::empty() =~= got);
        assert(apply_entries(apply_entries(Map::empty(), got_a), got) == apply_entries(Map::empty(), got_a));
        while i < removed
            invariant
                i <= removed,
                es == registry.spec_entries(),
                rr == removed_item_reader(es),
                spec_read_delimited(data@, pos as int, es) == match spec_read_seq(data@, p3 as int, removed as nat, rr) {
                    Err(e) => Err(e),
                    Ok((r, end)) => Ok((apply_entries(apply_entries(Map::empty(), got_a), r), end)),
                },
                patch.wf(),
                patch@ == apply_entries(apply_entries(Map::empty(), got_a), got),
                spec_read_seq(data@, p3 as int, removed as nat, rr) == prepend_items(got, spec_read_seq(data@, cur as int, (removed - i) as nat, rr)),
            decreases removed - i,
        {
            let ghost rest = spec_read_seq(data@, cur as int, (removed - i) as nat, rr);
            let (id, next) = match read_non_negative_varint(data, cur) {
                Ok(r) => r,
                Err(e) => {
                    assert(rr(data@, cur as int) == Err::<((Seq<char>, EntryView), int), WireError>(e));
                    assert(rest == Err::<(Seq<(Seq<char>, EntryView)>, int), WireError>(e));
                    return Err(e);
                },
            };
            let key = match registry.get_key_by_id(id) {
                Some(key) => key,
                None => {
                    assert(rr(data@, cur as int) == Err::<((Seq<char>, EntryView), int), WireError>(WireError::Invalid));
                    assert(rest == Err::<(Seq<(Seq<char>, EntryView)>, int), WireError>(WireError::Invalid));
                    return Err(WireError::Invalid);
                },
            };
            let ghost x = (key@, EntryView::Removed);
            proof {
                assert(rr(data@, cur as int) == Ok::<((Seq<char>, EntryView), int), WireError>((x, next as int)));
                let tail = spec_read_seq(data@, next as int, (removed - i - 1) as nat, rr);
                assert(rest == prepend_items(seq![x], tail));
                lemma_prepend_items_assoc(got, seq![x], tail);
                assert(got + seq![x] =~= got.push(x));
                assert(got.push(x).drop_last() =~= got);
            }
            patch.remove(key.as_str());
            proof {
                got = got.push(x);
            }
            cur = next;
            i = i + 1;
        }
        assert(spec_read_seq(data@, p3 as int, removed as nat, rr) == Ok::<(Seq<(Seq<char>, EntryView)>, int), WireError>((got, cur as int))) by {
            assert(got + Seq::<(Seq<char>, EntryView)>::empty() =~= got);
        }
        Ok((patch, cur))
    }
}

} // verus!
