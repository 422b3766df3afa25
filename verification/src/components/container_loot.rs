//! The `minecraft:container_loot` item component.

use vstd::prelude::*;
use crate::identifier::{parse_identifier, spec_parse_identifier};
use crate::nbt::{
    NbtTag, codec_i64, compound_get, compound_lookup, entry, lemma_compound_lookup_push, spec_codec_i64,
};

verus! {

/// A loot table's resource key and the seed that makes its roll repeatable
/// (zero: no fixed seed).
#[derive(Debug, Clone, PartialEq, Eq)]
pub struct SeededContainerLoot {
    loot_table: String,
    seed: i64,
}

impl SeededContainerLoot {
    /// The loot table's key.
    pub closed spec fn spec_loot_table(self) -> Seq<char> {
        self.loot_table@
    }

    /// The seed.
    pub closed spec fn spec_seed(self) -> i64 {
        self.seed
    }

    /// Loot from `loot_table` rolled with `seed`.
    pub fn new(loot_table: String, seed: i64) -> (res: Self)
        ensures
            res.spec_loot_table() == loot_table@,
            res.spec_seed() == seed,
    {
        SeededContainerLoot { loot_table, seed }
    }

    /// The loot table's key.
    pub fn loot_table(&self) -> (res: &str)
        ensures
            res@ == self.spec_loot_table(),
    {
        self.loot_table.as_str()
    }

    /// The seed.
    pub fn seed(&self) -> (res: i64)
        ensures
            res == self.spec_seed(),
    {
        self.seed
    }

    /// `tag` is the persistent form: a compound with the loot table's key
    /// under `loot_table` and, unless it is zero, the seed as a long under
    /// `seed`.
    pub open spec fn is_nbt_form(self, tag: NbtTag) -> bool {
        &&& tag matches NbtTag::Compound(es)
        &&& compound_lookup(es@, "loot_table"@) matches Some(NbtTag::String(k)) && k@ == self.spec_loot_table()
        &&& compound_lookup(es@, "seed"@) == (if self.spec_seed() == 0 { None::<NbtTag> } else { Some(NbtTag::Long(self.spec_seed())) })
    }

    /// The persistent form.
    pub fn to_nbt_tag(&self) -> (res: NbtTag)
        ensures
            self.is_nbt_form(res),
    {
        proof {
            reveal_strlit("loot_table");
            reveal_strlit("seed");
            assert("loot_table"@.len() != "seed"@.len());
        }
        let mut es: Vec<(String, NbtTag)> = Vec::new();
        let e = entry("loot_table", NbtTag::String(self.loot_table.clone()));
        proof {
            lemma_compound_lookup_push(es@, e, "loot_table"@);
            lemma_compound_lookup_push(es@, e, "seed"@);
        }
        es.push(e);
        if self.seed != 0 {
            let e = entry("seed", NbtTag::Long(self.seed));
            proof {
                lemma_compound_lookup_push(es@, e, "loot_table"@);
                lemma_compound_lookup_push(es@, e, "seed"@);
            }
            es.push(e);
        }
        NbtTag::Compound(es)
    }

    /// Reads the persistent form: a compound with a loot table identifier
    /// and an optional numeric seed (absent: zero), read as a `long`; no loot
    /// table registry is consulted.
    pub open spec fn spec_from_nbt(tag: NbtTag) -> Option<(Seq<char>, i64)> {
        match tag {
            NbtTag::Compound(es) => match compound_lookup(es@, "loot_table"@) {
                Some(NbtTag::String(k)) => match spec_parse_identifier(k@) {
                    Some(key) => match compound_lookup(es@, "seed"@) {
                        None => Some((key, 0i64)),
                        Some(t) => match spec_codec_i64(t) {
                            Some(seed) => Some((key, seed)),
                            None => None,
                        },
                    },
                    None => None,
                },
                _ => None,
            },
            _ => None,
        }
    }

    /// Reads the persistent form.
    pub fn from_nbt_tag(tag: &NbtTag) -> (res: Option<SeededContainerLoot>)
        ensures
            match (res, Self::spec_from_nbt(*tag)) {
                (Some(v), Some((key, seed))) => v.spec_loot_table() == key && v.spec_seed() == seed,
                (None, None) => true,
                _ => false,
            },
    {
        let es = match tag {
            NbtTag::Compound(es) => es,
            _ => return None,
        };
        let k = match compound_get(es, "loot_table") {
            Some(NbtTag::String(k)) => k,
            _ => return None,
        };
        let loot_table = match parse_identifier(k.as_str()) {
            Some(key) => key,
            None => return None,
        };
        let seed = match compound_get(es, "seed") {
            None => 0,
            Some(t) => match codec_i64(t) {
                Some(seed) => seed,
                None => return None,
            },
        };
        Some(SeededContainerLoot { loot_table, seed })
    }
}

/// Law: the persistent form of loot whose table key is an identifier in
/// full form reads back as the same loot.
pub proof fn lemma_nbt_round_trip(v: SeededContainerLoot, tag: NbtTag)
    requires
        v.is_nbt_form(tag),
        spec_parse_identifier(v.spec_loot_table()) == Some(v.spec_loot_table()),
    ensures
        SeededContainerLoot::spec_from_nbt(tag) == Some((v.spec_loot_table(), v.spec_seed())),
{
}

} // verus!
