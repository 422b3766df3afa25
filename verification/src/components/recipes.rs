//! The `minecraft:recipes` item component: the recipe keys a knowledge book
//! teaches.

use vstd::prelude::*;
use crate::identifier::{parse_identifier, spec_parse_identifier};
use crate::nbt::NbtTag;

verus! {

/// Recipe resource keys, in order.
#[derive(Debug, Clone, PartialEq, Eq)]
pub struct Recipes {
    keys: Vec<String>,
}

impl Default for Recipes {
    fn default() -> (res: Self)
        ensures
            res.spec_keys() == Seq::<Seq<char>>::empty(),
    {
        Recipes::empty()
    }
}

impl Recipes {
    /// The keys, in order.
    pub closed spec fn spec_keys(self) -> Seq<Seq<char>> {
        self.keys@.map_values(|k: String| k@)
    }

    /// No recipes.
    pub fn empty() -> (res: Self)
        ensures
            res.spec_keys() == Seq::<Seq<char>>::empty(),
    {
        let res = Recipes { keys: Vec::new() };
        assert(res.spec_keys() =~= Seq::<Seq<char>>::empty());
        res
    }

    /// The recipes `keys`, in order.
    pub fn new(keys: Vec<String>) -> (res: Self)
        ensures
            res.spec_keys() == keys@.map_values(|k: String| k@),
    {
        Recipes { keys }
    }

    /// The keys, in order.
    pub fn keys(&self) -> (res: &[String])
        ensures
            res@.map_values(|k: String| k@) == self.spec_keys(),
    {
        self.keys.as_slice()
    }

    /// `tag` is the persistent form: a list of the keys as strings, in order.
    pub open spec fn is_nbt_form(self, tag: NbtTag) -> bool {
        &&& tag matches NbtTag::List(items)
        &&& items@.len() == self.spec_keys().len()
        &&& forall|i: int| 0 <= i < items@.len() ==> (#[trigger] items@[i] matches NbtTag::String(k) && k@ == self.spec_keys()[i])
    }

    /// The persistent form.
    pub fn to_nbt_tag(&self) -> (res: NbtTag)
        ensures
            self.is_nbt_form(res),
    {
        let mut items: Vec<NbtTag> = Vec::new();
        let mut i: usize = 0;
        while i < self.keys.len()
            invariant
                i <= self.keys@.len(),
                items@.len() == i,
                forall|j: int| 0 <= j < i ==> (#[trigger] items@[j] matches NbtTag::String(k) && k@ == self.spec_keys()[j]),
            decreases self.keys.len() - i,
        {
            assert(self.spec_keys()[i as int] == self.keys@[i as int]@);
            items.push(NbtTag::String(self.keys[i].clone()));
            i = i + 1;
        }
        NbtTag::List(items)
    }

    /// The keys a persistent list's items give: each a string that parses as
    /// an identifier; `None` otherwise.
    pub open spec fn spec_nbt_keys(items: Seq<NbtTag>) -> Option<Seq<Seq<char>>>
        decreases items.len(),
    {
        if items.len() == 0 {
            Some(Seq::empty())
        } else {
            match items[0] {
                NbtTag::String(k) => match spec_parse_identifier(k@) {
                    Some(key) => match Self::spec_nbt_keys(items.drop_first()) {
                        Some(rest) => Some(seq![key] + rest),
                        None => None,
                    },
                    None => None,
                },
                _ => None,
            }
        }
    }

    /// Reads the persistent form: a list of identifiers; no recipe registry
    /// is consulted.
    pub open spec fn spec_from_nbt(tag: NbtTag) -> Option<Seq<Seq<char>>> {
        match tag {
            NbtTag::List(items) => Self::spec_nbt_keys(items@),
            _ => None,
        }
    }

    /// Reads the persistent form.
    pub fn from_nbt_tag(tag: &NbtTag) -> (res: Option<Recipes>)
        ensures
            match (res, Self::spec_from_nbt(*tag)) {
                (Some(r), Some(keys)) => r.spec_keys() == keys,
                (None, None) => true,
                _ => false,
            },
    {
        let items = match tag {
            NbtTag::List(items) => items,
            _ => return None,
        };
        let mut keys: Vec<String> = Vec::new();
        let mut i: usize = 0;
        assert(items@.skip(0) =~= items@);
        while i < items.len()
            invariant
                *tag == NbtTag::List(*items),
                i <= items@.len(),
                Self::spec_nbt_keys(items@) == match Self::spec_nbt_keys(items@.skip(i as int)) {
                    Some(rest) => Some(keys@.map_values(|k: String| k@) + rest),
                    None => None::<Seq<Seq<char>>>,
                },
            decreases items.len() - i,
        {
            let ghost cur = items@.skip(i as int);
            assert(cur.drop_first() =~= items@.skip(i + 1));
            assert(cur[0] == items@[i as int]);
            let k = match &items[i] {
                NbtTag::String(k) => k,
                _ => return None,
            };
            let key = match parse_identifier(k.as_str()) {
                Some(key) => key,
                None => return None,
            };
            proof {
                let tail = Self::spec_nbt_keys(items@.skip(i + 1));
                match tail {
                    Some(rest) => {
                        assert(keys@.map_values(|k: String| k@) + (seq![key@] + rest)
                            =~= keys@.push(key).map_values(|k: String| k@) + rest);
                    },
                    None => {},
                }
            }
            keys.push(key);
            i = i + 1;
        }
        assert(items@.skip(i as int) =~= Seq::<NbtTag>::empty());
        assert(keys@.map_values(|k: String| k@) + Seq::<Seq<char>>::empty() =~= keys@.map_values(|k: String| k@));
        Some(Recipes { keys })
    }
}

/// The items of a list of canonical identifiers read back as those keys.
pub proof fn lemma_nbt_keys_round_trip(items: Seq<NbtTag>, keys: Seq<Seq<char>>)
    requires
        items.len() == keys.len(),
        forall|i: int| 0 <= i < items.len() ==> (#[trigger] items[i] matches NbtTag::String(k) && k@ == keys[i]),
        forall|i: int| 0 <= i < keys.len() ==> spec_parse_identifier(#[trigger] keys[i]) == Some(keys[i]),
    ensures
        Recipes::spec_nbt_keys(items) == Some(keys),
    decreases items.len(),
{
    if items.len() == 0 {
        assert(keys =~= Seq::<Seq<char>>::empty());
    } else {
        assert(items[0] matches NbtTag::String(k) && k@ == keys[0]);
        assert(spec_parse_identifier(keys[0]) == Some(keys[0]));
        let tail = keys.drop_first();
        assert forall|i: int| 0 <= i < items.drop_first().len() implies
            (#[trigger] items.drop_first()[i] matches NbtTag::String(k) && k@ == tail[i]) by {
            assert(items[i + 1] matches NbtTag::String(k) && k@ == keys[i + 1]);
        }
        assert forall|i: int| 0 <= i < tail.len() implies spec_parse_identifier(#[trigger] tail[i]) == Some(tail[i]) by {
            assert(spec_parse_identifier(keys[i + 1]) == Some(keys[i + 1]));
        }
        lemma_nbt_keys_round_trip(items.drop_first(), tail);
        assert(seq![keys[0]] + tail =~= keys);
    }
}

/// Law: the persistent form of recipes whose keys are canonical identifiers
/// reads back as the same keys.
pub proof fn lemma_nbt_round_trip(r: Recipes, tag: NbtTag)
    requires
        r.is_nbt_form(tag),
        forall|i: int| 0 <= i < r.spec_keys().len() ==> spec_parse_identifier(#[trigger] r.spec_keys()[i]) == Some(r.spec_keys()[i]),
    ensures
        Recipes::spec_from_nbt(tag) == Some(r.spec_keys()),
{
    lemma_nbt_keys_round_trip(tag->List_0@, r.spec_keys());
}

} // verus!
