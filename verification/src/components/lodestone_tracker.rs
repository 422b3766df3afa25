//! The `minecraft:lodestone_tracker` item component.

use vstd::prelude::*;
use crate::identifier::{parse_identifier, spec_parse_identifier};
use crate::nbt::{
    NbtTag, codec_bool, compound_get, compound_lookup, entry, int_list_from_nbt, lemma_compound_lookup_push,
    spec_codec_bool, spec_int_list_from_nbt,
};

verus! {

/// A block position.
#[derive(Debug, Clone, Copy, PartialEq, Eq, Structural)]
pub struct BlockPos {
    pub x: i32,
    pub y: i32,
    pub z: i32,
}

/// A block position in a dimension, known by its resource key.
#[derive(Debug, Clone, PartialEq, Eq)]
pub struct GlobalPos {
    dimension: String,
    pos: BlockPos,
}

impl GlobalPos {
    /// The dimension's key.
    pub closed spec fn spec_dimension(self) -> Seq<char> {
        self.dimension@
    }

    /// The position.
    pub closed spec fn spec_pos(self) -> BlockPos {
        self.pos
    }

    /// `pos` in the dimension `dimension`.
    pub fn new(dimension: String, pos: BlockPos) -> (res: Self)
        ensures
            res.spec_dimension() == dimension@,
            res.spec_pos() == pos,
    {
        GlobalPos { dimension, pos }
    }

    /// The dimension's key.
    pub fn dimension(&self) -> (res: &str)
        ensures
            res@ == self.spec_dimension(),
    {
        self.dimension.as_str()
    }

    /// The position.
    pub fn pos(&self) -> (res: BlockPos)
        ensures
            res == self.spec_pos(),
    {
        self.pos
    }

    /// `es` is the persistent compound: the dimension's key under
    /// `dimension`, the coordinates as an int array under `pos`.
    pub open spec fn is_nbt_entries(self, es: Seq<(String, NbtTag)>) -> bool {
        &&& compound_lookup(es, "dimension"@) matches Some(NbtTag::String(d)) && d@ == self.spec_dimension()
        &&& compound_lookup(es, "pos"@) matches Some(NbtTag::IntArray(v))
            && v@ == seq![self.spec_pos().x, self.spec_pos().y, self.spec_pos().z]
    }

    /// The persistent compound.
    pub fn to_nbt_entries(&self) -> (res: Vec<(String, NbtTag)>)
        ensures
            self.is_nbt_entries(res@),
    {
        proof {
            reveal_strlit("dimension");
            reveal_strlit("pos");
            assert("dimension"@.len() != "pos"@.len());
        }
        let mut es: Vec<(String, NbtTag)> = Vec::new();
        let e = entry("dimension", NbtTag::String(self.dimension.clone()));
        proof {
            lemma_compound_lookup_push(es@, e, "dimension"@);
            lemma_compound_lookup_push(es@, e, "pos"@);
        }
        es.push(e);
        let coords = vec![self.pos.x, self.pos.y, self.pos.z];
        assert(coords@ =~= seq![self.pos.x, self.pos.y, self.pos.z]);
        let e = entry("pos", NbtTag::IntArray(coords));
        proof {
            lemma_compound_lookup_push(es@, e, "dimension"@);
            lemma_compound_lookup_push(es@, e, "pos"@);
        }
        es.push(e);
        es
    }

    /// Reads the persistent compound: a dimension identifier and exactly
    /// three coordinates, as an int array or a list of numbers.
    pub open spec fn spec_from_nbt_entries(es: Seq<(String, NbtTag)>) -> Option<(Seq<char>, BlockPos)> {
        match compound_lookup(es, "dimension"@) {
            Some(NbtTag::String(d)) => match spec_parse_identifier(d@) {
                Some(dimension) => match compound_lookup(es, "pos"@) {
                    Some(t) => match spec_int_stream(t) {
                        Some(v) => if v.len() == 3 {
                            Some((dimension, BlockPos { x: v[0], y: v[1], z: v[2] }))
                        } else {
                            None
                        },
                        None => None,
                    },
                    None => None,
                },
                None => None,
            },
            _ => None,
        }
    }

    /// Reads the persistent compound.
    pub fn from_nbt_entries(es: &Vec<(String, NbtTag)>) -> (res: Option<GlobalPos>)
        ensures
            match (res, Self::spec_from_nbt_entries(es@)) {
                (Some(g), Some((d, p))) => g.spec_dimension() == d && g.spec_pos() == p,
                (None, None) => true,
                _ => false,
            },
    {
        let d = match compound_get(es, "dimension") {
            Some(NbtTag::String(d)) => d,
            _ => return None,
        };
        let dimension = match parse_identifier(d.as_str()) {
            Some(dimension) => dimension,
            None => return None,
        };
        let t = match compound_get(es, "pos") {
            Some(t) => t,
            None => return None,
        };
        let v = match int_stream_from_nbt(t) {
            Some(v) => v,
            None => return None,
        };
        if v.len() != 3 {
            return None;
        }
        Some(GlobalPos { dimension, pos: BlockPos { x: v[0], y: v[1], z: v[2] } })
    }
}

/// The compound key of the tracking flag.
pub open spec fn tracking_key() -> Seq<char> {
    seq!['t', 'r', 'a', 'c', 'k', 'e', 'd']
}

/// The compound key of the tracking flag.
pub fn tracking_key_string() -> (res: String)
    ensures
        res@ == tracking_key(),
{
    proof {
        reveal_strlit("track");
        reveal_strlit("ed");
    }
    let res = String::from_str("track").concat("ed");
    assert(res@ =~= tracking_key());
    res
}

/// The integers of an int array, or of a list of numbers each read as an
/// `int`.
pub open spec fn spec_int_stream(tag: NbtTag) -> Option<Seq<i32>> {
    match tag {
        NbtTag::IntArray(v) => Some(v@),
        NbtTag::List(_) => spec_int_list_from_nbt(tag),
        _ => None,
    }
}

/// The integers of an int array, or of a list of numbers.
pub fn int_stream_from_nbt(tag: &NbtTag) -> (res: Option<Vec<i32>>)
    ensures
        match res {
            Some(v) => spec_int_stream(*tag) == Some(v@),
            None => spec_int_stream(*tag) is None,
        },
{
    match tag {
        NbtTag::IntArray(v) => Some(v.clone()),
        NbtTag::List(_) => int_list_from_nbt(tag),
        _ => None,
    }
}

/// An optional lodestone target, and whether the game keeps checking that
/// the lodestone is still there.
#[derive(Debug, Clone, PartialEq, Eq)]
pub struct LodestoneTracker {
    target: Option<GlobalPos>,
    is_tracked: bool,
}

impl LodestoneTracker {
    /// The target.
    pub closed spec fn spec_target(self) -> Option<GlobalPos> {
        self.target
    }

    /// Whether the game keeps checking the target.
    pub closed spec fn spec_tracked(self) -> bool {
        self.is_tracked
    }

    /// A tracker with the given target.
    pub fn new(target: Option<GlobalPos>, is_tracked: bool) -> (res: Self)
        ensures
            res.spec_target() == target,
            res.spec_tracked() == is_tracked,
    {
        LodestoneTracker { target, is_tracked }
    }

    /// The target.
    pub fn target(&self) -> (res: Option<&GlobalPos>)
        ensures
            match res {
                Some(g) => self.spec_target() == Some(*g),
                None => self.spec_target() is None,
            },
    {
        match &self.target {
            Some(g) => Some(g),
            None => None,
        }
    }

    /// Whether the game keeps checking the target.
    pub fn is_tracked(&self) -> (res: bool)
        ensures
            res == self.spec_tracked(),
    {
        self.is_tracked
    }

    /// `tag` is the persistent form: a compound with the target's compound
    /// under `target`, if there is one, and a false byte under the tracking
    /// key when the game does not keep checking the target.
    pub open spec fn is_nbt_form(self, tag: NbtTag) -> bool {
        &&& tag matches NbtTag::Compound(es)
        &&& match self.spec_target() {
            Some(g) => compound_lookup(es@, "target"@) matches Some(NbtTag::Compound(t)) && g.is_nbt_entries(t@),
            None => compound_lookup(es@, "target"@) is None,
        }
        &&& compound_lookup(es@, tracking_key()) == (if self.spec_tracked() { None::<NbtTag> } else { Some(NbtTag::Byte(0)) })
    }

    /// The persistent form.
    pub fn to_nbt_tag(&self) -> (res: NbtTag)
        ensures
            self.is_nbt_form(res),
    {
        proof {
            reveal_strlit("target");
            reveal_strlit("track");
            reveal_strlit("ed");
            assert("target"@[1] != tracking_key()[1]);
            assert("target"@.len() != tracking_key().len());
        }
        let mut es: Vec<(String, NbtTag)> = Vec::new();
        match &self.target {
            Some(g) => {
                let e = entry("target", NbtTag::Compound(g.to_nbt_entries()));
                proof {
                    lemma_compound_lookup_push(es@, e, "target"@);
                    lemma_compound_lookup_push(es@, e, tracking_key());
                }
                es.push(e);
            },
            None => {},
        }
        if !self.is_tracked {
            let key = tracking_key_string();
            let e = entry(key.as_str(), NbtTag::Byte(0));
            proof {
                lemma_compound_lookup_push(es@, e, "target"@);
                lemma_compound_lookup_push(es@, e, tracking_key());
            }
            es.push(e);
        }
        NbtTag::Compound(es)
    }

    /// Reads the persistent form: a compound whose optional `target` is a
    /// position compound and whose optional tracking flag is a boolean
    /// (absent: true).
    pub open spec fn spec_from_nbt(tag: NbtTag) -> Option<(Option<(Seq<char>, BlockPos)>, bool)> {
        match tag {
            NbtTag::Compound(es) => {
                let target = match compound_lookup(es@, "target"@) {
                    None => Some(None::<(Seq<char>, BlockPos)>),
                    Some(NbtTag::Compound(t)) => match GlobalPos::spec_from_nbt_entries(t@) {
                        Some(g) => Some(Some(g)),
                        None => None,
                    },
                    Some(_) => None,
                };
                let is_tracked = match compound_lookup(es@, tracking_key()) {
                    None => Some(true),
                    Some(t) => spec_codec_bool(t),
                };
                match (target, is_tracked) {
                    (Some(g), Some(b)) => Some((g, b)),
                    _ => None,
                }
            },
            _ => None,
        }
    }

    /// The target as its dimension key and position.
    pub open spec fn spec_target_view(self) -> Option<(Seq<char>, BlockPos)> {
        match self.spec_target() {
            Some(g) => Some((g.spec_dimension(), g.spec_pos())),
            None => None,
        }
    }

    /// Reads the persistent form.
    pub fn from_nbt_tag(tag: &NbtTag) -> (res: Option<LodestoneTracker>)
        ensures
            match (res, Self::spec_from_nbt(*tag)) {
                (Some(t), Some((g, b))) => t.spec_target_view() == g && t.spec_tracked() == b,
                (None, None) => true,
                _ => false,
            },
    {
        let es = match tag {
            NbtTag::Compound(es) => es,
            _ => return None,
        };
        let target = match compound_get(es, "target") {
            None => None,
            Some(NbtTag::Compound(t)) => match GlobalPos::from_nbt_entries(t) {
                Some(g) => Some(g),
                None => return None,
            },
            Some(_) => return None,
        };
        let key = tracking_key_string();
        let is_tracked = match compound_get(es, key.as_str()) {
            None => true,
            Some(t) => match codec_bool(t) {
                Some(b) => b,
                None => return None,
            },
        };
        Some(LodestoneTracker { target, is_tracked })
    }
}

/// Law: the persistent form of a tracker whose dimension key is a canonical
/// identifier reads back as the same tracker.
pub proof fn lemma_nbt_round_trip(t: LodestoneTracker, tag: NbtTag)
    requires
        t.is_nbt_form(tag),
        t.spec_target() matches Some(g) ==> spec_parse_identifier(g.spec_dimension()) == Some(g.spec_dimension()),
    ensures
        LodestoneTracker::spec_from_nbt(tag) == Some((t.spec_target_view(), t.spec_tracked())),
{
    if !t.spec_tracked() {
        assert(spec_codec_bool(NbtTag::Byte(0)) == Some(false));
    }
}

} // verus!
