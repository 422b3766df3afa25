//! The `minecraft:firework_explosion` and `minecraft:fireworks` item components.

use vstd::prelude::*;
use crate::nbt::{
    NbtTag, codec_bool, codec_i32, compound_get, compound_lookup, entry, int_list_from_nbt,
    int_list_tag, is_int_list_tag, lemma_compound_lookup_push, lemma_int_list_tag_round_trip,
    spec_codec_bool, spec_codec_i32, spec_int_list_from_nbt,
};
use crate::wire::{
    WireError, bool_byte, concat_map, int_list_bytes, lemma_bool_round_trip,
    lemma_bounded_count_round_trip, lemma_concat_map_push, lemma_int_list_round_trip,
    lemma_prepend_items_assoc, lemma_read_seq_round_trip, lemma_varint_round_trip, prepend_items,
    read_bool, read_bounded_count, read_int_list, read_varint, spec_read_bool,
    spec_read_bounded_count, spec_read_int_list, spec_read_seq, spec_read_varint, varint_bytes,
    write_bool, write_int_list, write_varint, str_equals,
};

verus! {

/// The shape a firework explosion draws.
#[derive(Debug, Clone, Copy, PartialEq, Eq, Structural)]
pub enum FireworkExplosionShape {
    SmallBall,
    LargeBall,
    Star,
    Creeper,
    Burst,
}

impl Default for FireworkExplosionShape {
    fn default() -> (res: Self)
        ensures
            res == FireworkExplosionShape::SmallBall,
    {
        FireworkExplosionShape::SmallBall
    }
}

impl FireworkExplosionShape {
    /// The network id of the shape.
    pub open spec fn spec_id(self) -> i32 {
        match self {
            FireworkExplosionShape::SmallBall => 0,
            FireworkExplosionShape::LargeBall => 1,
            FireworkExplosionShape::Star => 2,
            FireworkExplosionShape::Creeper => 3,
            FireworkExplosionShape::Burst => 4,
        }
    }

    /// The name of the shape in the persistent form.
    pub open spec fn spec_serialized_name(self) -> Seq<char> {
        match self {
            FireworkExplosionShape::SmallBall => "small_ball"@,
            FireworkExplosionShape::LargeBall => "large_ball"@,
            FireworkExplosionShape::Star => "star"@,
            FireworkExplosionShape::Creeper => "creeper"@,
            FireworkExplosionShape::Burst => "burst"@,
        }
    }

    /// The shape with network id `id`; unknown ids give the small ball.
    pub open spec fn spec_by_id(id: i32) -> FireworkExplosionShape {
        if id == 1 {
            FireworkExplosionShape::LargeBall
        } else if id == 2 {
            FireworkExplosionShape::Star
        } else if id == 3 {
            FireworkExplosionShape::Creeper
        } else if id == 4 {
            FireworkExplosionShape::Burst
        } else {
            FireworkExplosionShape::SmallBall
        }
    }

    /// The shape named `name` in the persistent form.
    pub open spec fn spec_from_serialized_name(name: Seq<char>) -> Option<FireworkExplosionShape> {
        if name == "small_ball"@ {
            Some(FireworkExplosionShape::SmallBall)
        } else if name == "large_ball"@ {
            Some(FireworkExplosionShape::LargeBall)
        } else if name == "star"@ {
            Some(FireworkExplosionShape::Star)
        } else if name == "creeper"@ {
            Some(FireworkExplosionShape::Creeper)
        } else if name == "burst"@ {
            Some(FireworkExplosionShape::Burst)
        } else {
            None
        }
    }

    /// The network id of the shape.
    pub fn id(self) -> (res: i32)
        ensures
            res == self.spec_id(),
            self == FireworkExplosionShape::SmallBall ==> res == 0,
            self == FireworkExplosionShape::LargeBall ==> res == 1,
            self == FireworkExplosionShape::Star ==> res == 2,
            self == FireworkExplosionShape::Creeper ==> res == 3,
            self == FireworkExplosionShape::Burst ==> res == 4,
    {
        match self {
            FireworkExplosionShape::SmallBall => 0,
            FireworkExplosionShape::LargeBall => 1,
            FireworkExplosionShape::Star => 2,
            FireworkExplosionShape::Creeper => 3,
            FireworkExplosionShape::Burst => 4,
        }
    }

    /// The name of the shape in the persistent form.
    pub fn serialized_name(self) -> (res: &'static str)
        ensures
            res@ == self.spec_serialized_name(),
    {
        match self {
            FireworkExplosionShape::SmallBall => "small_ball",
            FireworkExplosionShape::LargeBall => "large_ball",
            FireworkExplosionShape::Star => "star",
            FireworkExplosionShape::Creeper => "creeper",
            FireworkExplosionShape::Burst => "burst",
        }
    }

    /// The shape with network id `id`; unknown ids give the small ball.
    pub fn by_id(id: i32) -> (res: FireworkExplosionShape)
        ensures
            res == Self::spec_by_id(id),
            id == 0 ==> res == FireworkExplosionShape::SmallBall,
            id == 1 ==> res == FireworkExplosionShape::LargeBall,
            id == 2 ==> res == FireworkExplosionShape::Star,
            id == 3 ==> res == FireworkExplosionShape::Creeper,
            id == 4 ==> res == FireworkExplosionShape::Burst,
    {
        if id == 1 {
            FireworkExplosionShape::LargeBall
        } else if id == 2 {
            FireworkExplosionShape::Star
        } else if id == 3 {
            FireworkExplosionShape::Creeper
        } else if id == 4 {
            FireworkExplosionShape::Burst
        } else {
            FireworkExplosionShape::SmallBall
        }
    }

    /// The shape named `name` in the persistent form.
    fn from_serialized_name(name: &str) -> (res: Option<FireworkExplosionShape>)
        ensures
            res == Self::spec_from_serialized_name(name@),
    {
        if str_equals(name, "small_ball") {
            Some(FireworkExplosionShape::SmallBall)
        } else if str_equals(name, "large_ball") {
            Some(FireworkExplosionShape::LargeBall)
        } else if str_equals(name, "star") {
            Some(FireworkExplosionShape::Star)
        } else if str_equals(name, "creeper") {
            Some(FireworkExplosionShape::Creeper)
        } else if str_equals(name, "burst") {
            Some(FireworkExplosionShape::Burst)
        } else {
            None
        }
    }
}

/// Law: the name of a shape names that shape.
pub proof fn lemma_shape_name_round_trip(shape: FireworkExplosionShape)
    ensures
        FireworkExplosionShape::spec_from_serialized_name(shape.spec_serialized_name()) == Some(shape),
{
    reveal_strlit("small_ball");
    reveal_strlit("large_ball");
    reveal_strlit("star");
    reveal_strlit("creeper");
    reveal_strlit("burst");
    assert("large_ball"@[0] != "small_ball"@[0]);
    assert("star"@.len() != "small_ball"@.len());
    assert("star"@.len() != "large_ball"@.len());
    assert("creeper"@.len() != "small_ball"@.len());
    assert("creeper"@.len() != "large_ball"@.len());
    assert("creeper"@.len() != "star"@.len());
    assert("burst"@.len() != "small_ball"@.len());
    assert("burst"@.len() != "large_ball"@.len());
    assert("burst"@.len() != "star"@.len());
    assert("burst"@.len() != "creeper"@.len());
}

/// Law: explosion shapes travel as the vanilla ids small ball 0, large ball
/// 1, star 2, creeper 3 and burst 4; every shape's id names it again, and no
/// two shapes share an id.
pub proof fn lemma_shape_vanilla_ids(shape: FireworkExplosionShape, other: FireworkExplosionShape)
    ensures
        FireworkExplosionShape::SmallBall.spec_id() == 0,
        FireworkExplosionShape::LargeBall.spec_id() == 1,
        FireworkExplosionShape::Star.spec_id() == 2,
        FireworkExplosionShape::Creeper.spec_id() == 3,
        FireworkExplosionShape::Burst.spec_id() == 4,
        FireworkExplosionShape::spec_by_id(0) == FireworkExplosionShape::SmallBall,
        FireworkExplosionShape::spec_by_id(1) == FireworkExplosionShape::LargeBall,
        FireworkExplosionShape::spec_by_id(2) == FireworkExplosionShape::Star,
        FireworkExplosionShape::spec_by_id(3) == FireworkExplosionShape::Creeper,
        FireworkExplosionShape::spec_by_id(4) == FireworkExplosionShape::Burst,
        0 <= shape.spec_id() <= 4,
        FireworkExplosionShape::spec_by_id(shape.spec_id()) == shape,
        shape != other ==> shape.spec_id() != other.spec_id(),
{
}

/// Law: the network id of a shape gives back the shape.
pub proof fn lemma_shape_id_round_trip(shape: FireworkExplosionShape)
    ensures
        FireworkExplosionShape::spec_by_id(shape.spec_id()) == shape,
{
}

/// How one firework explosion looks.
#[derive(Debug, Clone, PartialEq, Eq)]
pub struct FireworkExplosion {
    shape: FireworkExplosionShape,
    colors: Vec<i32>,
    fade_colors: Vec<i32>,
    has_trail: bool,
    has_twinkle: bool,
}

impl Default for FireworkExplosion {
    fn default() -> (res: Self)
        ensures
            res.spec_shape() == FireworkExplosionShape::SmallBall,
            res.spec_colors() == Seq::<i32>::empty(),
            res.spec_fade_colors() == Seq::<i32>::empty(),
            !res.spec_has_trail(),
            !res.spec_has_twinkle(),
    {
        FireworkExplosion {
            shape: FireworkExplosionShape::SmallBall,
            colors: Vec::new(),
            fade_colors: Vec::new(),
            has_trail: false,
            has_twinkle: false,
        }
    }
}

impl FireworkExplosion {
    /// The shape.
    pub closed spec fn spec_shape(self) -> FireworkExplosionShape {
        self.shape
    }

    /// The colors, as RGB values.
    pub closed spec fn spec_colors(self) -> Seq<i32> {
        self.colors@
    }

    /// The colors the explosion fades to, as RGB values.
    pub closed spec fn spec_fade_colors(self) -> Seq<i32> {
        self.fade_colors@
    }

    /// Whether the explosion leaves a trail.
    pub closed spec fn spec_has_trail(self) -> bool {
        self.has_trail
    }

    /// Whether the explosion twinkles.
    pub closed spec fn spec_has_twinkle(self) -> bool {
        self.has_twinkle
    }

    /// Whether two explosions hold the same data.
    pub open spec fn same(self, other: FireworkExplosion) -> bool {
        &&& self.spec_shape() == other.spec_shape()
        &&& self.spec_colors() == other.spec_colors()
        &&& self.spec_fade_colors() == other.spec_fade_colors()
        &&& self.spec_has_trail() == other.spec_has_trail()
        &&& self.spec_has_twinkle() == other.spec_has_twinkle()
    }

    /// An explosion of the given shape, colors and effects.
    pub fn new(
        shape: FireworkExplosionShape,
        colors: Vec<i32>,
        fade_colors: Vec<i32>,
        has_trail: bool,
        has_twinkle: bool,
    ) -> (res: Self)
        ensures
            res.spec_shape() == shape,
            res.spec_colors() == colors@,
            res.spec_fade_colors() == fade_colors@,
            res.spec_has_trail() == has_trail,
            res.spec_has_twinkle() == has_twinkle,
    {
        FireworkExplosion { shape, colors, fade_colors, has_trail, has_twinkle }
    }

    /// The shape.
    pub fn shape(&self) -> (res: FireworkExplosionShape)
        ensures
            res == self.spec_shape(),
    {
        self.shape
    }

    /// The colors, as RGB values.
    pub fn colors(&self) -> (res: &[i32])
        ensures
            res@ == self.spec_colors(),
    {
        self.colors.as_slice()
    }

    /// The colors the explosion fades to, as RGB values.
    pub fn fade_colors(&self) -> (res: &[i32])
        ensures
            res@ == self.spec_fade_colors(),
    {
        self.fade_colors.as_slice()
    }

    /// Whether the explosion leaves a trail.
    pub fn has_trail(&self) -> (res: bool)
        ensures
            res == self.spec_has_trail(),
    {
        self.has_trail
    }

    /// Whether the explosion twinkles.
    pub fn has_twinkle(&self) -> (res: bool)
        ensures
            res == self.spec_has_twinkle(),
    {
        self.has_twinkle
    }

    /// Whether both color lists fit the protocol's count range.
    pub open spec fn encodable(self) -> bool {
        self.spec_colors().len() <= i32::MAX && self.spec_fade_colors().len() <= i32::MAX
    }

    /// The network form: the shape id, both color lists, then the trail and
    /// twinkle flags.
    #[verifier::opaque]
    pub open spec fn spec_bytes(self) -> Seq<u8> {
        varint_bytes(self.spec_shape().spec_id()) + int_list_bytes(self.spec_colors())
            + int_list_bytes(self.spec_fade_colors()) + seq![bool_byte(self.spec_has_trail())]
            + seq![bool_byte(self.spec_has_twinkle())]
    }

    /// Writes the network form.
    pub fn write(&self, buf: &mut Vec<u8>) -> (res: Result<(), WireError>)
        ensures
            res is Ok <==> self.encodable(),
            res is Ok ==> final(buf)@ == old(buf)@ + self.spec_bytes(),
    {
        write_varint(buf, self.shape.id());
        write_int_list(buf, self.colors.as_slice())?;
        write_int_list(buf, self.fade_colors.as_slice())?;
        write_bool(buf, self.has_trail);
        write_bool(buf, self.has_twinkle);
        reveal(FireworkExplosion::spec_bytes);
        assert(final(buf)@ =~= old(buf)@ + self.spec_bytes());
        Ok(())
    }

    /// Reads the network form: what comes back, as shape, colors, fade
    /// colors, trail and twinkle.
    pub open spec fn spec_read(s: Seq<u8>, pos: int) -> Result<((FireworkExplosionShape, Seq<i32>, Seq<i32>, bool, bool), int), WireError> {
        match spec_read_varint(s, pos) {
            Err(e) => Err(e),
            Ok((id, p1)) => match spec_read_int_list(s, p1) {
                Err(e) => Err(e),
                Ok((colors, p2)) => match spec_read_int_list(s, p2) {
                    Err(e) => Err(e),
                    Ok((fade, p3)) => match spec_read_bool(s, p3) {
                        Err(e) => Err(e),
                        Ok((trail, p4)) => match spec_read_bool(s, p4) {
                            Err(e) => Err(e),
                            Ok((twinkle, end)) => Ok(((FireworkExplosionShape::spec_by_id(id), colors, fade, trail, twinkle), end)),
                        },
                    },
                },
            },
        }
    }

    /// The fields of the explosion, as the network reader gives them.
    pub open spec fn fields(self) -> (FireworkExplosionShape, Seq<i32>, Seq<i32>, bool, bool) {
        (self.spec_shape(), self.spec_colors(), self.spec_fade_colors(), self.spec_has_trail(), self.spec_has_twinkle())
    }

    /// Reads the network form; unknown shape ids give the small ball.
    pub fn read(data: &[u8], pos: usize) -> (res: Result<(FireworkExplosion, usize), WireError>)
        ensures
            match (res, Self::spec_read(data@, pos as int)) {
                (Ok((v, end)), Ok((f, send))) => v.fields() == f && end == send,
                (Err(e), Err(se)) => e == se,
                _ => false,
            },
    {
        let (id, p1) = read_varint(data, pos)?;
        let (colors, p2) = read_int_list(data, p1)?;
        let (fade_colors, p3) = read_int_list(data, p2)?;
        let (has_trail, p4) = read_bool(data, p3)?;
        let (has_twinkle, end) = read_bool(data, p4)?;
        Ok((FireworkExplosion::new(FireworkExplosionShape::by_id(id), colors, fade_colors, has_trail, has_twinkle), end))
    }
}

/// The reads of the parts of an explosion's network form.
#[verifier::spinoff_prover]
#[verifier::rlimit(100)]
proof fn lemma_explosion_parts(pre: Seq<u8>, v: FireworkExplosion, rest: Seq<u8>) -> (ends: (int, int, int, int))
    requires
        v.encodable(),
    ensures
        spec_read_varint(pre + v.spec_bytes() + rest, pre.len() as int)
            == Ok::<(i32, int), WireError>((v.spec_shape().spec_id(), ends.0)),
        spec_read_int_list(pre + v.spec_bytes() + rest, ends.0)
            == Ok::<(Seq<i32>, int), WireError>((v.spec_colors(), ends.1)),
        spec_read_int_list(pre + v.spec_bytes() + rest, ends.1)
            == Ok::<(Seq<i32>, int), WireError>((v.spec_fade_colors(), ends.2)),
        spec_read_bool(pre + v.spec_bytes() + rest, ends.2) == Ok::<(bool, int), WireError>((v.spec_has_trail(), ends.3)),
        spec_read_bool(pre + v.spec_bytes() + rest, ends.3)
            == Ok::<(bool, int), WireError>((v.spec_has_twinkle(), (pre.len() + v.spec_bytes().len()) as int)),
{
    let a = varint_bytes(v.spec_shape().spec_id());
    let b = int_list_bytes(v.spec_colors());
    let c = int_list_bytes(v.spec_fade_colors());
    let t1 = bool_byte(v.spec_has_trail());
    let t2 = bool_byte(v.spec_has_twinkle());
    let r4 = seq![t2] + rest;
    let r3 = seq![t1] + r4;
    let r2 = c + r3;
    let r1 = b + r2;
    let s = pre + v.spec_bytes() + rest;
    reveal(FireworkExplosion::spec_bytes);
    assert(v.spec_bytes() + rest =~= a + r1);
    assert(s =~= pre + (v.spec_bytes() + rest));
    assert(s =~= pre + a + r1);
    lemma_varint_round_trip(pre, v.spec_shape().spec_id(), r1);
    let q1 = pre + a;
    assert(q1 + r1 =~= q1 + b + r2);
    lemma_int_list_round_trip(q1, v.spec_colors(), r2);
    let q2 = q1 + b;
    assert(q2 + r2 =~= q2 + c + r3);
    lemma_int_list_round_trip(q2, v.spec_fade_colors(), r3);
    let q3 = q2 + c;
    let q4 = q3.push(t1);
    (q1.len() as int, q2.len() as int, q3.len() as int, q4.len() as int)
}

/// Law: the network form of an explosion reads back unchanged.
pub proof fn lemma_explosion_round_trip(pre: Seq<u8>, v: FireworkExplosion, rest: Seq<u8>)
    requires
        v.encodable(),
    ensures
        FireworkExplosion::spec_read(pre + v.spec_bytes() + rest, pre.len() as int)
            == Ok::<((FireworkExplosionShape, Seq<i32>, Seq<i32>, bool, bool), int), WireError>((v.fields(), (pre.len() + v.spec_bytes().len()) as int)),
{
    let ends = lemma_explosion_parts(pre, v, rest);
}


/// Reads an optional boolean entry: a missing entry gives `default`, a
/// present one must be a number.
pub open spec fn spec_optional_bool(tag: Option<NbtTag>, default: bool) -> Option<bool> {
    match tag {
        Some(t) => spec_codec_bool(t),
        None => Some(default),
    }
}

fn optional_bool(tag: Option<&NbtTag>, default: bool) -> (res: Option<bool>)
    ensures
        res == spec_optional_bool(match tag { Some(t) => Some(*t), None => None::<NbtTag> }, default),
{
    match tag {
        Some(t) => codec_bool(t),
        None => Some(default),
    }
}

/// Reads an optional int list entry: a missing entry gives no values.
pub open spec fn spec_optional_int_list(tag: Option<NbtTag>) -> Option<Seq<i32>> {
    match tag {
        Some(t) => spec_int_list_from_nbt(t),
        None => Some(Seq::empty()),
    }
}

impl FireworkExplosion {
    /// Whether `es` is the persistent compound of this explosion: the shape's
    /// name under `shape`, each non-empty color list as a list of ints, and
    /// `has_trail`/`has_twinkle` as the byte 1 when set; nothing else.
    pub open spec fn is_nbt_entries(self, es: Seq<(String, NbtTag)>) -> bool {
        &&& es.len() == 1 + (if self.spec_colors().len() > 0 { 1int } else { 0 })
            + (if self.spec_fade_colors().len() > 0 { 1int } else { 0 })
            + (if self.spec_has_trail() { 1int } else { 0 }) + (if self.spec_has_twinkle() { 1int } else { 0 })
        &&& compound_lookup(es, "shape"@) matches Some(NbtTag::String(t)) && t@ == self.spec_shape().spec_serialized_name()
        &&& if self.spec_colors().len() > 0 {
            compound_lookup(es, "colors"@) matches Some(t) && is_int_list_tag(t, self.spec_colors())
        } else {
            compound_lookup(es, "colors"@) is None
        }
        &&& if self.spec_fade_colors().len() > 0 {
            compound_lookup(es, "fade_colors"@) matches Some(t) && is_int_list_tag(t, self.spec_fade_colors())
        } else {
            compound_lookup(es, "fade_colors"@) is None
        }
        &&& compound_lookup(es, "has_trail"@) == (if self.spec_has_trail() { Some(NbtTag::Byte(1)) } else { None::<NbtTag> })
        &&& compound_lookup(es, "has_twinkle"@) == (if self.spec_has_twinkle() { Some(NbtTag::Byte(1)) } else { None::<NbtTag> })
    }

    /// The persistent compound entries of this explosion.
    pub fn to_nbt_entries(&self) -> (res: Vec<(String, NbtTag)>)
        ensures
            self.is_nbt_entries(res@),
    {
        proof {
        reveal_strlit("shape");
        reveal_strlit("colors");
        reveal_strlit("fade_colors");
        reveal_strlit("has_trail");
        reveal_strlit("has_twinkle");
        assert("colors"@.len() != "shape"@.len());
        assert("fade_colors"@.len() != "shape"@.len());
        assert("fade_colors"@.len() != "colors"@.len());
        assert("has_trail"@.len() != "shape"@.len());
        assert("has_trail"@.len() != "colors"@.len());
        assert("has_trail"@.len() != "fade_colors"@.len());
        assert("has_twinkle"@.len() != "shape"@.len());
        assert("has_twinkle"@.len() != "colors"@.len());
        assert("has_twinkle"@[0] != "fade_colors"@[0]);
        assert("has_twinkle"@.len() != "has_trail"@.len());
        }
        let mut es: Vec<(String, NbtTag)> = Vec::new();
        let name = self.shape.serialized_name();
        let e = entry("shape", NbtTag::String(name.to_owned()));
        proof {
            lemma_compound_lookup_push(es@, e, "shape"@);
            lemma_compound_lookup_push(es@, e, "colors"@);
            lemma_compound_lookup_push(es@, e, "fade_colors"@);
            lemma_compound_lookup_push(es@, e, "has_trail"@);
            lemma_compound_lookup_push(es@, e, "has_twinkle"@);
        }
        es.push(e);
        if self.colors.len() > 0 {
            let e = entry("colors", int_list_tag(self.colors.as_slice()));
            proof {
                lemma_compound_lookup_push(es@, e, "shape"@);
                lemma_compound_lookup_push(es@, e, "colors"@);
                lemma_compound_lookup_push(es@, e, "fade_colors"@);
                lemma_compound_lookup_push(es@, e, "has_trail"@);
                lemma_compound_lookup_push(es@, e, "has_twinkle"@);
            }
            es.push(e);
        }
        if self.fade_colors.len() > 0 {
            let e = entry("fade_colors", int_list_tag(self.fade_colors.as_slice()));
            proof {
                lemma_compound_lookup_push(es@, e, "shape"@);
                lemma_compound_lookup_push(es@, e, "colors"@);
                lemma_compound_lookup_push(es@, e, "fade_colors"@);
                lemma_compound_lookup_push(es@, e, "has_trail"@);
                lemma_compound_lookup_push(es@, e, "has_twinkle"@);
            }
            es.push(e);
        }
        if self.has_trail {
            let e = entry("has_trail", NbtTag::Byte(1));
            proof {
                lemma_compound_lookup_push(es@, e, "shape"@);
                lemma_compound_lookup_push(es@, e, "colors"@);
                lemma_compound_lookup_push(es@, e, "fade_colors"@);
                lemma_compound_lookup_push(es@, e, "has_trail"@);
                lemma_compound_lookup_push(es@, e, "has_twinkle"@);
            }
            es.push(e);
        }
        if self.has_twinkle {
            let e = entry("has_twinkle", NbtTag::Byte(1));
            proof {
                lemma_compound_lookup_push(es@, e, "shape"@);
                lemma_compound_lookup_push(es@, e, "colors"@);
                lemma_compound_lookup_push(es@, e, "fade_colors"@);
                lemma_compound_lookup_push(es@, e, "has_trail"@);
                lemma_compound_lookup_push(es@, e, "has_twinkle"@);
            }
            es.push(e);
        }
        es
    }

    /// Reads a persistent compound: the fields it gives, as shape, colors,
    /// fade colors, trail and twinkle.
    pub open spec fn spec_from_nbt_entries(es: Seq<(String, NbtTag)>) -> Option<(FireworkExplosionShape, Seq<i32>, Seq<i32>, bool, bool)> {
        match compound_lookup(es, "shape"@) {
            Some(NbtTag::String(t)) => match FireworkExplosionShape::spec_from_serialized_name(t@) {
                Some(shape) => match (
                    spec_optional_int_list(compound_lookup(es, "colors"@)),
                    spec_optional_int_list(compound_lookup(es, "fade_colors"@)),
                    spec_optional_bool(compound_lookup(es, "has_trail"@), false),
                    spec_optional_bool(compound_lookup(es, "has_twinkle"@), false),
                ) {
                    (Some(colors), Some(fade), Some(trail), Some(twinkle)) => Some((shape, colors, fade, trail, twinkle)),
                    _ => None,
                },
                None => None,
            },
            _ => None,
        }
    }

    /// Reads a persistent compound.
    pub fn from_nbt_entries(es: &Vec<(String, NbtTag)>) -> (res: Option<FireworkExplosion>)
        ensures
            match res {
                Some(v) => Self::spec_from_nbt_entries(es@) == Some(v.fields()),
                None => Self::spec_from_nbt_entries(es@) is None,
            },
    {
        let shape = match compound_get(es, "shape") {
            Some(NbtTag::String(t)) => FireworkExplosionShape::from_serialized_name(t.as_str()),
            _ => None,
        };
        let shape = shape?;
        let colors = match compound_get(es, "colors") {
            Some(t) => int_list_from_nbt(t),
            None => Some(Vec::new()),
        };
        let fade_colors = match compound_get(es, "fade_colors") {
            Some(t) => int_list_from_nbt(t),
            None => Some(Vec::new()),
        };
        let has_trail = optional_bool(compound_get(es, "has_trail"), false);
        let has_twinkle = optional_bool(compound_get(es, "has_twinkle"), false);
        match (colors, fade_colors, has_trail, has_twinkle) {
            (Some(colors), Some(fade_colors), Some(has_trail), Some(has_twinkle)) => {
                Some(FireworkExplosion::new(shape, colors, fade_colors, has_trail, has_twinkle))
            },
            _ => None,
        }
    }
}

/// Law: the persistent compound of an explosion reads back unchanged.
pub proof fn lemma_explosion_nbt_round_trip(v: FireworkExplosion, es: Seq<(String, NbtTag)>)
    requires
        v.is_nbt_entries(es),
    ensures
        FireworkExplosion::spec_from_nbt_entries(es) == Some(v.fields()),
{
    lemma_shape_name_round_trip(v.spec_shape());
    if v.spec_colors().len() > 0 {
        lemma_int_list_tag_round_trip(compound_lookup(es, "colors"@)->0, v.spec_colors());
    } else {
        assert(v.spec_colors() =~= Seq::<i32>::empty());
    }
    if v.spec_fade_colors().len() > 0 {
        lemma_int_list_tag_round_trip(compound_lookup(es, "fade_colors"@)->0, v.spec_fade_colors());
    } else {
        assert(v.spec_fade_colors() =~= Seq::<i32>::empty());
    }
}


/// The network form of one explosion, as a function for list encodings.
pub open spec fn explosion_bytes() -> spec_fn(FireworkExplosion) -> Seq<u8> {
    |e: FireworkExplosion| e.spec_bytes()
}

/// The network reader of one explosion, as a function for list decodings.
pub open spec fn explosion_reader() -> spec_fn(Seq<u8>, int) -> Result<((FireworkExplosionShape, Seq<i32>, Seq<i32>, bool, bool), int), WireError> {
    |s: Seq<u8>, pos: int| FireworkExplosion::spec_read(s, pos)
}

/// A firework rocket: its flight duration and its explosions, in order.
#[derive(Debug, Clone, PartialEq, Eq)]
pub struct Fireworks {
    flight_duration: i32,
    explosions: Vec<FireworkExplosion>,
}

impl Fireworks {
    /// The most explosions a rocket can carry.
    pub const MAX_EXPLOSIONS: usize = 256;

    /// The flight duration.
    pub closed spec fn spec_flight_duration(self) -> i32 {
        self.flight_duration
    }

    /// The explosions, in order.
    pub closed spec fn spec_explosions(self) -> Seq<FireworkExplosion> {
        self.explosions@
    }

    /// A rocket; more than the maximum number of explosions is refused.
    pub fn new(flight_duration: i32, explosions: Vec<FireworkExplosion>) -> (res: Result<Self, WireError>)
        ensures
            res is Ok <==> explosions@.len() <= Self::MAX_EXPLOSIONS,
            res matches Ok(f) ==> f.spec_flight_duration() == flight_duration && f.spec_explosions() == explosions@,
            res matches Err(e) ==> e == WireError::TooMany,
    {
        if explosions.len() > Self::MAX_EXPLOSIONS {
            return Err(WireError::TooMany);
        }
        Ok(Fireworks { flight_duration, explosions })
    }

    /// A rocket without explosions, from a flight duration that fits a byte.
    pub(crate) fn from_extracted(flight_duration: i32) -> (res: Self)
        requires
            0 <= flight_duration <= 255,
        ensures
            res.spec_flight_duration() == flight_duration,
            res.spec_explosions() == Seq::<FireworkExplosion>::empty(),
    {
        Fireworks { flight_duration, explosions: Vec::new() }
    }

    /// The flight duration.
    pub fn flight_duration(&self) -> (res: i32)
        ensures
            res == self.spec_flight_duration(),
    {
        self.flight_duration
    }

    /// The explosions, in order.
    pub fn explosions(&self) -> (res: &[FireworkExplosion])
        ensures
            res@ == self.spec_explosions(),
    {
        self.explosions.as_slice()
    }

    /// Whether every explosion can be written and their number fits the protocol's range.
    pub open spec fn encodable(self) -> bool {
        &&& self.spec_explosions().len() <= i32::MAX
        &&& forall|i: int| 0 <= i < self.spec_explosions().len() ==> #[trigger] self.spec_explosions()[i].encodable()
    }

    /// The network form: the flight duration, the number of explosions, then each explosion.
    pub open spec fn spec_bytes(self) -> Seq<u8> {
        varint_bytes(self.spec_flight_duration()) + varint_bytes(self.spec_explosions().len() as i32)
            + concat_map(self.spec_explosions(), explosion_bytes())
    }

    /// Writes the network form.
    pub fn write(&self, buf: &mut Vec<u8>) -> (res: Result<(), WireError>)
        ensures
            res is Ok <==> self.encodable(),
            res is Ok ==> final(buf)@ == old(buf)@ + self.spec_bytes(),
    {
        if self.explosions.len() > 0x7fff_ffff {
            return Err(WireError::TooMany);
        }
        write_varint(buf, self.flight_duration);
        write_varint(buf, self.explosions.len() as i32);
        let ghost start = buf@;
        let mut i: usize = 0;
        assert(self.explosions@.take(0) =~= Seq::<FireworkExplosion>::empty());
        while i < self.explosions.len()
            invariant
                i <= self.explosions@.len(),
                buf@ == start + concat_map(self.explosions@.take(i as int), explosion_bytes()),
                forall|j: int| 0 <= j < i ==> #[trigger] self.explosions@[j].encodable(),
            decreases self.explosions.len() - i,
        {
            match self.explosions[i].write(buf) {
                Ok(()) => {},
                Err(e) => {
                    assert(!self.spec_explosions()[i as int].encodable());
                    return Err(e);
                },
            }
            proof {
                lemma_concat_map_push(self.explosions@.take(i as int), self.explosions@[i as int], explosion_bytes());
                assert(self.explosions@.take(i as int).push(self.explosions@[i as int]) =~= self.explosions@.take(i + 1));
            }
            i = i + 1;
        }
        assert(self.explosions@.take(i as int) =~= self.explosions@);
        assert(final(buf)@ =~= old(buf)@ + self.spec_bytes());
        Ok(())
    }

    /// Reads the network form: the flight duration and the fields of each explosion.
    pub open spec fn spec_read(s: Seq<u8>, pos: int) -> Result<((i32, Seq<(FireworkExplosionShape, Seq<i32>, Seq<i32>, bool, bool)>), int), WireError> {
        match spec_read_varint(s, pos) {
            Err(e) => Err(e),
            Ok((flight, p1)) => match spec_read_bounded_count(s, p1, Self::MAX_EXPLOSIONS as int) {
                Err(e) => Err(e),
                Ok((count, p2)) => match spec_read_seq(s, p2, count as nat, explosion_reader()) {
                    Err(e) => Err(e),
                    Ok((explosions, end)) => Ok(((flight, explosions), end)),
                },
            },
        }
    }

    /// The fields of each explosion, in order.
    pub open spec fn explosion_fields(self) -> Seq<(FireworkExplosionShape, Seq<i32>, Seq<i32>, bool, bool)> {
        self.spec_explosions().map_values(|e: FireworkExplosion| e.fields())
    }

    /// Reads the network form; more than the maximum number of explosions is refused.
    #[verifier::rlimit(40)]
    pub fn read(data: &[u8], pos: usize) -> (res: Result<(Fireworks, usize), WireError>)
        ensures
            match (res, Self::spec_read(data@, pos as int)) {
                (Ok((v, end)), Ok(((flight, fields), send))) => v.spec_flight_duration() == flight && v.explosion_fields() == fields && end == send,
                (Err(e), Err(se)) => e == se,
                _ => false,
            },
    {
        let (flight_duration, p1) = read_varint(data, pos)?;
        let (count, p2) = read_bounded_count(data, p1, Self::MAX_EXPLOSIONS)?;
        let ghost reader = explosion_reader();
        let mut explosions: Vec<FireworkExplosion> = Vec::new();
        let ghost mut got: Seq<(FireworkExplosionShape, Seq<i32>, Seq<i32>, bool, bool)> = Seq::empty();
        let mut cur = p2;
        let mut i: usize = 0;
        assert(got + Seq::<(FireworkExplosionShape, Seq<i32>, Seq<i32>, bool, bool)>::empty() =~= got);
        while i < count
            invariant
                i <= count <= Self::MAX_EXPLOSIONS,
                reader == explosion_reader(),
                explosions@.len() == i,
                got == explosions@.map_values(|e: FireworkExplosion| e.fields()),
                Self::spec_read(data@, pos as int) == match spec_read_seq(data@, p2 as int, count as nat, reader) {
                    Err(e) => Err(e),
                    Ok((fields, end)) => Ok(((flight_duration, fields), end)),
                },
                spec_read_seq(data@, p2 as int, count as nat, reader)
                    == prepend_items(got, spec_read_seq(data@, cur as int, (count - i) as nat, reader)),
            decreases count - i,
        {
            let ghost rest = spec_read_seq(data@, cur as int, (count - i) as nat, reader);
            let (e, end) = match FireworkExplosion::read(data, cur) {
                Ok(r) => r,
                Err(err) => {
                    assert(rest == Err::<(Seq<(FireworkExplosionShape, Seq<i32>, Seq<i32>, bool, bool)>, int), WireError>(err));
                    return Err(err);
                },
            };
            proof {
                let tail = spec_read_seq(data@, end as int, (count - i - 1) as nat, reader);
                assert(reader(data@, cur as int) == Ok::<((FireworkExplosionShape, Seq<i32>, Seq<i32>, bool, bool), int), WireError>((e.fields(), end as int)));
                assert(rest == prepend_items(seq![e.fields()], tail));
                lemma_prepend_items_assoc(got, seq![e.fields()], tail);
            }
            let ghost before = explosions@;
            explosions.push(e);
            proof {
                assert(explosions@ =~= before.push(e));
                assert(explosions@.map_values(|e: FireworkExplosion| e.fields()) =~= got + seq![e.fields()]);
                got = got + seq![e.fields()];
            }
            cur = end;
            i = i + 1;
        }
        assert(got + Seq::<(FireworkExplosionShape, Seq<i32>, Seq<i32>, bool, bool)>::empty() =~= got);
        Ok((Fireworks { flight_duration, explosions }, cur))
    }
}

/// Law: the network form of a rocket reads back unchanged.
pub proof fn lemma_fireworks_round_trip(pre: Seq<u8>, v: Fireworks, rest: Seq<u8>)
    requires
        v.encodable(),
        v.spec_explosions().len() <= Fireworks::MAX_EXPLOSIONS,
    ensures
        Fireworks::spec_read(pre + v.spec_bytes() + rest, pre.len() as int)
            == Ok::<((i32, Seq<(FireworkExplosionShape, Seq<i32>, Seq<i32>, bool, bool)>), int), WireError>(
                ((v.spec_flight_duration(), v.explosion_fields()), (pre.len() + v.spec_bytes().len()) as int)),
{
    let xs = v.spec_explosions();
    let a = varint_bytes(v.spec_flight_duration());
    let b = varint_bytes(xs.len() as i32);
    let c = concat_map(xs, explosion_bytes());
    let s = pre + v.spec_bytes() + rest;
    assert(s =~= pre + a + (b + (c + rest)));
    lemma_varint_round_trip(pre, v.spec_flight_duration(), b + (c + rest));
    assert(pre + a + (b + (c + rest)) =~= (pre + a) + b + (c + rest));
    lemma_bounded_count_round_trip(pre + a, xs.len() as int, Fireworks::MAX_EXPLOSIONS as int, c + rest);
    let fx = |e: FireworkExplosion| e.spec_bytes();
    let fields = xs.map_values(|e: FireworkExplosion| e.fields());
    // Each explosion reads back as its fields; the list reader then gives the fields in order.
    let ys = fields;
    assert forall|i: int, p: Seq<u8>, r: Seq<u8>| 0 <= i < xs.len() implies
        #[trigger] explosion_reader()(p + explosion_bytes()(xs[i]) + r, p.len() as int)
            == Ok::<((FireworkExplosionShape, Seq<i32>, Seq<i32>, bool, bool), int), WireError>((xs[i].fields(), (p.len() + explosion_bytes()(xs[i]).len()) as int)) by {
        assert(xs[i].encodable());
        lemma_explosion_round_trip(p, xs[i], r);
    }
    lemma_explosion_list_round_trip(pre + a + b, xs, rest);
    assert(pre + a + b + c + rest =~= s);
}

/// A list of explosions written one after the other reads back as their fields.
proof fn lemma_explosion_list_round_trip(pre: Seq<u8>, xs: Seq<FireworkExplosion>, rest: Seq<u8>)
    requires
        forall|i: int| 0 <= i < xs.len() ==> #[trigger] xs[i].encodable(),
    ensures
        spec_read_seq(pre + concat_map(xs, explosion_bytes()) + rest, pre.len() as int, xs.len(), explosion_reader())
            == Ok::<(Seq<(FireworkExplosionShape, Seq<i32>, Seq<i32>, bool, bool)>, int), WireError>(
                (xs.map_values(|e: FireworkExplosion| e.fields()), (pre.len() + concat_map(xs, explosion_bytes()).len()) as int)),
    decreases xs.len(),
{
    if xs.len() == 0 {
        assert(xs.map_values(|e: FireworkExplosion| e.fields()) =~= Seq::<(FireworkExplosionShape, Seq<i32>, Seq<i32>, bool, bool)>::empty());
        assert(pre + concat_map(xs, explosion_bytes()) + rest =~= pre + rest);
    } else {
        let x = xs[0];
        let tail = xs.drop_first();
        let whole = pre + concat_map(xs, explosion_bytes()) + rest;
        assert(concat_map(xs, explosion_bytes()) == x.spec_bytes() + concat_map(tail, explosion_bytes()));
        assert(whole =~= pre + x.spec_bytes() + (concat_map(tail, explosion_bytes()) + rest));
        assert(xs[0].encodable());
        lemma_explosion_round_trip(pre, x, concat_map(tail, explosion_bytes()) + rest);
        assert forall|i: int| 0 <= i < tail.len() implies #[trigger] tail[i].encodable() by {
            assert(tail[i] == xs[i + 1]);
        }
        let pre2 = pre + x.spec_bytes();
        lemma_explosion_list_round_trip(pre2, tail, rest);
        assert(pre2 + concat_map(tail, explosion_bytes()) + rest =~= whole);
        assert(seq![x.fields()] + tail.map_values(|e: FireworkExplosion| e.fields()) =~= xs.map_values(|e: FireworkExplosion| e.fields()));
        assert(explosion_reader()(whole, pre.len() as int) == Ok::<((FireworkExplosionShape, Seq<i32>, Seq<i32>, bool, bool), int), WireError>((x.fields(), pre2.len() as int)));
        assert((xs.len() - 1) as nat == tail.len());
    }
}


/// The byte a flight duration is stored as: its low eight bits.
pub open spec fn flight_byte(flight: i32) -> i8 {
    (flight as u8) as i8
}

/// The flight duration a stored number stands for: its low eight bits, unsigned.
pub open spec fn flight_from_stored(v: i32) -> i32 {
    ((v as i8) as u8) as i32
}

fn flight_byte_exec(flight: i32) -> (res: i8)
    ensures
        res == flight_byte(flight),
{
    let low = (#[verifier::truncate] (flight as u8));
    let b = (#[verifier::truncate] (low as i8));
    b
}

fn flight_from_stored_exec(v: i32) -> (res: i32)
    ensures
        res == flight_from_stored(v),
{
    let b = (#[verifier::truncate] (v as i8));
    let u = (#[verifier::truncate] (b as u8));
    u as i32
}

/// A flight duration of one unsigned byte survives being stored as a byte.
pub proof fn lemma_flight_byte_round_trip(flight: i32)
    requires
        0 <= flight <= 255,
    ensures
        flight_from_stored(flight_byte(flight) as i32) == flight,
{
    assert(0 <= flight <= 255 ==> ((((flight as u8) as i8) as i32) as i8) as u8 as i32 == flight) by (bit_vector);
}

impl Fireworks {
    /// Whether `es` is the persistent compound of this rocket: the flight
    /// duration's low byte under `flight_duration` unless it is zero, and the
    /// explosions' compounds under `explosions` unless there are none.
    pub open spec fn is_nbt_entries(self, es: Seq<(String, NbtTag)>) -> bool {
        &&& es.len() == (if self.spec_flight_duration() != 0 { 1int } else { 0 })
            + (if self.spec_explosions().len() > 0 { 1int } else { 0 })
        &&& compound_lookup(es, "flight_duration"@) == (if self.spec_flight_duration() != 0 {
            Some(NbtTag::Byte(flight_byte(self.spec_flight_duration())))
        } else {
            None::<NbtTag>
        })
        &&& if self.spec_explosions().len() > 0 {
            compound_lookup(es, "explosions"@) matches Some(NbtTag::List(items))
                && items@.len() == self.spec_explosions().len()
                && forall|i: int| 0 <= i < items@.len() ==> (#[trigger] items@[i] matches NbtTag::Compound(ces)
                    && self.spec_explosions()[i].is_nbt_entries(ces@))
        } else {
            compound_lookup(es, "explosions"@) is None
        }
    }

    /// The persistent compound entries of this rocket.
    pub fn to_nbt_entries(&self) -> (res: Vec<(String, NbtTag)>)
        ensures
            self.is_nbt_entries(res@),
    {
        proof {
            reveal_strlit("flight_duration");
            reveal_strlit("explosions");
            assert("explosions"@.len() != "flight_duration"@.len());
        }
        let mut es: Vec<(String, NbtTag)> = Vec::new();
        if self.flight_duration != 0 {
            let e = entry("flight_duration", NbtTag::Byte(flight_byte_exec(self.flight_duration)));
            proof {
                lemma_compound_lookup_push(es@, e, "flight_duration"@);
                lemma_compound_lookup_push(es@, e, "explosions"@);
            }
            es.push(e);
        }
        if self.explosions.len() > 0 {
            let mut items: Vec<NbtTag> = Vec::new();
            let mut i: usize = 0;
            while i < self.explosions.len()
                invariant
                    i <= self.explosions@.len(),
                    items@.len() == i,
                    forall|j: int| 0 <= j < i ==> (#[trigger] items@[j] matches NbtTag::Compound(ces)
                        && self.explosions@[j].is_nbt_entries(ces@)),
                decreases self.explosions.len() - i,
            {
                items.push(NbtTag::Compound(self.explosions[i].to_nbt_entries()));
                i = i + 1;
            }
            let e = entry("explosions", NbtTag::List(items));
            proof {
                lemma_compound_lookup_push(es@, e, "flight_duration"@);
                lemma_compound_lookup_push(es@, e, "explosions"@);
            }
            es.push(e);
        }
        es
    }

    /// The persistent compound, refused where the flight duration does not fit
    /// an unsigned byte from above.
    pub fn try_to_persistent_nbt(&self) -> (res: Result<NbtTag, WireError>)
        ensures
            res is Ok <==> self.spec_flight_duration() <= 255,
            res matches Ok(t) ==> t matches NbtTag::Compound(es) && self.is_nbt_entries(es@),
    {
        if self.flight_duration > 255 {
            return Err(WireError::Invalid);
        }
        Ok(NbtTag::Compound(self.to_nbt_entries()))
    }

    /// Reads a persistent compound: the flight duration and the fields of each explosion.
    pub open spec fn spec_from_nbt_entries(es: Seq<(String, NbtTag)>) -> Option<(i32, Seq<(FireworkExplosionShape, Seq<i32>, Seq<i32>, bool, bool)>)> {
        let flight = match compound_lookup(es, "flight_duration"@) {
            Some(t) => match spec_codec_i32(t) {
                Some(v) => Some(flight_from_stored(v)),
                None => None,
            },
            None => Some(0i32),
        };
        let explosions = match compound_lookup(es, "explosions"@) {
            Some(NbtTag::List(items)) => if items@.len() <= Self::MAX_EXPLOSIONS && forall|i: int| 0 <= i < items@.len() ==>
                (#[trigger] items@[i] matches NbtTag::Compound(ces) && FireworkExplosion::spec_from_nbt_entries(ces@) is Some) {
                Some(Seq::new(items@.len(), |i: int| match items@[i] {
                    NbtTag::Compound(ces) => FireworkExplosion::spec_from_nbt_entries(ces@)->0,
                    _ => (FireworkExplosionShape::SmallBall, Seq::<i32>::empty(), Seq::<i32>::empty(), false, false),
                }))
            } else {
                None
            },
            Some(_) => None,
            None => Some(Seq::empty()),
        };
        match (flight, explosions) {
            (Some(f), Some(x)) => Some((f, x)),
            _ => None,
        }
    }

    /// Reads a persistent compound.
    pub fn from_nbt_entries(es: &Vec<(String, NbtTag)>) -> (res: Option<Fireworks>)
        ensures
            match res {
                Some(v) => Self::spec_from_nbt_entries(es@) == Some((v.spec_flight_duration(), v.explosion_fields())),
                None => Self::spec_from_nbt_entries(es@) is None,
            },
    {
        let flight_duration = match compound_get(es, "flight_duration") {
            Some(t) => match codec_i32(t) {
                Some(v) => flight_from_stored_exec(v),
                None => return None,
            },
            None => 0,
        };
        let mut explosions: Vec<FireworkExplosion> = Vec::new();
        match compound_get(es, "explosions") {
            Some(NbtTag::List(items)) => {
                if items.len() > Self::MAX_EXPLOSIONS {
                    return None;
                }
                let mut i: usize = 0;
                while i < items.len()
                    invariant
                        i <= items@.len(),
                        explosions@.len() == i,
                        compound_lookup(es@, "explosions"@) == Some(NbtTag::List(*items)),
                        forall|j: int| 0 <= j < i ==> (#[trigger] items@[j] matches NbtTag::Compound(ces)
                            && FireworkExplosion::spec_from_nbt_entries(ces@) == Some(explosions@[j].fields())),
                    decreases items.len() - i,
                {
                    let ces = match &items[i] {
                        NbtTag::Compound(ces) => ces,
                        _ => {
                            assert(!(items@[i as int] matches NbtTag::Compound(ces) && FireworkExplosion::spec_from_nbt_entries(ces@) is Some));
                            return None;
                        },
                    };
                    match FireworkExplosion::from_nbt_entries(ces) {
                        Some(e) => explosions.push(e),
                        None => {
                            assert(!(items@[i as int] matches NbtTag::Compound(ces) && FireworkExplosion::spec_from_nbt_entries(ces@) is Some));
                            return None;
                        },
                    }
                    i = i + 1;
                }
                proof {
                    assert(explosions@.map_values(|e: FireworkExplosion| e.fields()) =~= Seq::new(items@.len(), |i: int| match items@[i] {
                        NbtTag::Compound(ces) => FireworkExplosion::spec_from_nbt_entries(ces@)->0,
                        _ => (FireworkExplosionShape::SmallBall, Seq::<i32>::empty(), Seq::<i32>::empty(), false, false),
                    }));
                }
            },
            Some(_) => return None,
            None => {
                assert(explosions@.map_values(|e: FireworkExplosion| e.fields()) =~= Seq::<(FireworkExplosionShape, Seq<i32>, Seq<i32>, bool, bool)>::empty());
            },
        }
        Some(Fireworks { flight_duration, explosions })
    }
}

/// Law: the persistent compound of a rocket reads back unchanged, when its
/// flight duration fits an unsigned byte.
pub proof fn lemma_fireworks_nbt_round_trip(v: Fireworks, es: Seq<(String, NbtTag)>)
    requires
        v.is_nbt_entries(es),
        0 <= v.spec_flight_duration() <= 255,
        v.spec_explosions().len() <= Fireworks::MAX_EXPLOSIONS,
    ensures
        Fireworks::spec_from_nbt_entries(es) == Some((v.spec_flight_duration(), v.explosion_fields())),
{
    lemma_flight_byte_round_trip(v.spec_flight_duration());
    if v.spec_explosions().len() > 0 {
        match compound_lookup(es, "explosions"@) {
            Some(NbtTag::List(items)) => {
                assert forall|i: int| 0 <= i < items@.len() implies
                    (#[trigger] items@[i] matches NbtTag::Compound(ces) && FireworkExplosion::spec_from_nbt_entries(ces@) is Some) by {
                    match items@[i] {
                        NbtTag::Compound(ces) => lemma_explosion_nbt_round_trip(v.spec_explosions()[i], ces@),
                        _ => {},
                    }
                }
                assert(Seq::new(items@.len(), |i: int| match items@[i] {
                    NbtTag::Compound(ces) => FireworkExplosion::spec_from_nbt_entries(ces@)->0,
                    _ => (FireworkExplosionShape::SmallBall, Seq::<i32>::empty(), Seq::<i32>::empty(), false, false),
                }) =~= v.explosion_fields()) by {
                    assert forall|i: int| 0 <= i < items@.len() implies (match items@[i] {
                        NbtTag::Compound(ces) => FireworkExplosion::spec_from_nbt_entries(ces@)->0,
                        _ => (FireworkExplosionShape::SmallBall, Seq::<i32>::empty(), Seq::<i32>::empty(), false, false),
                    }) == v.explosion_fields()[i] by {
                        match items@[i] {
                            NbtTag::Compound(ces) => lemma_explosion_nbt_round_trip(v.spec_explosions()[i], ces@),
                            _ => {},
                        }
                    }
                }
            },
            _ => {},
        }
    } else {
        assert(v.explosion_fields() =~= Seq::<(FireworkExplosionShape, Seq<i32>, Seq<i32>, bool, bool)>::empty());
    }
}

/// The network form of an explosion with the given fields.
pub open spec fn explosion_view_bytes(f: (FireworkExplosionShape, Seq<i32>, Seq<i32>, bool, bool)) -> Seq<u8> {
    varint_bytes(f.0.spec_id()) + int_list_bytes(f.1) + int_list_bytes(f.2) + seq![bool_byte(f.3)]
        + seq![bool_byte(f.4)]
}

/// The network form of a rocket with the given flight duration and
/// explosion fields.
pub open spec fn fireworks_view_bytes(flight: i32, fs: Seq<(FireworkExplosionShape, Seq<i32>, Seq<i32>, bool, bool)>) -> Seq<u8> {
    varint_bytes(flight) + varint_bytes(fs.len() as i32)
        + concat_map(fs, |f: (FireworkExplosionShape, Seq<i32>, Seq<i32>, bool, bool)| explosion_view_bytes(f))
}

/// Whether a rocket with these explosion fields is written and read back:
/// at most 256 explosions, each with color lists that fit the protocol.
pub open spec fn fireworks_view_encodable(fs: Seq<(FireworkExplosionShape, Seq<i32>, Seq<i32>, bool, bool)>) -> bool {
    &&& fs.len() <= Fireworks::MAX_EXPLOSIONS
    &&& forall|i: int| 0 <= i < fs.len() ==> (#[trigger] fs[i]).1.len() <= i32::MAX && fs[i].2.len() <= i32::MAX
}

proof fn lemma_explosions_view_bytes(xs: Seq<FireworkExplosion>)
    ensures
        concat_map(xs, explosion_bytes())
            == concat_map(xs.map_values(|e: FireworkExplosion| e.fields()),
                |f: (FireworkExplosionShape, Seq<i32>, Seq<i32>, bool, bool)| explosion_view_bytes(f)),
    decreases xs.len(),
{
    let g = |f: (FireworkExplosionShape, Seq<i32>, Seq<i32>, bool, bool)| explosion_view_bytes(f);
    let fs = xs.map_values(|e: FireworkExplosion| e.fields());
    if xs.len() > 0 {
        lemma_explosions_view_bytes(xs.drop_first());
        assert(fs.drop_first() =~= xs.drop_first().map_values(|e: FireworkExplosion| e.fields()));
        reveal(FireworkExplosion::spec_bytes);
        assert(explosion_bytes()(xs[0]) == g(fs[0]));
    } else {
        assert(fs =~= Seq::<(FireworkExplosionShape, Seq<i32>, Seq<i32>, bool, bool)>::empty());
    }
}

/// A rocket's network form and its validity depend on its flight duration
/// and explosion fields alone.
pub proof fn lemma_fireworks_view(v: Fireworks)
    ensures
        v.spec_bytes() == fireworks_view_bytes(v.spec_flight_duration(), v.explosion_fields()),
        (v.encodable() && v.spec_explosions().len() <= Fireworks::MAX_EXPLOSIONS)
            <==> fireworks_view_encodable(v.explosion_fields()),
{
    lemma_explosions_view_bytes(v.spec_explosions());
    let fs = v.explosion_fields();
    if v.encodable() && v.spec_explosions().len() <= Fireworks::MAX_EXPLOSIONS {
        assert forall|i: int| 0 <= i < fs.len() implies (#[trigger] fs[i]).1.len() <= i32::MAX && fs[i].2.len() <= i32::MAX by {
            assert(v.spec_explosions()[i].encodable());
        }
    }
    if fireworks_view_encodable(fs) {
        assert forall|i: int| 0 <= i < v.spec_explosions().len() implies #[trigger] v.spec_explosions()[i].encodable() by {
            assert(fs[i] == v.spec_explosions()[i].fields());
        }
    }
}

} // verus!
