//! The `minecraft:pot_decorations` item component.

use vstd::prelude::*;
use crate::holder::{RegistryRef, registry_by_id, registry_by_key, spec_by_key};
use crate::identifier::{parse_identifier, spec_parse_identifier};
use crate::nbt::NbtTag;
use crate::wire::{
    WireError, read_varint, spec_read_varint, str_equals, varint_bytes, write_varint,
};

verus! {

/// The key of the brick item, which stands for an undecorated side.
pub open spec fn spec_brick_key() -> Seq<char> {
    "minecraft:brick"@
}

/// The key of the brick item, which stands for an undecorated side.
pub fn brick_key() -> (res: &'static str)
    ensures
        res@ == spec_brick_key(),
{
    "minecraft:brick"
}

/// A side decoration: a brick stands for no decoration.
pub open spec fn spec_decoration(item: Option<RegistryRef>) -> Option<RegistryRef> {
    match item {
        Some(i) => if i.key@ == spec_brick_key() { None } else { Some(i) },
        None => None,
    }
}

/// A side decoration: a brick stands for no decoration.
pub fn decoration(item: Option<&RegistryRef>) -> (res: Option<RegistryRef>)
    ensures
        res == spec_decoration(match item { Some(i) => Some(*i), None => None::<RegistryRef> }),
{
    match item {
        Some(i) => if str_equals(i.key.as_str(), brick_key()) {
            None
        } else {
            Some(i.duplicate())
        },
        None => None,
    }
}

/// The back, left, right and front decorations of a decorated pot.
#[derive(Debug, Clone, PartialEq)]
pub struct PotDecorations {
    back: Option<RegistryRef>,
    left: Option<RegistryRef>,
    right: Option<RegistryRef>,
    front: Option<RegistryRef>,
}

impl PotDecorations {
    /// The most decorations a pot has.
    pub const MAX_DECORATIONS: usize = 4;

    /// The back decoration.
    pub closed spec fn spec_back(self) -> Option<RegistryRef> {
        self.back
    }

    /// The left decoration.
    pub closed spec fn spec_left(self) -> Option<RegistryRef> {
        self.left
    }

    /// The right decoration.
    pub closed spec fn spec_right(self) -> Option<RegistryRef> {
        self.right
    }

    /// The front decoration.
    pub closed spec fn spec_front(self) -> Option<RegistryRef> {
        self.front
    }

    /// The decorations, back, left, right and front.
    pub open spec fn sides(self) -> Seq<Option<RegistryRef>> {
        seq![self.spec_back(), self.spec_left(), self.spec_right(), self.spec_front()]
    }

    /// Whether this pot has the sides `items` gives, in order, with bricks
    /// and missing items as undecorated sides.
    pub open spec fn is_from_ordered(self, items: Seq<RegistryRef>) -> bool {
        forall|i: int| 0 <= i < 4 ==> #[trigger] self.sides()[i] == spec_decoration(
            if i < items.len() { Some(items[i]) } else { None::<RegistryRef> },
        )
    }

    /// No side holds the brick item itself: a brick is kept as an
    /// undecorated side.
    pub open spec fn wf(self) -> bool {
        forall|i: int| 0 <= i < 4 ==> (#[trigger] self.sides()[i] matches Some(r) ==> r.key@ != spec_brick_key())
    }

    /// A pot with no decorations.
    pub fn empty() -> (res: Self)
        ensures
            res.wf(),
            res.sides() == seq![None::<RegistryRef>, None, None, None],
    {
        PotDecorations { back: None, left: None, right: None, front: None }
    }

    /// The decorations of Vanilla's ordered list of at most four items: back,
    /// left, right, then front; more than four is refused.
    pub fn from_ordered(items: &[RegistryRef]) -> (res: Result<Self, WireError>)
        ensures
            res is Ok <==> items@.len() <= Self::MAX_DECORATIONS,
            res matches Ok(p) ==> p.is_from_ordered(items@) && p.wf(),
            res matches Err(e) ==> e == WireError::TooMany,
    {
        if items.len() > Self::MAX_DECORATIONS {
            return Err(WireError::TooMany);
        }
        let back = decoration(if items.len() > 0 { Some(&items[0]) } else { None });
        let left = decoration(if items.len() > 1 { Some(&items[1]) } else { None });
        let right = decoration(if items.len() > 2 { Some(&items[2]) } else { None });
        let front = decoration(if items.len() > 3 { Some(&items[3]) } else { None });
        let res = PotDecorations { back, left, right, front };
        assert(res.is_from_ordered(items@)) by {
            assert forall|i: int| 0 <= i < 4 implies #[trigger] res.sides()[i] == spec_decoration(
                if i < items@.len() { Some(items@[i]) } else { None::<RegistryRef> },
            ) by {
                if i == 0 {} else if i == 1 {} else if i == 2 {} else {}
            }
        }
        proof {
            lemma_from_ordered_wf(res, items@);
        }
        Ok(res)
    }

    /// The back decoration.
    pub fn back(&self) -> (res: Option<RegistryRef>)
        ensures
            res == self.spec_back(),
    {
        match &self.back {
            Some(r) => Some(r.duplicate()),
            None => None,
        }
    }

    /// The left decoration.
    pub fn left(&self) -> (res: Option<RegistryRef>)
        ensures
            res == self.spec_left(),
    {
        match &self.left {
            Some(r) => Some(r.duplicate()),
            None => None,
        }
    }

    /// The right decoration.
    pub fn right(&self) -> (res: Option<RegistryRef>)
        ensures
            res == self.spec_right(),
    {
        match &self.right {
            Some(r) => Some(r.duplicate()),
            None => None,
        }
    }

    /// The front decoration.
    pub fn front(&self) -> (res: Option<RegistryRef>)
        ensures
            res == self.spec_front(),
    {
        match &self.front {
            Some(r) => Some(r.duplicate()),
            None => None,
        }
    }

    /// The four sides' items, back, left, right and front, with `brick` on
    /// undecorated sides.
    pub open spec fn spec_ordered(self, brick: RegistryRef) -> Seq<RegistryRef> {
        Seq::new(4, |i: int| match self.sides()[i] {
            Some(r) => r,
            None => brick,
        })
    }

    /// The four sides' items, back, left, right and front, with `brick` (the
    /// brick item) on undecorated sides.
    pub fn ordered(&self, brick: &RegistryRef) -> (res: Vec<RegistryRef>)
        ensures
            res@ == self.spec_ordered(*brick),
    {
        let mut res: Vec<RegistryRef> = Vec::new();
        res.push(match &self.back {
            Some(r) => r.duplicate(),
            None => brick.duplicate(),
        });
        res.push(match &self.left {
            Some(r) => r.duplicate(),
            None => brick.duplicate(),
        });
        res.push(match &self.right {
            Some(r) => r.duplicate(),
            None => brick.duplicate(),
        });
        res.push(match &self.front {
            Some(r) => r.duplicate(),
            None => brick.duplicate(),
        });
        assert(res@ =~= self.spec_ordered(*brick));
        res
    }

    /// Whether every side's item id fits the protocol's range.
    pub open spec fn encodable(self, brick: RegistryRef) -> bool {
        forall|i: int| 0 <= i < 4 ==> #[trigger] self.spec_ordered(brick)[i].id <= i32::MAX
    }

    /// The network form: the count four, then each side's item id.
    pub open spec fn spec_bytes(self, brick: RegistryRef) -> Seq<u8> {
        varint_bytes(4) + varint_bytes(self.spec_ordered(brick)[0].id as i32)
            + varint_bytes(self.spec_ordered(brick)[1].id as i32) + varint_bytes(self.spec_ordered(brick)[2].id as i32)
            + varint_bytes(self.spec_ordered(brick)[3].id as i32)
    }

    /// Writes the network form, with `brick` (the brick item) on undecorated sides.
    pub fn write(&self, buf: &mut Vec<u8>, brick: &RegistryRef) -> (res: Result<(), WireError>)
        ensures
            res is Ok <==> self.encodable(*brick),
            res is Ok ==> final(buf)@ == old(buf)@ + self.spec_bytes(*brick),
    {
        let items = self.ordered(brick);
        let mut i: usize = 0;
        while i < 4
            invariant
                items@ == self.spec_ordered(*brick),
                i <= 4,
                forall|j: int| 0 <= j < i ==> #[trigger] items@[j].id <= i32::MAX,
            decreases 4 - i,
        {
            if items[i].id > 0x7fff_ffff {
                return Err(WireError::Invalid);
            }
            i = i + 1;
        }
        write_varint(buf, 4);
        write_varint(buf, items[0].id as i32);
        write_varint(buf, items[1].id as i32);
        write_varint(buf, items[2].id as i32);
        write_varint(buf, items[3].id as i32);
        assert(final(buf)@ =~= old(buf)@ + self.spec_bytes(*brick));
        Ok(())
    }

    /// Reads `count` item ids at `pos` over the item registry `registry`.
    pub open spec fn spec_read_items(s: Seq<u8>, pos: int, count: nat, registry: Seq<RegistryRef>) -> Result<(Seq<RegistryRef>, int), WireError>
        decreases count,
    {
        if count == 0 {
            Ok((Seq::empty(), pos))
        } else {
            match spec_read_varint(s, pos) {
                Err(e) => Err(e),
                Ok((id, next)) => if id < 0 {
                    Err(WireError::Negative)
                } else if id >= registry.len() {
                    Err(WireError::Invalid)
                } else {
                    match Self::spec_read_items(s, next, (count - 1) as nat, registry) {
                        Err(e) => Err(e),
                        Ok((rest, end)) => Ok((seq![registry[id as int]] + rest, end)),
                    }
                },
            }
        }
    }

    /// Reads the network form over the item registry `registry`: a count of
    /// at most four, then that many item ids, in Vanilla's side order.
    pub open spec fn spec_read(s: Seq<u8>, pos: int, registry: Seq<RegistryRef>) -> Result<(Seq<RegistryRef>, int), WireError> {
        match spec_read_varint(s, pos) {
            Err(e) => Err(e),
            Ok((count, next)) => if count < 0 {
                Err(WireError::Negative)
            } else if count > 4 {
                Err(WireError::TooMany)
            } else {
                Self::spec_read_items(s, next, count as nat, registry)
            },
        }
    }

    fn read_items(data: &[u8], pos: usize, count: usize, registry: &Vec<RegistryRef>) -> (res: Result<(Vec<RegistryRef>, usize), WireError>)
        requires
            count <= 4,
        ensures
            match (res, Self::spec_read_items(data@, pos as int, count as nat, registry@)) {
                (Ok((v, end)), Ok((sv, send))) => v@ == sv && end == send,
                (Err(e), Err(se)) => e == se,
                _ => false,
            },
            res matches Ok((v, _)) ==> v@.len() == count,
        decreases count,
    {
        if count == 0 {
            return Ok((Vec::new(), pos));
        }
        let (id, next) = read_varint(data, pos)?;
        if id < 0 {
            return Err(WireError::Negative);
        }
        let item = match registry_by_id(registry, id as usize) {
            Some(item) => item,
            None => return Err(WireError::Invalid),
        };
        let (rest, end) = Self::read_items(data, next, count - 1, registry)?;
        let mut items: Vec<RegistryRef> = Vec::new();
        items.push(item);
        let mut rest = rest;
        items.append(&mut rest);
        Ok((items, end))
    }

    /// Reads the network form over the item registry `registry`.
    pub fn read(data: &[u8], pos: usize, registry: &Vec<RegistryRef>) -> (res: Result<(PotDecorations, usize), WireError>)
        ensures
            match (res, Self::spec_read(data@, pos as int, registry@)) {
                (Ok((v, end)), Ok((items, send))) => v.is_from_ordered(items) && v.wf() && end == send,
                (Err(e), Err(se)) => e == se,
                _ => false,
            },
    {
        let (count, next) = read_varint(data, pos)?;
        if count < 0 {
            return Err(WireError::Negative);
        }
        if count > 4 {
            return Err(WireError::TooMany);
        }
        let (items, end) = Self::read_items(data, next, count as usize, registry)?;
        match Self::from_ordered(items.as_slice()) {
            Ok(p) => Ok((p, end)),
            Err(e) => Err(e),
        }
    }

    /// The persistent form: the four sides' item keys, with `brick` on
    /// undecorated sides.
    pub fn to_nbt_tag(&self, brick: &RegistryRef) -> (res: NbtTag)
        ensures
            res matches NbtTag::List(items) && items@.len() == 4
                && forall|i: int| 0 <= i < 4 ==> (#[trigger] items@[i] matches NbtTag::String(k) && k@ == self.spec_ordered(*brick)[i].key@),
    {
        let sides = self.ordered(brick);
        let mut items: Vec<NbtTag> = Vec::new();
        let mut i: usize = 0;
        while i < 4
            invariant
                sides@ == self.spec_ordered(*brick),
                i <= 4,
                items@.len() == i,
                forall|j: int| 0 <= j < i ==> (#[trigger] items@[j] matches NbtTag::String(k) && k@ == sides@[j].key@),
            decreases 4 - i,
        {
            items.push(NbtTag::String(sides[i].key.clone()));
            i = i + 1;
        }
        NbtTag::List(items)
    }

    /// The items a persistent list names, resolved by key in `registry`.
    pub open spec fn spec_nbt_items(items: Seq<NbtTag>, registry: Seq<RegistryRef>) -> Option<Seq<RegistryRef>>
        decreases items.len(),
    {
        if items.len() == 0 {
            Some(Seq::empty())
        } else {
            match items[0] {
                NbtTag::String(k) => match spec_parse_identifier(k@) {
                    Some(key) => match spec_by_key(registry, key) {
                        Some(item) => match Self::spec_nbt_items(items.drop_first(), registry) {
                            Some(rest) => Some(seq![item] + rest),
                            None => None,
                        },
                        None => None,
                    },
                    None => None,
                },
                _ => None,
            }
        }
    }

    /// Reads the persistent form over the item registry `registry`: a list of
    /// at most four item keys, in Vanilla's side order.
    pub open spec fn spec_from_nbt(tag: NbtTag, registry: Seq<RegistryRef>) -> Option<Seq<RegistryRef>> {
        match tag {
            NbtTag::List(items) => if items@.len() > 4 {
                None
            } else {
                Self::spec_nbt_items(items@, registry)
            },
            _ => None,
        }
    }

    /// Reads the persistent form over the item registry `registry`.
    #[verifier::rlimit(40)]
    pub fn from_nbt_tag(tag: &NbtTag, registry: &Vec<RegistryRef>) -> (res: Option<PotDecorations>)
        ensures
            match (res, Self::spec_from_nbt(*tag, registry@)) {
                (Some(v), Some(items)) => v.is_from_ordered(items) && v.wf(),
                (None, None) => true,
                _ => false,
            },
    {
        let items = match tag {
            NbtTag::List(items) => items,
            _ => return None,
        };
        if items.len() > 4 {
            return None;
        }
        let mut resolved: Vec<RegistryRef> = Vec::new();
        let mut i: usize = 0;
        assert(items@.skip(0) =~= items@);
        while i < items.len()
            invariant
                *tag == NbtTag::List(*items),
                i <= items@.len() <= 4,
                resolved@.len() == i,
                Self::spec_nbt_items(items@, registry@) == match Self::spec_nbt_items(items@.skip(i as int), registry@) {
                    Some(rest) => Some(resolved@ + rest),
                    None => None::<Seq<RegistryRef>>,
                },
            decreases items.len() - i,
        {
            let ghost cur = items@.skip(i as int);
            assert(cur.drop_first() =~= items@.skip(i + 1));
            assert(cur[0] == items@[i as int]);
            let k = match &items[i] {
                NbtTag::String(k) => k,
                _ => {
                    assert(Self::spec_nbt_items(cur, registry@) is None);
                    return None;
                },
            };
            let key = match parse_identifier(k.as_str()) {
                Some(key) => key,
                None => {
                    assert(cur[0] == NbtTag::String(*k));
                    assert(Self::spec_nbt_items(cur, registry@) is None);
                    return None;
                },
            };
            let item = match registry_by_key(registry, key.as_str()) {
                Some(item) => item,
                None => {
                    assert(cur[0] == NbtTag::String(*k));
                    assert(Self::spec_nbt_items(cur, registry@) is None);
                    return None;
                },
            };
            proof {
                let tail = Self::spec_nbt_items(items@.skip(i + 1), registry@);
                assert(Self::spec_nbt_items(cur, registry@) == match tail {
                    Some(rest) => Some(seq![item] + rest),
                    None => None::<Seq<RegistryRef>>,
                });
                match tail {
                    Some(rest) => {
                        assert(resolved@ + (seq![item] + rest) =~= resolved@.push(item) + rest);
                    },
                    None => {},
                }
            }
            resolved.push(item);
            i = i + 1;
        }
        assert(items@.skip(i as int) =~= Seq::<NbtTag>::empty());
        assert(resolved@ + Seq::<RegistryRef>::empty() =~= resolved@);
        match Self::from_ordered(resolved.as_slice()) {
            Ok(p) => Some(p),
            Err(_) => None,
        }
    }
}

/// A pot with the sides an item list gives never holds the brick item.
pub proof fn lemma_from_ordered_wf(p: PotDecorations, items: Seq<RegistryRef>)
    requires
        p.is_from_ordered(items),
    ensures
        p.wf(),
{
    assert forall|i: int| 0 <= i < 4 implies (#[trigger] p.sides()[i] matches Some(r) ==> r.key@ != spec_brick_key()) by {
        assert(p.sides()[i] == spec_decoration(if i < items.len() { Some(items[i]) } else { None::<RegistryRef> }));
    }
}

/// Law: a pot's ordered sides, with the brick on undecorated sides, give
/// back the same pot.
pub proof fn lemma_ordered_round_trip(p: PotDecorations, brick: RegistryRef, q: PotDecorations)
    requires
        p.wf(),
        brick.key@ == spec_brick_key(),
        q.is_from_ordered(p.spec_ordered(brick)),
    ensures
        p.spec_ordered(brick).len() <= PotDecorations::MAX_DECORATIONS,
        q.sides() == p.sides(),
        q == p,
{
    let items = p.spec_ordered(brick);
    assert forall|i: int| 0 <= i < 4 implies #[trigger] q.sides()[i] == p.sides()[i] by {
        assert(q.sides()[i] == spec_decoration(Some(items[i])));
        assert(p.sides()[i] matches Some(r) ==> r.key@ != spec_brick_key());
    }
    assert(q.sides() =~= p.sides());
    assert(q.sides()[0] == p.sides()[0] && q.sides()[1] == p.sides()[1]
        && q.sides()[2] == p.sides()[2] && q.sides()[3] == p.sides()[3]);
}

} // verus!
