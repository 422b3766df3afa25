//! Item components that hold item stack templates: use remainders, charged
//! projectiles, bundle contents, container slots and sulfur cube contents.

use vstd::prelude::*;
use crate::fraction::{
    BundleWeightError, CheckedFraction, equals_ratio, lemma_add_value, lemma_multiply_value,
    lemma_new_value, valid,
};
use crate::holder::RegistryRef;
use crate::wire::{WireError, spec_read_bounded_count, read_bounded_count, varint_bytes, write_varint};

verus! {

/// An item stack template, as the bundle and container rules read it: the
/// item, the count, the stack size its components allow, the bundle contents
/// it carries (if any) and the number of bees it holds.
#[derive(Debug, PartialEq)]
pub struct ItemStackTemplate {
    pub item: RegistryRef,
    pub count: i32,
    pub max_stack_size: i32,
    pub bundle_contents: Option<BundleContents>,
    pub bee_count: usize,
}

impl ItemStackTemplate {
    /// A template of `count` of `item`, which stacks to `max_stack_size`,
    /// with no bundle contents and no bees.
    pub fn new(item: RegistryRef, count: i32, max_stack_size: i32) -> (res: Self)
        ensures
            res.item == item,
            res.count == count,
            res.max_stack_size == max_stack_size,
            res.bundle_contents is None,
            res.bee_count == 0,
    {
        ItemStackTemplate { item, count, max_stack_size, bundle_contents: None, bee_count: 0 }
    }
}

/// The item template produced after consuming an item.
#[derive(Debug, PartialEq)]
pub struct UseRemainder {
    convert_into: ItemStackTemplate,
}

impl UseRemainder {
    /// The template the item turns into.
    pub closed spec fn spec_convert_into(self) -> ItemStackTemplate {
        self.convert_into
    }

    /// Turns the consumed item into `convert_into`.
    pub fn new(convert_into: ItemStackTemplate) -> (res: Self)
        ensures
            res.spec_convert_into() == convert_into,
    {
        UseRemainder { convert_into }
    }

    /// The template the item turns into.
    pub fn convert_into(&self) -> (res: &ItemStackTemplate)
        ensures
            *res == self.spec_convert_into(),
    {
        &self.convert_into
    }
}

/// The projectiles loaded into a crossbow.
#[derive(Debug, PartialEq)]
pub struct ChargedProjectiles {
    items: Vec<ItemStackTemplate>,
}

impl Default for ChargedProjectiles {
    fn default() -> (res: Self)
        ensures
            res.spec_items() == Seq::<ItemStackTemplate>::empty(),
    {
        ChargedProjectiles::empty()
    }
}

impl ChargedProjectiles {
    /// The most projectiles a crossbow holds.
    pub const MAX_SIZE: usize = 1024;

    /// The projectiles, in order.
    pub closed spec fn spec_items(self) -> Seq<ItemStackTemplate> {
        self.items@
    }

    /// No projectiles.
    pub fn empty() -> (res: Self)
        ensures
            res.spec_items() == Seq::<ItemStackTemplate>::empty(),
    {
        ChargedProjectiles { items: Vec::new() }
    }

    /// The given projectiles; more than the maximum is refused.
    pub fn new(items: Vec<ItemStackTemplate>) -> (res: Result<Self, WireError>)
        ensures
            res is Ok <==> items@.len() <= Self::MAX_SIZE,
            res matches Ok(c) ==> c.spec_items() == items@,
            res matches Err(e) ==> e == WireError::TooMany,
    {
        if items.len() > Self::MAX_SIZE {
            return Err(WireError::TooMany);
        }
        Ok(ChargedProjectiles { items })
    }

    /// The projectiles, in order.
    pub fn items(&self) -> (res: &[ItemStackTemplate])
        ensures
            res@ == self.spec_items(),
    {
        self.items.as_slice()
    }
}

/// The item templates stored in a bundle, in order.
#[derive(Debug, PartialEq)]
pub struct BundleContents {
    items: Vec<ItemStackTemplate>,
}

/// The fraction one-sixteenth, the weight an empty bundle adds.
pub open spec fn sixteenth() -> CheckedFraction {
    CheckedFraction { numerator: 1, denominator: 16 }
}

/// The weight one template adds to a bundle per item: a bundle weighs its
/// contents plus one-sixteenth, an occupied beehive weighs a whole bundle,
/// and anything else one over its stack size.
pub open spec fn spec_item_weight(item: ItemStackTemplate) -> Result<CheckedFraction, BundleWeightError>
    decreases item,
{
    match item.bundle_contents {
        Some(b) => {
            match spec_items_weight(b.spec_items()) {
                Ok(w) => w.spec_add(sixteenth()),
                Err(e) => Err(e),
            }
        },
        None => if item.bee_count > 0 {
            Ok(CheckedFraction::one())
        } else {
            CheckedFraction::spec_new(1, item.max_stack_size)
        },
    }
}

/// The weight of a list of templates: the sum of each template's weight
/// times its count, added up first to last.
pub open spec fn spec_items_weight(items: Seq<ItemStackTemplate>) -> Result<CheckedFraction, BundleWeightError>
    decreases items,
{
    if items.len() == 0 {
        Ok(CheckedFraction::zero())
    } else {
        match spec_items_weight(items.drop_last()) {
            Err(e) => Err(e),
            Ok(w) => match spec_item_weight(items.last()) {
                Err(e) => Err(e),
                Ok(iw) => match iw.spec_multiply(items.last().count) {
                    Err(e) => Err(e),
                    Ok(m) => w.spec_add(m),
                },
            },
        }
    }
}

impl Default for BundleContents {
    fn default() -> (res: Self)
        ensures
            res.spec_items() == Seq::<ItemStackTemplate>::empty(),
    {
        BundleContents::empty()
    }
}

impl BundleContents {
    /// The items, in order.
    pub closed spec fn spec_items(self) -> Seq<ItemStackTemplate> {
        self.items@
    }

    /// An empty bundle.
    pub fn empty() -> (res: Self)
        ensures
            res.spec_items() == Seq::<ItemStackTemplate>::empty(),
    {
        BundleContents { items: Vec::new() }
    }

    /// A bundle of the given items, in order.
    pub fn new(items: Vec<ItemStackTemplate>) -> (res: Self)
        ensures
            res.spec_items() == items@,
    {
        BundleContents { items }
    }

    /// The items, in order.
    pub fn items(&self) -> (res: &[ItemStackTemplate])
        ensures
            res@ == self.spec_items(),
    {
        self.items.as_slice()
    }

    /// Checks that the bundle's weight can be computed.
    pub fn validate_weight(&self) -> (res: Result<(), BundleWeightError>)
        ensures
            res is Ok <==> spec_items_weight(self.spec_items()) is Ok,
            res matches Err(e) ==> spec_items_weight(self.spec_items()) == Err::<CheckedFraction, BundleWeightError>(e),
    {
        match self.compute_weight() {
            Ok(_) => Ok(()),
            Err(e) => Err(e),
        }
    }

    /// The bundle's weight: the sum of each item's weight times its count.
    pub fn compute_weight(&self) -> (res: Result<CheckedFraction, BundleWeightError>)
        ensures
            res == spec_items_weight(self.spec_items()),
        decreases self,
    {
        let mut weight = CheckedFraction { numerator: 0, denominator: 1 };
        let mut i: usize = 0;
        while i < self.items.len()
            invariant
                i <= self.items@.len(),
                spec_items_weight(self.items@.take(i as int)) == Ok::<CheckedFraction, BundleWeightError>(weight),
                valid(weight),
            decreases self.items.len() - i,
        {
            let item = &self.items[i];
            proof {
                assert(self.items@.take(i + 1).drop_last() =~= self.items@.take(i as int));
                assert(self.items@.take(i + 1).last() == self.items@[i as int]);
            }
            let item_weight = match bundle_item_weight(item) {
                Ok(w) => w,
                Err(e) => {
                    proof {
                        lemma_items_weight_prefix_err(self.items@, i + 1);
                    }
                    return Err(e);
                },
            };
            proof {
                lemma_item_weight_valid(*item);
            }
            let scaled = match item_weight.multiply(item.count) {
                Ok(m) => m,
                Err(e) => {
                    proof {
                        lemma_items_weight_prefix_err(self.items@, i + 1);
                    }
                    return Err(e);
                },
            };
            proof {
                lemma_multiply_value(item_weight, item.count);
            }
            weight = match weight.add(scaled) {
                Ok(w) => w,
                Err(e) => {
                    proof {
                        lemma_items_weight_prefix_err(self.items@, i + 1);
                    }
                    return Err(e);
                },
            };
            proof {
                lemma_add_value(spec_items_weight(self.items@.take(i as int))->Ok_0, scaled);
            }
            i = i + 1;
        }
        assert(self.items@.take(i as int) =~= self.items@);
        Ok(weight)
    }
}

/// One and sixteen have no common factor.
proof fn lemma_gcd_one_sixteen()
    ensures
        crate::fraction::spec_gcd(1, 16) == 1,
{
    assert(crate::fraction::spec_gcd(1, 0) == 1);
    assert(crate::fraction::spec_gcd(16, 1) == crate::fraction::spec_gcd(1, 0));
    assert(crate::fraction::spec_gcd(1, 16) == crate::fraction::spec_gcd(16, 1));
}

/// A list whose first `k` items already fail to weigh fails the same way.
proof fn lemma_items_weight_prefix_err(items: Seq<ItemStackTemplate>, k: int)
    requires
        0 <= k <= items.len(),
        spec_items_weight(items.take(k)) is Err,
    ensures
        spec_items_weight(items) == spec_items_weight(items.take(k)),
    decreases items.len() - k,
{
    if k < items.len() {
        let longer = items.take(k + 1);
        assert(longer.drop_last() =~= items.take(k));
        assert(spec_items_weight(longer) == spec_items_weight(items.take(k)));
        lemma_items_weight_prefix_err(items, k + 1);
    } else {
        assert(items.take(k) =~= items);
    }
}

/// Law: every weight that can be computed is a valid fraction.
pub proof fn lemma_item_weight_valid(item: ItemStackTemplate)
    requires
        spec_item_weight(item) is Ok,
    ensures
        valid(spec_item_weight(item)->Ok_0),
    decreases item,
{
    match item.bundle_contents {
        Some(b) => {
            lemma_items_weight_valid(b.spec_items());
            lemma_add_value(spec_items_weight(b.spec_items())->Ok_0, sixteenth());
        },
        None => if item.bee_count == 0 {
            lemma_new_value(1, item.max_stack_size);
        },
    }
}

/// Law: every list weight that can be computed is a valid fraction.
pub proof fn lemma_items_weight_valid(items: Seq<ItemStackTemplate>)
    requires
        spec_items_weight(items) is Ok,
    ensures
        valid(spec_items_weight(items)->Ok_0),
    decreases items,
{
    if items.len() > 0 {
        lemma_items_weight_valid(items.drop_last());
        lemma_item_weight_valid(items.last());
        let iw = spec_item_weight(items.last())->Ok_0;
        lemma_multiply_value(iw, items.last().count);
        lemma_add_value(spec_items_weight(items.drop_last())->Ok_0, iw.spec_multiply(items.last().count)->Ok_0);
    }
}

/// Law: a template without bundle contents weighs a whole bundle per item
/// when it holds at least one bee, and otherwise one over its stack size per
/// item, which needs a positive stack size.
pub proof fn lemma_unbundled_item_weight(item: ItemStackTemplate)
    requires
        item.bundle_contents is None,
    ensures
        item.bee_count > 0
            ==> spec_item_weight(item) == Ok::<CheckedFraction, BundleWeightError>(CheckedFraction { numerator: 1, denominator: 1 }),
        item.bee_count == 0 ==> (spec_item_weight(item) is Ok <==> item.max_stack_size > 0),
        item.bee_count == 0 ==> (spec_item_weight(item) matches Ok(w)
            ==> valid(w) && equals_ratio(w, 1, item.max_stack_size as int)),
{
    if item.bee_count == 0 && item.max_stack_size > 0 {
        lemma_new_value(1, item.max_stack_size);
    }
}

/// The weight one template adds to a bundle per item.
pub fn bundle_item_weight(item: &ItemStackTemplate) -> (res: Result<CheckedFraction, BundleWeightError>)
    ensures
        res == spec_item_weight(*item),
        item.bundle_contents is None && item.bee_count > 0
            ==> res == Ok::<CheckedFraction, BundleWeightError>(CheckedFraction { numerator: 1, denominator: 1 }),
        item.bundle_contents is None && item.bee_count == 0 ==> (res is Ok <==> item.max_stack_size > 0),
        item.bundle_contents is None && item.bee_count == 0 ==> (res matches Ok(w)
            ==> valid(w) && equals_ratio(w, 1, item.max_stack_size as int)),
    decreases item,
{
    proof {
        if item.bundle_contents is None {
            lemma_unbundled_item_weight(*item);
        }
    }
    if let Some(bundle) = &item.bundle_contents {
        let inner = bundle.compute_weight()?;
        proof {
            lemma_items_weight_valid(bundle.spec_items());
        }
        let extra = CheckedFraction::new(1, 16)?;
        proof {
            lemma_gcd_one_sixteen();
            assert(extra == sixteenth());
        }
        return inner.add(extra);
    }
    if item.bee_count > 0 {
        return Ok(CheckedFraction { numerator: 1, denominator: 1 });
    }
    CheckedFraction::new(1, item.max_stack_size)
}


/// Law: adding a template to a list adds its weight times its count to the
/// list's weight.
pub proof fn lemma_items_weight_push(items: Seq<ItemStackTemplate>, x: ItemStackTemplate)
    requires
        spec_items_weight(items.push(x)) is Ok,
    ensures
        spec_items_weight(items) is Ok,
        spec_item_weight(x) is Ok,
        ({
            let p = spec_items_weight(items)->Ok_0;
            let iw = spec_item_weight(x)->Ok_0;
            let w = spec_items_weight(items.push(x))->Ok_0;
            equals_ratio(w, p.numerator * iw.denominator + iw.numerator * x.count * p.denominator,
                p.denominator * iw.denominator)
        }),
{
    let all = items.push(x);
    assert(all.drop_last() =~= items);
    assert(all.last() == x);
    lemma_items_weight_valid(items);
    lemma_item_weight_valid(x);
    let p = spec_items_weight(items)->Ok_0;
    let iw = spec_item_weight(x)->Ok_0;
    lemma_multiply_value(iw, x.count);
    let m = iw.spec_multiply(x.count)->Ok_0;
    lemma_add_value(p, m);
    let w = spec_items_weight(all)->Ok_0;
    let big = p.numerator * iw.denominator + iw.numerator * x.count * p.denominator;
    let pp = p.numerator * m.denominator + m.numerator * p.denominator;
    assert(pp * iw.denominator == m.denominator * big) by (nonlinear_arith)
        requires
            m.numerator * iw.denominator == iw.numerator * x.count * m.denominator,
            pp == p.numerator * m.denominator + m.numerator * p.denominator,
            big == p.numerator * iw.denominator + iw.numerator * x.count * p.denominator,
    ;
    assert((w.numerator * (p.denominator * iw.denominator)) * m.denominator == (big * w.denominator) * m.denominator) by (nonlinear_arith)
        requires
            w.numerator * (p.denominator * m.denominator) == pp * w.denominator,
            pp * iw.denominator == m.denominator * big,
    ;
    assert(w.numerator * (p.denominator * iw.denominator) == big * w.denominator) by (nonlinear_arith)
        requires
            (w.numerator * (p.denominator * iw.denominator)) * m.denominator == (big * w.denominator) * m.denominator,
            m.denominator > 0,
    ;
}

/// One slot of a container: its index and the template in it.
#[derive(Debug, PartialEq)]
pub struct ContainerSlot {
    pub index: usize,
    pub item: ItemStackTemplate,
}

/// The template the last of `slots` with index `j` holds, if any.
pub open spec fn spec_last_slot(slots: Seq<ContainerSlot>, j: int) -> Option<ItemStackTemplate>
    decreases slots.len(),
{
    if slots.len() == 0 {
        None
    } else if slots.last().index == j {
        Some(slots.last().item)
    } else {
        spec_last_slot(slots.drop_last(), j)
    }
}

/// One more than the largest slot index, or zero without slots.
pub open spec fn spec_slot_size(slots: Seq<ContainerSlot>) -> int
    decreases slots.len(),
{
    if slots.len() == 0 {
        0
    } else {
        let rest = spec_slot_size(slots.drop_last());
        if slots.last().index + 1 > rest { slots.last().index + 1 } else { rest }
    }
}

proof fn lemma_last_slot_prepend(x: ContainerSlot, slots: Seq<ContainerSlot>, j: int)
    ensures
        spec_last_slot(seq![x] + slots, j) == (match spec_last_slot(slots, j) {
            Some(t) => Some(t),
            None => if x.index == j { Some(x.item) } else { None },
        }),
    decreases slots.len(),
{
    if slots.len() == 0 {
        reveal_with_fuel(spec_last_slot, 2);
        assert(seq![x] + slots =~= seq![x]);
        assert(seq![x].drop_last() =~= Seq::<ContainerSlot>::empty());
        assert(seq![x].last() == x);
    } else {
        assert((seq![x] + slots).drop_last() =~= seq![x] + slots.drop_last());
        assert((seq![x] + slots).last() == slots.last());
        lemma_last_slot_prepend(x, slots.drop_last(), j);
    }
}

proof fn lemma_slot_size_bounds(slots: Seq<ContainerSlot>)
    ensures
        0 <= spec_slot_size(slots),
        forall|i: int| 0 <= i < slots.len() ==> #[trigger] slots[i].index < spec_slot_size(slots),
        forall|j: int| j >= spec_slot_size(slots) ==> #[trigger] spec_last_slot(slots, j) is None,
    decreases slots.len(),
{
    if slots.len() > 0 {
        lemma_slot_size_bounds(slots.drop_last());
        assert forall|i: int| 0 <= i < slots.len() implies #[trigger] slots[i].index < spec_slot_size(slots) by {
            if i < slots.len() - 1 {
                assert(slots.drop_last()[i] == slots[i]);
            }
        }
        assert forall|j: int| j >= spec_slot_size(slots) implies #[trigger] spec_last_slot(slots, j) is None by {
            assert(spec_last_slot(slots.drop_last(), j) is None);
        }
    }
}

proof fn lemma_slot_size_max(slots: Seq<ContainerSlot>)
    requires
        forall|i: int| 0 <= i < slots.len() ==> #[trigger] slots[i].index < 256,
    ensures
        spec_slot_size(slots) <= 256,
    decreases slots.len(),
{
    if slots.len() > 0 {
        assert forall|i: int| 0 <= i < slots.drop_last().len() implies #[trigger] slots.drop_last()[i].index < 256 by {
            assert(slots.drop_last()[i] == slots[i]);
        }
        lemma_slot_size_max(slots.drop_last());
        assert(slots[slots.len() - 1].index < 256);
    }
}

/// Up to 256 container slots, each empty or holding a template.
#[derive(Debug, PartialEq)]
pub struct ItemContainerContents {
    items: Vec<Option<ItemStackTemplate>>,
}

impl Default for ItemContainerContents {
    fn default() -> (res: Self)
        ensures
            res.spec_items() == Seq::<Option<ItemStackTemplate>>::empty(),
    {
        ItemContainerContents::empty()
    }
}

impl ItemContainerContents {
    /// The most slots a container has.
    pub const MAX_SIZE: usize = 256;

    /// The slots, in order.
    pub closed spec fn spec_items(self) -> Seq<Option<ItemStackTemplate>> {
        self.items@
    }

    /// No slots.
    pub fn empty() -> (res: Self)
        ensures
            res.spec_items() == Seq::<Option<ItemStackTemplate>>::empty(),
    {
        ItemContainerContents { items: Vec::new() }
    }

    /// The given slots; more than the maximum is refused.
    pub fn new(items: Vec<Option<ItemStackTemplate>>) -> (res: Result<Self, WireError>)
        ensures
            res is Ok <==> items@.len() <= Self::MAX_SIZE,
            res matches Ok(c) ==> c.spec_items() == items@,
            res matches Err(e) ==> e == WireError::TooMany,
    {
        if items.len() > Self::MAX_SIZE {
            return Err(WireError::TooMany);
        }
        Ok(ItemContainerContents { items })
    }

    /// The slots, in order.
    pub fn items(&self) -> (res: &[Option<ItemStackTemplate>])
        ensures
            res@ == self.spec_items(),
    {
        self.items.as_slice()
    }

    /// The filled slots in ascending index order, each with its index.
    pub fn slots(&self) -> (res: Vec<(usize, &ItemStackTemplate)>)
        ensures
            forall|k: int| 0 <= k < res@.len() ==> (#[trigger] res@[k]).0 < self.spec_items().len()
                && self.spec_items()[res@[k].0 as int] == Some(*res@[k].1),
            forall|a: int, b: int| 0 <= a < b < res@.len() ==> (#[trigger] res@[a]).0 < (#[trigger] res@[b]).0,
            forall|j: int| 0 <= j < self.spec_items().len() && (#[trigger] self.spec_items()[j]) is Some ==>
                exists|k: int| 0 <= k < res@.len() && res@[k].0 == j,
    {
        let mut res: Vec<(usize, &ItemStackTemplate)> = Vec::new();
        let mut i: usize = 0;
        while i < self.items.len()
            invariant
                i <= self.items@.len(),
                forall|k: int| 0 <= k < res@.len() ==> (#[trigger] res@[k]).0 < i
                    && self.items@[res@[k].0 as int] == Some(*res@[k].1),
                forall|a: int, b: int| 0 <= a < b < res@.len() ==> (#[trigger] res@[a]).0 < (#[trigger] res@[b]).0,
                forall|j: int| 0 <= j < i && (#[trigger] self.items@[j]) is Some ==>
                    exists|k: int| 0 <= k < res@.len() && res@[k].0 == j,
            decreases self.items.len() - i,
        {
            match &self.items[i] {
                Some(item) => {
                    let ghost before = res@;
                    res.push((i, item));
                    proof {
                        assert(res@[res@.len() - 1].0 == i);
                        assert forall|j: int| 0 <= j < i + 1 && (#[trigger] self.items@[j]) is Some implies
                            exists|k: int| 0 <= k < res@.len() && res@[k].0 == j by {
                            if j < i {
                                let k = choose|k: int| 0 <= k < before.len() && before[k].0 == j;
                                assert(res@[k] == before[k]);
                            } else {
                                assert(res@[res@.len() - 1].0 == j);
                            }
                        }
                    }
                },
                None => {},
            }
            i = i + 1;
        }
        res
    }

    /// The dense slots the sparse `slots` describe: as many as one past the
    /// largest index, each holding the template of the last slot with its
    /// index; more than the maximum number of slots is refused.
    pub(crate) fn from_slots(slots: Vec<ContainerSlot>) -> (res: Option<Self>)
        requires
            forall|i: int| 0 <= i < slots@.len() ==> #[trigger] slots@[i].index < Self::MAX_SIZE,
        ensures
            res is Some <==> slots@.len() <= Self::MAX_SIZE,
            res matches Some(c) ==> c.spec_items().len() == spec_slot_size(slots@)
                && forall|j: int| 0 <= j < c.spec_items().len() ==> #[trigger] c.spec_items()[j] == spec_last_slot(slots@, j),
    {
        if slots.len() > Self::MAX_SIZE {
            return None;
        }
        let ghost orig = slots@;
        proof {
            lemma_slot_size_bounds(orig);
        }
        let mut size: usize = 0;
        let mut i: usize = 0;
        while i < slots.len()
            invariant
                slots@ == orig,
                i <= slots@.len(),
                forall|k: int| 0 <= k < slots@.len() ==> #[trigger] slots@[k].index < 256,
                size == spec_slot_size(slots@.take(i as int)),
                size <= 256,
            decreases slots.len() - i,
        {
            proof {
                assert(slots@.take(i + 1).drop_last() =~= slots@.take(i as int));
                assert(slots@.take(i + 1).last() == slots@[i as int]);
                assert forall|k: int| 0 <= k < slots@.take(i + 1).len() implies #[trigger] slots@.take(i + 1)[k].index < 256 by {
                    assert(slots@.take(i + 1)[k] == slots@[k]);
                }
                lemma_slot_size_max(slots@.take(i + 1));
            }
            if slots[i].index + 1 > size {
                size = slots[i].index + 1;
            }
            i = i + 1;
        }
        assert(slots@.take(i as int) =~= orig);
        let mut items: Vec<Option<ItemStackTemplate>> = Vec::new();
        while items.len() < size
            invariant
                items@.len() <= size,
                forall|j: int| 0 <= j < items@.len() ==> #[trigger] items@[j] is None,
            decreases size - items.len(),
        {
            items.push(None);
        }
        let mut slots = slots;
        assert(orig.subrange(orig.len() as int, orig.len() as int) =~= Seq::<ContainerSlot>::empty());
        while slots.len() > 0
            invariant
                slots@ == orig.take(slots@.len() as int),
                slots@.len() <= orig.len(),
                items@.len() == size == spec_slot_size(orig),
                forall|k: int| 0 <= k < orig.len() ==> #[trigger] orig[k].index < spec_slot_size(orig),
                forall|j: int| 0 <= j < items@.len() ==> #[trigger] items@[j] == spec_last_slot(orig.subrange(slots@.len() as int, orig.len() as int), j),
            decreases slots.len(),
        {
            let ghost n = slots@.len();
            let slot = slots.pop().unwrap();
            proof {
                assert(slot == orig[n - 1]);
                assert(orig.subrange(n - 1, orig.len() as int) =~= seq![slot] + orig.subrange(n as int, orig.len() as int));
                assert(slots@ =~= orig.take(n - 1));
            }
            let idx = slot.index;
            let ghost before = items@;
            if items[idx].is_none() {
                items.set(idx, Some(slot.item));
            }
            proof {
                assert forall|j: int| 0 <= j < items@.len() implies #[trigger] items@[j] == spec_last_slot(orig.subrange(n - 1, orig.len() as int), j) by {
                    lemma_last_slot_prepend(slot, orig.subrange(n as int, orig.len() as int), j);
                }
            }
        }
        proof {
            assert(orig.subrange(0, orig.len() as int) =~= orig);
        }
        Some(ItemContainerContents { items })
    }
}

/// The absorbed block item a sulfur cube carries.
#[derive(Debug, PartialEq)]
pub struct SulfurCubeContent {
    absorbed_block_item_stack: ItemStackTemplate,
}

impl SulfurCubeContent {
    /// The absorbed block item.
    pub closed spec fn spec_absorbed(self) -> ItemStackTemplate {
        self.absorbed_block_item_stack
    }

    /// Carries `absorbed_block_item_stack`.
    pub fn new(absorbed_block_item_stack: ItemStackTemplate) -> (res: Self)
        ensures
            res.spec_absorbed() == absorbed_block_item_stack,
    {
        SulfurCubeContent { absorbed_block_item_stack }
    }

    /// The absorbed block item.
    pub fn absorbed_block_item_stack(&self) -> (res: &ItemStackTemplate)
        ensures
            *res == self.spec_absorbed(),
    {
        &self.absorbed_block_item_stack
    }
}

} // verus!
