//! Type-erased component values and the codec each registered component uses.

use vstd::prelude::*;
use crate::components::block_state::{
    BlockItemStateProperties, lemma_properties_view, lemma_properties_view_nbt_round_trip,
    lemma_properties_view_round_trip, properties_view_bytes, properties_view_encodable, properties_view_nbt,
};
use crate::components::books::{
    WritableBookContent, lemma_writable_book_nbt_round_trip, lemma_writable_book_round_trip,
    lemma_writable_book_view, page_view_fits, page_view_within, writable_book_view_bytes,
};
use crate::components::enchantable::Enchantable;
use crate::components::fireworks::{
    FireworkExplosion, FireworkExplosionShape, Fireworks, explosion_view_bytes,
    lemma_explosion_nbt_round_trip, lemma_explosion_round_trip, fireworks_view_bytes, fireworks_view_encodable,
    lemma_fireworks_nbt_round_trip, lemma_fireworks_round_trip, lemma_fireworks_view,
};
use crate::components::item_colors::{
    DyedItemColor, MapItemColor, lemma_dyed_color_round_trip, lemma_map_color_round_trip,
};
use crate::components::map_post_processing::{MapPostProcessing, lemma_map_post_processing_round_trip};
use crate::components::ominous_bottle_amplifier::{OminousBottleAmplifier, lemma_ominous_amplifier_round_trip};
use crate::components::rarity::{Rarity, lemma_rarity_name_round_trip, lemma_rarity_network_round_trip};
use crate::components::swing_animation::{
    SwingAnimation, lemma_swing_animation_network_round_trip, lemma_swing_animation_nbt_round_trip,
};
use crate::components::tooltip_display::{
    TooltipDisplay, display_nbt_form, display_nbt_round_trips, display_view_bytes, display_view_encodable,
    lemma_display_nbt_round_trip, lemma_display_view_round_trip,
};
use crate::identifier::{parse_identifier, spec_parse_identifier};
use crate::patch::{ComponentEntry, DataComponentRegistry};
use crate::nbt::{NbtTag, codec_bool, codec_i32, spec_codec_bool, spec_codec_i32};
use crate::wire::{
    WireError, lemma_network_string_round_trip, read_network_string, spec_read_network_string, str_equals,
    string_bytes, string_fits, write_network_string, bool_byte, i32_be_bytes, lemma_bool_round_trip, lemma_varint_round_trip, read_agrees,
    read_bool, read_varint, spec_read_bool, spec_read_varint, varint_bytes, write_bool, write_varint,
};

verus! {

/// The network codec a registered component uses.
#[derive(Debug, Clone, Copy, PartialEq, Eq, Structural)]
pub enum ComponentKind {
    /// A marker component with no payload.
    Empty,
    /// One byte, zero for `false`.
    Bool,
    /// An `i32` as a `VarInt` (damage, maximum damage, stack size, repair cost, map id, ...).
    VarInt,
    /// An item rarity by network id.
    Rarity,
    /// A dyed color, as a big-endian `i32`.
    DyedColor,
    /// A map color, as a big-endian `i32`.
    MapColor,
    /// An ominous bottle amplifier.
    OminousBottleAmplifier,
    /// A map post-processing step by id.
    MapPostProcessing,
    /// A swing animation.
    SwingAnimation,
    /// A positive enchantability as a `VarInt`.
    Enchantable,
    /// A firework rocket: its flight duration and explosions.
    Fireworks,
    /// One firework explosion.
    FireworkExplosion,
    /// A book and quill's pages.
    WritableBook,
    /// Block-state properties by name.
    BlockState,
    /// Which tooltip lines are hidden, by component network id.
    TooltipDisplay,
    /// A namespaced identifier as a string, written in full and read in
    /// either form.
    Identifier,
    /// A codec this library does not model (text, float, holder, item
    /// template and similar values); such components are refused.
    External,
}

/// A component value of one of the supported codecs.
#[derive(Debug, Clone, PartialEq)]
pub enum ComponentData {
    Empty,
    Bool(bool),
    I32(i32),
    Rarity(Rarity),
    DyedColor(DyedItemColor),
    MapColor(MapItemColor),
    OminousBottleAmplifier(OminousBottleAmplifier),
    MapPostProcessing(MapPostProcessing),
    SwingAnimation(SwingAnimation),
    Enchantable(Enchantable),
    Fireworks(Fireworks),
    FireworkExplosion(FireworkExplosion),
    WritableBook(WritableBookContent),
    BlockState(BlockItemStateProperties),
    TooltipDisplay(TooltipDisplay),
    /// A namespaced identifier.
    Identifier(String),
}

/// The value a component holds, as specifications see it.
#[verifier::ext_equal]
pub enum DataView {
    Empty,
    Bool(bool),
    I32(i32),
    Rarity(Rarity),
    DyedColor(DyedItemColor),
    MapColor(MapItemColor),
    OminousBottleAmplifier(OminousBottleAmplifier),
    MapPostProcessing(MapPostProcessing),
    SwingAnimation(SwingAnimation),
    /// A positive enchantability.
    Enchantable(i32),
    /// A firework rocket: its flight duration and the fields of each explosion.
    Fireworks(i32, Seq<(FireworkExplosionShape, Seq<i32>, Seq<i32>, bool, bool)>),
    /// A firework explosion: shape, colors, fade colors, trail and twinkle.
    FireworkExplosion((FireworkExplosionShape, Seq<i32>, Seq<i32>, bool, bool)),
    /// A book and quill: each page's raw and filtered text.
    WritableBook(Seq<(Seq<char>, Option<Seq<char>>)>),
    /// Block-state properties: the value of each property name.
    BlockState(Map<Seq<char>, Seq<char>>),
    /// A tooltip display: whether the whole tooltip is hidden, and the keys
    /// of the components whose lines are hidden.
    TooltipDisplay(bool, Seq<Seq<char>>),
    /// A namespaced identifier.
    Identifier(Seq<char>),
}

impl View for ComponentData {
    type V = DataView;

    open spec fn view(&self) -> DataView {
        match *self {
            ComponentData::Empty => DataView::Empty,
            ComponentData::Bool(b) => DataView::Bool(b),
            ComponentData::I32(v) => DataView::I32(v),
            ComponentData::Rarity(r) => DataView::Rarity(r),
            ComponentData::DyedColor(c) => DataView::DyedColor(c),
            ComponentData::MapColor(c) => DataView::MapColor(c),
            ComponentData::OminousBottleAmplifier(a) => DataView::OminousBottleAmplifier(a),
            ComponentData::MapPostProcessing(m) => DataView::MapPostProcessing(m),
            ComponentData::SwingAnimation(a) => DataView::SwingAnimation(a),
            ComponentData::Enchantable(e) => DataView::Enchantable(e.spec_value()),
            ComponentData::Fireworks(f) => DataView::Fireworks(f.spec_flight_duration(), f.explosion_fields()),
            ComponentData::FireworkExplosion(e) => DataView::FireworkExplosion(e.fields()),
            ComponentData::WritableBook(b) => DataView::WritableBook(b.page_chars()),
            ComponentData::BlockState(p) => DataView::BlockState(p.spec_map()),
            ComponentData::TooltipDisplay(d) => DataView::TooltipDisplay(d.spec_hide_tooltip(), d.spec_hidden()),
            ComponentData::Identifier(id) => DataView::Identifier(id@),
        }
    }
}

impl DataView {
    /// The codec that writes this value.
    pub open spec fn kind(self) -> ComponentKind {
        match self {
            DataView::Empty => ComponentKind::Empty,
            DataView::Bool(_) => ComponentKind::Bool,
            DataView::I32(_) => ComponentKind::VarInt,
            DataView::Rarity(_) => ComponentKind::Rarity,
            DataView::DyedColor(_) => ComponentKind::DyedColor,
            DataView::MapColor(_) => ComponentKind::MapColor,
            DataView::OminousBottleAmplifier(_) => ComponentKind::OminousBottleAmplifier,
            DataView::MapPostProcessing(_) => ComponentKind::MapPostProcessing,
            DataView::SwingAnimation(_) => ComponentKind::SwingAnimation,
            DataView::Enchantable(_) => ComponentKind::Enchantable,
            DataView::Fireworks(_, _) => ComponentKind::Fireworks,
            DataView::FireworkExplosion(_) => ComponentKind::FireworkExplosion,
            DataView::WritableBook(_) => ComponentKind::WritableBook,
            DataView::BlockState(_) => ComponentKind::BlockState,
            DataView::TooltipDisplay(_, _) => ComponentKind::TooltipDisplay,
            DataView::Identifier(_) => ComponentKind::Identifier,
        }
    }

    /// Whether the network codec writes this value over the component
    /// registry `entries`.
    #[verifier::opaque]
    pub open spec fn encodable(self, entries: Seq<ComponentEntry>) -> bool {
        match self {
            DataView::Enchantable(v) => v > 0,
            DataView::Fireworks(_, fs) => fireworks_view_encodable(fs),
            DataView::FireworkExplosion(f) => f.1.len() <= i32::MAX && f.2.len() <= i32::MAX,
            DataView::WritableBook(pages) => pages.len() <= WritableBookContent::MAX_PAGES
                && forall|i: int| 0 <= i < pages.len() ==> #[trigger] page_view_fits(pages[i]),
            DataView::BlockState(m) => properties_view_encodable(m),
            DataView::TooltipDisplay(_, keys) => display_view_encodable(keys, entries),
            DataView::Identifier(id) => is_full_identifier(id) && string_fits(id, MAX_IDENTIFIER_LENGTH as int),
            _ => true,
        }
    }

    /// The network form of the value over the component registry `entries`.
    #[verifier::opaque]
    pub open spec fn spec_bytes(self, entries: Seq<ComponentEntry>) -> Seq<u8> {
        match self {
            DataView::Empty => Seq::empty(),
            DataView::Bool(b) => seq![bool_byte(b)],
            DataView::I32(v) => varint_bytes(v),
            DataView::Rarity(r) => varint_bytes(r.spec_network_id()),
            DataView::DyedColor(c) => i32_be_bytes(c.spec_rgb()),
            DataView::MapColor(c) => i32_be_bytes(c.spec_rgb()),
            DataView::OminousBottleAmplifier(a) => varint_bytes(a.value),
            DataView::MapPostProcessing(m) => varint_bytes(m.spec_id()),
            DataView::SwingAnimation(s) => s.spec_bytes(),
            DataView::Enchantable(v) => varint_bytes(v),
            DataView::Fireworks(flight, fs) => fireworks_view_bytes(flight, fs),
            DataView::FireworkExplosion(f) => explosion_view_bytes(f),
            DataView::WritableBook(pages) => writable_book_view_bytes(pages),
            DataView::BlockState(m) => properties_view_bytes(m),
            DataView::TooltipDisplay(hide, keys) => display_view_bytes(hide, keys, entries),
            DataView::Identifier(id) => string_bytes(id),
        }
    }

    /// Reads a value with codec `kind` at `pos` over the component registry
    /// `entries`.
    #[verifier::opaque]
    pub open spec fn spec_read(kind: ComponentKind, s: Seq<u8>, pos: int, entries: Seq<ComponentEntry>) -> Result<(DataView, int), WireError> {
        match kind {
            ComponentKind::Empty => Ok((DataView::Empty, pos)),
            ComponentKind::Bool => match spec_read_bool(s, pos) {
                Ok((b, end)) => Ok((DataView::Bool(b), end)),
                Err(e) => Err(e),
            },
            ComponentKind::VarInt => match spec_read_varint(s, pos) {
                Ok((v, end)) => Ok((DataView::I32(v), end)),
                Err(e) => Err(e),
            },
            ComponentKind::Rarity => match Rarity::spec_read(s, pos) {
                Ok((v, end)) => Ok((DataView::Rarity(v), end)),
                Err(e) => Err(e),
            },
            ComponentKind::DyedColor => match DyedItemColor::spec_read(s, pos) {
                Ok((v, end)) => Ok((DataView::DyedColor(v), end)),
                Err(e) => Err(e),
            },
            ComponentKind::MapColor => match MapItemColor::spec_read(s, pos) {
                Ok((v, end)) => Ok((DataView::MapColor(v), end)),
                Err(e) => Err(e),
            },
            ComponentKind::OminousBottleAmplifier => match OminousBottleAmplifier::spec_read(s, pos) {
                Ok((v, end)) => Ok((DataView::OminousBottleAmplifier(v), end)),
                Err(e) => Err(e),
            },
            ComponentKind::MapPostProcessing => match MapPostProcessing::spec_read(s, pos) {
                Ok((v, end)) => Ok((DataView::MapPostProcessing(v), end)),
                Err(e) => Err(e),
            },
            ComponentKind::SwingAnimation => match SwingAnimation::spec_read(s, pos) {
                Ok((v, end)) => Ok((DataView::SwingAnimation(v), end)),
                Err(e) => Err(e),
            },
            ComponentKind::Enchantable => match spec_read_varint(s, pos) {
                Ok((v, end)) => if v > 0 { Ok((DataView::Enchantable(v), end)) } else { Err(WireError::Invalid) },
                Err(e) => Err(e),
            },
            ComponentKind::Fireworks => match Fireworks::spec_read(s, pos) {
                Ok(((flight, fs), end)) => Ok((DataView::Fireworks(flight, fs), end)),
                Err(e) => Err(e),
            },
            ComponentKind::FireworkExplosion => match FireworkExplosion::spec_read(s, pos) {
                Ok((f, end)) => Ok((DataView::FireworkExplosion(f), end)),
                Err(e) => Err(e),
            },
            ComponentKind::WritableBook => match WritableBookContent::spec_read(s, pos) {
                Ok((pages, end)) => Ok((DataView::WritableBook(pages), end)),
                Err(e) => Err(e),
            },
            ComponentKind::BlockState => match BlockItemStateProperties::spec_read(s, pos) {
                Ok((m, end)) => Ok((DataView::BlockState(m), end)),
                Err(e) => Err(e),
            },
            ComponentKind::TooltipDisplay => match TooltipDisplay::spec_read(s, pos, entries) {
                Ok((hide, keys, end)) => Ok((DataView::TooltipDisplay(hide, keys), end)),
                Err(e) => Err(e),
            },
            ComponentKind::Identifier => match spec_read_network_string(s, pos, MAX_IDENTIFIER_LENGTH as int) {
                Ok((text, end)) => match spec_parse_identifier(text) {
                    Some(id) => Ok((DataView::Identifier(id), end)),
                    None => Err(WireError::Invalid),
                },
                Err(e) => Err(e),
            },
            ComponentKind::External => Err(WireError::Unsupported),
        }
    }

    /// Whether the persistent codec `codec` writes this value: the value has
    /// the codec's type, and a ranged int lies within its range.
    pub open spec fn nbt_encodable(self, codec: PersistentCodec) -> bool {
        match (self, codec) {
            (DataView::Empty, PersistentCodec::Unit) => true,
            (DataView::Bool(_), PersistentCodec::Bool) => true,
            (DataView::I32(v), PersistentCodec::RangedInt { min, max }) => min <= v <= max,
            (DataView::Rarity(_), PersistentCodec::Rarity) => true,
            (DataView::DyedColor(_), PersistentCodec::DyedColor) => true,
            (DataView::MapColor(_), PersistentCodec::MapColor) => true,
            (DataView::OminousBottleAmplifier(_), PersistentCodec::OminousBottleAmplifier) => true,
            (DataView::SwingAnimation(_), PersistentCodec::SwingAnimation) => true,
            (DataView::Enchantable(_), PersistentCodec::Enchantable) => true,
            (DataView::Fireworks(flight, _), PersistentCodec::Fireworks) => flight <= 255,
            (DataView::FireworkExplosion(_), PersistentCodec::FireworkExplosion) => true,
            (DataView::WritableBook(_), PersistentCodec::WritableBook) => true,
            (DataView::BlockState(_), PersistentCodec::BlockState) => true,
            (DataView::TooltipDisplay(_, _), PersistentCodec::TooltipDisplay) => true,
            (DataView::Identifier(id), PersistentCodec::Identifier) => is_full_identifier(id),
            _ => false,
        }
    }

    /// Whether `tag` is the persistent form of this value.
    #[verifier::opaque]
    pub open spec fn is_nbt(self, tag: NbtTag) -> bool {
        match self {
            DataView::Empty => tag matches NbtTag::Compound(es) && es@.len() == 0,
            DataView::Bool(b) => tag == NbtTag::Byte(if b { 1i8 } else { 0i8 }),
            DataView::I32(v) => tag == NbtTag::Int(v),
            DataView::Rarity(r) => tag matches NbtTag::String(s) && s@ == r.spec_serialized_name(),
            DataView::DyedColor(c) => tag == NbtTag::Int(c.spec_rgb()),
            DataView::MapColor(c) => tag == NbtTag::Int(c.spec_rgb()),
            DataView::OminousBottleAmplifier(a) => tag == NbtTag::Int(a.value),
            DataView::MapPostProcessing(_) => false,
            DataView::SwingAnimation(a) => a.spec_nbt(tag),
            DataView::Enchantable(v) => tag matches NbtTag::Compound(es) && es@.len() == 1
                && es@[0].0@ == "value"@ && es@[0].1 == NbtTag::Int(v),
            DataView::Fireworks(flight, fs) => exists|f: Fireworks| #[trigger] f.spec_flight_duration() == flight
                && f.explosion_fields() == fs && (tag matches NbtTag::Compound(es) && f.is_nbt_entries(es@)),
            DataView::FireworkExplosion(fields) => exists|e: FireworkExplosion| #[trigger] e.fields() == fields
                && (tag matches NbtTag::Compound(es) && e.is_nbt_entries(es@)),
            DataView::WritableBook(pages) => exists|b: WritableBookContent| #[trigger] b.page_chars() == pages
                && b.is_nbt_form(tag),
            DataView::BlockState(m) => properties_view_nbt(m, tag),
            DataView::TooltipDisplay(hide, keys) => display_nbt_form(hide, keys, tag),
            DataView::Identifier(id) => tag matches NbtTag::String(text) && text@ == id,
        }
    }

    /// Reads a persistent form with `codec` over the component registry
    /// `entries`.
    #[verifier::opaque]
    pub open spec fn spec_read_nbt(codec: PersistentCodec, tag: NbtTag, entries: Seq<ComponentEntry>) -> Option<DataView> {
        match codec {
            PersistentCodec::Unit => if tag is Compound { Some(DataView::Empty) } else { None },
            PersistentCodec::Bool => match spec_codec_bool(tag) {
                Some(b) => Some(DataView::Bool(b)),
                None => None,
            },
            PersistentCodec::RangedInt { min, max } => match spec_codec_i32(tag) {
                Some(v) => if min <= v <= max { Some(DataView::I32(v)) } else { None },
                None => None,
            },
            PersistentCodec::Rarity => match tag {
                NbtTag::String(s) => match Rarity::spec_from_serialized_name(s@) {
                    Some(r) => Some(DataView::Rarity(r)),
                    None => None,
                },
                _ => None,
            },
            PersistentCodec::DyedColor => match spec_codec_i32(tag) {
                Some(v) => Some(DataView::DyedColor(DyedItemColor { rgb: v })),
                None => None,
            },
            PersistentCodec::MapColor => match spec_codec_i32(tag) {
                Some(v) => Some(DataView::MapColor(MapItemColor { rgb: v })),
                None => None,
            },
            PersistentCodec::OminousBottleAmplifier => match spec_codec_i32(tag) {
                Some(v) => if 0 <= v <= 4 { Some(DataView::OminousBottleAmplifier(OminousBottleAmplifier { value: v })) } else { None },
                None => None,
            },
            PersistentCodec::SwingAnimation => match SwingAnimation::spec_from_nbt(tag) {
                Some(a) => Some(DataView::SwingAnimation(a)),
                None => None,
            },
            PersistentCodec::Enchantable => match Enchantable::spec_nbt_value(tag) {
                Some(v) => Some(DataView::Enchantable(v)),
                None => None,
            },
            PersistentCodec::Fireworks => match tag {
                NbtTag::Compound(es) => match Fireworks::spec_from_nbt_entries(es@) {
                    Some((flight, fs)) => Some(DataView::Fireworks(flight, fs)),
                    None => None,
                },
                _ => None,
            },
            PersistentCodec::FireworkExplosion => match tag {
                NbtTag::Compound(es) => match FireworkExplosion::spec_from_nbt_entries(es@) {
                    Some(f) => Some(DataView::FireworkExplosion(f)),
                    None => None,
                },
                _ => None,
            },
            PersistentCodec::WritableBook => match WritableBookContent::spec_from_nbt(tag) {
                Some(pages) => Some(DataView::WritableBook(pages)),
                None => None,
            },
            PersistentCodec::BlockState => match BlockItemStateProperties::spec_from_nbt(tag) {
                Some(m) => Some(DataView::BlockState(m)),
                None => None,
            },
            PersistentCodec::TooltipDisplay => match TooltipDisplay::spec_from_nbt(tag, entries) {
                Some((hide, keys)) => Some(DataView::TooltipDisplay(hide, keys)),
                None => None,
            },
            PersistentCodec::Identifier => match tag {
                NbtTag::String(text) => match spec_parse_identifier(text@) {
                    Some(id) => Some(DataView::Identifier(id)),
                    None => None,
                },
                _ => None,
            },
            PersistentCodec::External => None,
        }
    }
}

impl ComponentData {
    /// The codec that writes this value.
    pub fn get_kind(&self) -> (res: ComponentKind)
        ensures
            res == self@.kind(),
    {
        match self {
            ComponentData::Empty => ComponentKind::Empty,
            ComponentData::Bool(_) => ComponentKind::Bool,
            ComponentData::I32(_) => ComponentKind::VarInt,
            ComponentData::Rarity(_) => ComponentKind::Rarity,
            ComponentData::DyedColor(_) => ComponentKind::DyedColor,
            ComponentData::MapColor(_) => ComponentKind::MapColor,
            ComponentData::OminousBottleAmplifier(_) => ComponentKind::OminousBottleAmplifier,
            ComponentData::MapPostProcessing(_) => ComponentKind::MapPostProcessing,
            ComponentData::SwingAnimation(_) => ComponentKind::SwingAnimation,
            ComponentData::Enchantable(_) => ComponentKind::Enchantable,
            ComponentData::Fireworks(_) => ComponentKind::Fireworks,
            ComponentData::FireworkExplosion(_) => ComponentKind::FireworkExplosion,
            ComponentData::WritableBook(_) => ComponentKind::WritableBook,
            ComponentData::BlockState(_) => ComponentKind::BlockState,
            ComponentData::TooltipDisplay(_) => ComponentKind::TooltipDisplay,
            ComponentData::Identifier(_) => ComponentKind::Identifier,
        }
    }

    /// Whether this is the marker value.
    pub fn is_empty(&self) -> (res: bool)
        ensures
            res == (*self is Empty),
    {
        match self {
            ComponentData::Empty => true,
            _ => false,
        }
    }

    /// Appends the network form of the value over `registry`; a value the
    /// codec cannot write is refused.
    #[verifier::spinoff_prover]
    pub fn write(&self, buf: &mut Vec<u8>, registry: &DataComponentRegistry) -> (res: Result<(), WireError>)
        requires
            registry.wf(),
        ensures
            res is Ok <==> self@.encodable(registry.spec_entries()),
            res is Ok ==> final(buf)@ == old(buf)@ + self@.spec_bytes(registry.spec_entries()),
    {
        reveal(DataView::encodable);
        reveal(DataView::spec_bytes);
        match self {
            ComponentData::Empty => {
                assert(buf@ =~= old(buf)@ + Seq::<u8>::empty());
            },
            ComponentData::Bool(b) => write_bool(buf, *b),
            ComponentData::I32(v) => write_varint(buf, *v),
            ComponentData::Rarity(r) => r.write(buf),
            ComponentData::DyedColor(c) => c.write(buf),
            ComponentData::MapColor(c) => c.write(buf),
            ComponentData::OminousBottleAmplifier(a) => a.write(buf),
            ComponentData::MapPostProcessing(m) => m.write(buf),
            ComponentData::SwingAnimation(s) => s.write(buf),
            ComponentData::Enchantable(e) => {
                let v = e.value();
                e.write(buf);
            },
            ComponentData::Fireworks(f) => {
                proof {
                    lemma_fireworks_view(*f);
                }
                if f.explosions().len() > Fireworks::MAX_EXPLOSIONS {
                    return Err(WireError::TooMany);
                }
                f.write(buf)?;
            },
            ComponentData::FireworkExplosion(e) => {
                proof {
                    reveal(FireworkExplosion::spec_bytes);
                }
                e.write(buf)?;
            },
            ComponentData::WritableBook(b) => {
                proof {
                    lemma_writable_book_view(*b);
                }
                b.write(buf)?;
            },
            ComponentData::BlockState(p) => {
                let r = p.write(buf);
                proof {
                    lemma_properties_view(*p);
                }
                r?;
            },
            ComponentData::TooltipDisplay(d) => {
                proof {
                    use_type_invariant(d);
                }
                d.write(buf, registry)?;
            },
            ComponentData::Identifier(id) => {
                if !check_full_identifier(id.as_str()) {
                    return Err(WireError::Invalid);
                }
                write_network_string(buf, id.as_str(), MAX_IDENTIFIER_LENGTH)?;
            },
        }
        Ok(())
    }

    /// Reads a value with codec `kind` at `pos` over `registry`.
    #[verifier::spinoff_prover]
    pub fn read(kind: ComponentKind, data: &[u8], pos: usize, registry: &DataComponentRegistry) -> (res: Result<(ComponentData, usize), WireError>)
        ensures
            match (res, DataView::spec_read(kind, data@, pos as int, registry.spec_entries())) {
                (Ok((d, end)), Ok((v, send))) => d@ == v && end == send,
                (Err(e), Err(se)) => e == se,
                _ => false,
            },
    {
        reveal(DataView::spec_read);
        match kind {
            ComponentKind::Empty => Ok((ComponentData::Empty, pos)),
            ComponentKind::Bool => {
                let (b, end) = read_bool(data, pos)?;
                Ok((ComponentData::Bool(b), end))
            },
            ComponentKind::VarInt => {
                let (v, end) = read_varint(data, pos)?;
                Ok((ComponentData::I32(v), end))
            },
            ComponentKind::Rarity => {
                let (v, end) = Rarity::read(data, pos)?;
                Ok((ComponentData::Rarity(v), end))
            },
            ComponentKind::DyedColor => {
                let (v, end) = DyedItemColor::read(data, pos)?;
                Ok((ComponentData::DyedColor(v), end))
            },
            ComponentKind::MapColor => {
                let (v, end) = MapItemColor::read(data, pos)?;
                Ok((ComponentData::MapColor(v), end))
            },
            ComponentKind::OminousBottleAmplifier => {
                let (v, end) = OminousBottleAmplifier::read(data, pos)?;
                Ok((ComponentData::OminousBottleAmplifier(v), end))
            },
            ComponentKind::MapPostProcessing => {
                let (v, end) = MapPostProcessing::read(data, pos)?;
                Ok((ComponentData::MapPostProcessing(v), end))
            },
            ComponentKind::SwingAnimation => {
                let (v, end) = SwingAnimation::read(data, pos)?;
                Ok((ComponentData::SwingAnimation(v), end))
            },
            ComponentKind::Enchantable => {
                let (v, end) = Enchantable::read(data, pos)?;
                Ok((ComponentData::Enchantable(v), end))
            },
            ComponentKind::Fireworks => {
                let (v, end) = Fireworks::read(data, pos)?;
                Ok((ComponentData::Fireworks(v), end))
            },
            ComponentKind::FireworkExplosion => {
                let (v, end) = FireworkExplosion::read(data, pos)?;
                Ok((ComponentData::FireworkExplosion(v), end))
            },
            ComponentKind::WritableBook => {
                let (v, end) = WritableBookContent::read(data, pos)?;
                Ok((ComponentData::WritableBook(v), end))
            },
            ComponentKind::BlockState => {
                let (v, end) = BlockItemStateProperties::read(data, pos)?;
                Ok((ComponentData::BlockState(v), end))
            },
            ComponentKind::TooltipDisplay => {
                let (v, end) = TooltipDisplay::read(data, pos, registry)?;
                Ok((ComponentData::TooltipDisplay(v), end))
            },
            ComponentKind::Identifier => {
                let (text, end) = read_network_string(data, pos, MAX_IDENTIFIER_LENGTH)?;
                match parse_identifier(text.as_str()) {
                    Some(id) => Ok((ComponentData::Identifier(id), end)),
                    None => Err(WireError::Invalid),
                }
            },
            ComponentKind::External => Err(WireError::Unsupported),
        }
    }

    /// Writes the persistent form with `codec`; a value of another type, or a
    /// ranged int out of range, is refused.
    #[verifier::spinoff_prover]
    pub fn write_nbt(&self, codec: PersistentCodec) -> (res: Result<NbtTag, WireError>)
        ensures
            res is Ok <==> self@.nbt_encodable(codec),
            res matches Ok(tag) ==> self@.is_nbt(tag),
            res matches Err(e) ==> e == WireError::Invalid,
    {
        reveal(DataView::is_nbt);
        match (self, codec) {
            (ComponentData::Empty, PersistentCodec::Unit) => {
                let es: Vec<(String, NbtTag)> = Vec::new();
                Ok(NbtTag::Compound(es))
            },
            (ComponentData::Bool(b), PersistentCodec::Bool) => Ok(NbtTag::Byte(if *b { 1 } else { 0 })),
            (ComponentData::I32(v), PersistentCodec::RangedInt { min, max }) => {
                if min <= *v && *v <= max {
                    Ok(NbtTag::Int(*v))
                } else {
                    Err(WireError::Invalid)
                }
            },
            (ComponentData::Rarity(r), PersistentCodec::Rarity) => Ok(r.to_nbt_tag()),
            (ComponentData::DyedColor(c), PersistentCodec::DyedColor) => Ok(c.to_nbt_tag()),
            (ComponentData::MapColor(c), PersistentCodec::MapColor) => Ok(c.to_nbt_tag()),
            (ComponentData::OminousBottleAmplifier(a), PersistentCodec::OminousBottleAmplifier) => Ok(a.to_nbt_tag()),
            (ComponentData::SwingAnimation(a), PersistentCodec::SwingAnimation) => Ok(a.to_nbt_tag()),
            (ComponentData::Enchantable(e), PersistentCodec::Enchantable) => Ok(e.to_nbt_tag()),
            (ComponentData::Fireworks(f), PersistentCodec::Fireworks) => match f.try_to_persistent_nbt() {
                Ok(t) => Ok(t),
                Err(_) => Err(WireError::Invalid),
            },
            (ComponentData::FireworkExplosion(e), PersistentCodec::FireworkExplosion) => Ok(NbtTag::Compound(e.to_nbt_entries())),
            (ComponentData::WritableBook(b), PersistentCodec::WritableBook) => Ok(b.to_nbt_tag()),
            (ComponentData::BlockState(p), PersistentCodec::BlockState) => {
                let t = p.to_nbt_tag();
                proof {
                    lemma_properties_view(*p);
                }
                Ok(t)
            },
            (ComponentData::TooltipDisplay(d), PersistentCodec::TooltipDisplay) => {
                let t = d.to_nbt_tag();
                Ok(t)
            },
            (ComponentData::Identifier(id), PersistentCodec::Identifier) => {
                if check_full_identifier(id.as_str()) {
                    Ok(NbtTag::String(id.clone()))
                } else {
                    Err(WireError::Invalid)
                }
            },
            _ => Err(WireError::Invalid),
        }
    }

    /// Reads a persistent form with `codec` over `registry`.
    #[verifier::spinoff_prover]
    pub fn read_nbt(codec: PersistentCodec, tag: &NbtTag, registry: &DataComponentRegistry) -> (res: Option<ComponentData>)
        requires
            registry.wf(),
        ensures
            match (res, DataView::spec_read_nbt(codec, *tag, registry.spec_entries())) {
                (Some(d), Some(v)) => d@ == v,
                (None, None) => true,
                _ => false,
            },
    {
        reveal(DataView::spec_read_nbt);
        match codec {
            PersistentCodec::Unit => match tag {
                NbtTag::Compound(_) => Some(ComponentData::Empty),
                _ => None,
            },
            PersistentCodec::Bool => match codec_bool(tag) {
                Some(b) => Some(ComponentData::Bool(b)),
                None => None,
            },
            PersistentCodec::RangedInt { min, max } => match codec_i32(tag) {
                Some(v) => if min <= v && v <= max { Some(ComponentData::I32(v)) } else { None },
                None => None,
            },
            PersistentCodec::Rarity => match Rarity::from_nbt_tag(tag) {
                Some(r) => Some(ComponentData::Rarity(r)),
                None => None,
            },
            PersistentCodec::DyedColor => match DyedItemColor::from_nbt_int(tag) {
                Some(c) => Some(ComponentData::DyedColor(c)),
                None => None,
            },
            PersistentCodec::MapColor => match MapItemColor::from_nbt_tag(tag) {
                Some(c) => Some(ComponentData::MapColor(c)),
                None => None,
            },
            PersistentCodec::OminousBottleAmplifier => match OminousBottleAmplifier::from_nbt_tag(tag) {
                Some(a) => Some(ComponentData::OminousBottleAmplifier(a)),
                None => None,
            },
            PersistentCodec::SwingAnimation => match SwingAnimation::from_nbt_tag(tag) {
                Some(a) => Some(ComponentData::SwingAnimation(a)),
                None => None,
            },
            PersistentCodec::Enchantable => match Enchantable::from_nbt_tag(tag) {
                Some(e) => Some(ComponentData::Enchantable(e)),
                None => None,
            },
            PersistentCodec::Fireworks => match tag {
                NbtTag::Compound(es) => match Fireworks::from_nbt_entries(es) {
                    Some(f) => Some(ComponentData::Fireworks(f)),
                    None => None,
                },
                _ => None,
            },
            PersistentCodec::FireworkExplosion => match tag {
                NbtTag::Compound(es) => match FireworkExplosion::from_nbt_entries(es) {
                    Some(e) => Some(ComponentData::FireworkExplosion(e)),
                    None => None,
                },
                _ => None,
            },
            PersistentCodec::WritableBook => match WritableBookContent::from_nbt_tag(tag) {
                Some(b) => Some(ComponentData::WritableBook(b)),
                None => None,
            },
            PersistentCodec::BlockState => match BlockItemStateProperties::from_nbt_tag(tag) {
                Some(p) => Some(ComponentData::BlockState(p)),
                None => None,
            },
            PersistentCodec::TooltipDisplay => match TooltipDisplay::from_nbt_tag(tag, registry) {
                Some(d) => Some(ComponentData::TooltipDisplay(d)),
                None => None,
            },
            PersistentCodec::Identifier => match tag {
                NbtTag::String(text) => match parse_identifier(text.as_str()) {
                    Some(id) => Some(ComponentData::Identifier(id)),
                    None => None,
                },
                _ => None,
            },
            PersistentCodec::External => None,
        }
    }
}

/// The longest identifier on the network, in UTF-16 units.
pub const MAX_IDENTIFIER_LENGTH: usize = 32767;

/// Whether `id` is a valid identifier in full `namespace:path` form.
pub open spec fn is_full_identifier(id: Seq<char>) -> bool {
    spec_parse_identifier(id) == Some(id)
}

/// Whether `id` is a valid identifier in full `namespace:path` form.
pub fn check_full_identifier(id: &str) -> (res: bool)
    ensures
        res == is_full_identifier(id@),
{
    match parse_identifier(id) {
        Some(full) => str_equals(full.as_str(), id),
        None => false,
    }
}

/// Whether `v` is the view of some component value.
pub open spec fn is_value_view(v: DataView) -> bool {
    exists|c: ComponentData| c@ == v
}

/// A value written with its own codec reads back unchanged.
#[verifier::spinoff_prover]
#[verifier::rlimit(40)]
pub proof fn lemma_component_data_round_trip(pre: Seq<u8>, v: DataView, entries: Seq<ComponentEntry>, rest: Seq<u8>)
    requires
        v.encodable(entries),
        is_value_view(v),
    ensures
        DataView::spec_read(v.kind(), pre + v.spec_bytes(entries) + rest, pre.len() as int, entries)
            == Ok::<(DataView, int), WireError>((v, (pre.len() + v.spec_bytes(entries).len()) as int)),
{
    reveal(DataView::encodable);
    reveal(DataView::spec_bytes);
    reveal(DataView::spec_read);
    match v {
        DataView::Empty => {
            assert(pre + v.spec_bytes(entries) + rest =~= pre + rest);
        },
        DataView::Bool(b) => lemma_bool_round_trip(pre, b, rest),
        DataView::I32(x) => lemma_varint_round_trip(pre, x, rest),
        DataView::Rarity(r) => lemma_rarity_network_round_trip(pre, r, rest),
        DataView::DyedColor(c) => lemma_dyed_color_round_trip(pre, c, rest),
        DataView::MapColor(c) => lemma_map_color_round_trip(pre, c, rest),
        DataView::OminousBottleAmplifier(a) => lemma_ominous_amplifier_round_trip(pre, a, rest),
        DataView::MapPostProcessing(m) => lemma_map_post_processing_round_trip(pre, m, rest),
        DataView::SwingAnimation(s) => lemma_swing_animation_network_round_trip(pre, s, rest),
        DataView::Enchantable(x) => lemma_varint_round_trip(pre, x, rest),
        DataView::Fireworks(_, _) => lemma_value_round_trip(pre, v, entries, rest),
        DataView::FireworkExplosion(_) => lemma_value_round_trip(pre, v, entries, rest),
        DataView::WritableBook(_) => lemma_value_round_trip(pre, v, entries, rest),
        DataView::BlockState(m) => lemma_properties_view_round_trip(pre, m, rest),
        DataView::TooltipDisplay(hide, keys) => lemma_display_view_round_trip(pre, hide, keys, entries, rest),
        DataView::Identifier(id) => lemma_network_string_round_trip(pre, id, MAX_IDENTIFIER_LENGTH as int, rest),
    }
}

/// A value with a list-valued view, written with its own codec, reads back
/// unchanged.
#[verifier::spinoff_prover]
#[verifier::rlimit(60)]
proof fn lemma_value_round_trip(pre: Seq<u8>, v: DataView, entries: Seq<ComponentEntry>, rest: Seq<u8>)
    requires
        v.encodable(entries),
        is_value_view(v),
        v is Fireworks || v is FireworkExplosion || v is WritableBook,
    ensures
        DataView::spec_read(v.kind(), pre + v.spec_bytes(entries) + rest, pre.len() as int, entries)
            == Ok::<(DataView, int), WireError>((v, (pre.len() + v.spec_bytes(entries).len()) as int)),
{
    reveal(DataView::encodable);
    reveal(DataView::spec_bytes);
    reveal(DataView::spec_read);
    let c = choose|c: ComponentData| c@ == v;
    match c {
        ComponentData::Fireworks(f) => {
            lemma_fireworks_view(f);
            lemma_fireworks_round_trip(pre, f, rest);
        },
        ComponentData::FireworkExplosion(e) => {
            reveal(FireworkExplosion::spec_bytes);
            lemma_explosion_round_trip(pre, e, rest);
        },
        ComponentData::WritableBook(b) => {
            lemma_writable_book_view(b);
            lemma_writable_book_round_trip(pre, b, rest);
        },
        _ => {},
    }
}

/// The persistent (NBT) codec a registered component uses.
#[derive(Debug, Clone, Copy, PartialEq, Eq, Structural)]
pub enum PersistentCodec {
    /// A marker: an empty compound, and any compound reads back.
    Unit,
    /// A boolean: a byte, and any number reads back, nonzero as true.
    Bool,
    /// An `i32` within `min..=max`: an int, and any number reads back.
    RangedInt { min: i32, max: i32 },
    /// A rarity by its name.
    Rarity,
    /// A dyed color as an int.
    DyedColor,
    /// A map color as an int.
    MapColor,
    /// An ominous bottle amplifier within `0..=4`.
    OminousBottleAmplifier,
    /// A swing animation compound.
    SwingAnimation,
    /// An enchantability: a compound whose `value` is a positive number.
    Enchantable,
    /// A firework rocket's compound.
    Fireworks,
    /// A firework explosion's compound.
    FireworkExplosion,
    /// A book and quill's compound of pages.
    WritableBook,
    /// Block-state properties: a compound of strings.
    BlockState,
    /// A tooltip display: a compound with the hide flag and the hidden
    /// component keys.
    TooltipDisplay,
    /// A namespaced identifier as a string, written in full and read in
    /// either form.
    Identifier,
    /// A persistent codec this library does not model; such values are
    /// refused.
    External,
}


/// Whether a value's persistent form reads back as the value over the
/// component registry `entries`: an ominous amplifier within `0..=4`, a swing
/// animation with a positive duration, a tooltip display hiding registered
/// keys in canonical identifier form, and the like.
pub open spec fn nbt_round_trips(v: DataView, entries: Seq<ComponentEntry>) -> bool {
    match v {
        DataView::TooltipDisplay(_, keys) => display_nbt_round_trips(keys, entries),
        DataView::OminousBottleAmplifier(a) => 0 <= a.value <= 4,
        DataView::SwingAnimation(a) => a.duration > 0,
        DataView::Enchantable(x) => x > 0,
        DataView::Fireworks(flight, fs) => 0 <= flight <= 255 && fs.len() <= Fireworks::MAX_EXPLOSIONS,
        DataView::WritableBook(pages) => pages.len() <= WritableBookContent::MAX_PAGES
            && forall|i: int| 0 <= i < pages.len() ==> #[trigger] page_view_within(pages[i]),
        _ => true,
    }
}

/// Law: a value written by a persistent codec reads back unchanged with
/// that codec, where its type's own constraints hold.
#[verifier::spinoff_prover]
#[verifier::rlimit(80)]
pub proof fn lemma_component_data_nbt_round_trip(v: DataView, codec: PersistentCodec, tag: NbtTag, entries: Seq<ComponentEntry>)
    requires
        v.nbt_encodable(codec),
        v.is_nbt(tag),
        nbt_round_trips(v, entries),
    ensures
        DataView::spec_read_nbt(codec, tag, entries) == Some(v),
{
    reveal(DataView::is_nbt);
    reveal(DataView::spec_read_nbt);
    match v {
        DataView::Rarity(r) => lemma_rarity_name_round_trip(r),
        DataView::SwingAnimation(a) => lemma_swing_animation_nbt_round_trip(a, tag),
        DataView::Fireworks(flight, fs) => {
            let f = choose|f: Fireworks| #[trigger] f.spec_flight_duration() == flight
                && f.explosion_fields() == fs && (tag matches NbtTag::Compound(es) && f.is_nbt_entries(es@));
            match tag {
                NbtTag::Compound(es) => lemma_fireworks_nbt_round_trip(f, es@),
                _ => {},
            }
        },
        DataView::FireworkExplosion(fields) => {
            let e = choose|e: FireworkExplosion| #[trigger] e.fields() == fields
                && (tag matches NbtTag::Compound(es) && e.is_nbt_entries(es@));
            match tag {
                NbtTag::Compound(es) => lemma_explosion_nbt_round_trip(e, es@),
                _ => {},
            }
        },
        DataView::WritableBook(pages) => {
            let b = choose|b: WritableBookContent| #[trigger] b.page_chars() == pages && b.is_nbt_form(tag);
            lemma_writable_book_view(b);
            lemma_writable_book_nbt_round_trip(b, tag);
        },
        DataView::BlockState(m) => lemma_properties_view_nbt_round_trip(m, tag),
        DataView::TooltipDisplay(hide, keys) => lemma_display_nbt_round_trip(hide, keys, tag, entries),
        _ => {},
    }
}

} // verus!
