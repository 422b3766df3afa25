use steel_registry::components::enchantable::{Enchantable, InvalidEnchantableValue};
use steel_registry::components::item_colors::{DyedItemColor, MapId, MapItemColor};
use steel_registry::components::map_post_processing::MapPostProcessing;
use steel_registry::components::ominous_bottle_amplifier::OminousBottleAmplifier;
use steel_registry::components::rarity::Rarity;
use steel_registry::components::swing_animation::{SwingAnimation, SwingAnimationType};
use steel_registry::components::use_animation::ItemUseAnimation;
use steel_registry::components::values::{Damage, MaxStackSize};
use steel_registry::nbt::NbtTag;
use steel_registry::wire::{read_varint, write_varint};

fn varint(v: i32) -> Vec<u8> {
    let mut out = Vec::new();
    write_varint(&mut out, v);
    out
}

#[test]
fn raw_int_network_codecs_round_trip() {
    for value in [DyedItemColor::new(-1), DyedItemColor::new(0x123456)] {
        let mut encoded = Vec::new();
        value.write(&mut encoded);
        assert_eq!(
            DyedItemColor::read(&encoded, 0).expect("color should decode").0,
            value
        );
    }

    let value = MapItemColor::default();
    let mut encoded = Vec::new();
    value.write(&mut encoded);
    assert_eq!(
        MapItemColor::read(&encoded, 0).expect("map color should decode").0,
        value
    );
}

#[test]
fn dyed_color_accepts_ints_and_rgb_vectors() {
    assert_eq!(
        DyedItemColor::from_nbt_int(&NbtTag::Short(0x1234)),
        Some(DyedItemColor::new(0x1234))
    );
    assert!(matches!(
        DyedItemColor::new(0x123456).to_nbt_tag(),
        NbtTag::Int(0x123456)
    ));
}

#[test]
fn map_id_uses_varint_network_and_int_persistence() {
    let value = MapId::new(-17);
    let mut encoded = Vec::new();
    value.write(&mut encoded);
    assert_eq!(MapId::read(&encoded, 0).expect("map ID should decode").0, value);
    assert_eq!(MapId::from_nbt_tag(&NbtTag::Long(42)), Some(MapId::new(42)));
    assert!(matches!(value.to_nbt_tag(), NbtTag::Int(-17)));
    assert_eq!(MapId::new(42).key(), "maps/42");
}

#[test]
fn network_ids_match_vanilla_and_fall_back_to_common() {
    for (rarity, expected_id) in [
        (Rarity::Common, 0),
        (Rarity::Uncommon, 1),
        (Rarity::Rare, 2),
        (Rarity::Epic, 3),
    ] {
        let mut encoded = Vec::new();
        rarity.write(&mut encoded);
        assert_eq!(read_varint(&encoded, 0).expect("id should decode").0, expected_id);
    }
    for id in [-1, 4, i32::MAX] {
        assert_eq!(
            Rarity::read(&varint(id), 0).expect("rarity should decode").0,
            Rarity::Common
        );
    }
}

#[test]
fn rarity_names_round_trip_through_nbt() {
    for rarity in [Rarity::Common, Rarity::Uncommon, Rarity::Rare, Rarity::Epic] {
        assert_eq!(Rarity::from_nbt_tag(&rarity.to_nbt_tag()), Some(rarity));
    }
    assert_eq!(Rarity::Epic.serialized_name(), "epic");
    assert_eq!(
        Rarity::from_nbt_tag(&NbtTag::String("legendary".to_string())),
        None
    );
}

#[test]
fn network_ids_match_vanilla() {
    for (value, id) in [(MapPostProcessing::Lock, 0), (MapPostProcessing::Scale, 1)] {
        let mut encoded = Vec::new();
        value.write(&mut encoded);
        assert_eq!(read_varint(&encoded, 0).expect("encoded ID should decode").0, id);
        assert_eq!(
            MapPostProcessing::read(&encoded, 0)
                .expect("map post-processing value should decode")
                .0,
            value
        );
    }
}

#[test]
fn out_of_bounds_network_ids_fall_back_to_lock() {
    for id in [-1, 2, i32::MAX] {
        assert_eq!(
            MapPostProcessing::read(&varint(id), 0)
                .expect("out-of-bounds ID should decode")
                .0,
            MapPostProcessing::Lock
        );
    }
}

#[test]
fn persistent_codec_enforces_vanilla_range() {
    assert_eq!(
        OminousBottleAmplifier::from_nbt_tag(&NbtTag::Byte(0)),
        Some(OminousBottleAmplifier::new(0))
    );
    assert_eq!(
        OminousBottleAmplifier::from_nbt_tag(&NbtTag::Long(4)),
        Some(OminousBottleAmplifier::new(4))
    );
    assert_eq!(OminousBottleAmplifier::from_nbt_tag(&NbtTag::Int(-1)), None);
    assert_eq!(OminousBottleAmplifier::from_nbt_tag(&NbtTag::Int(5)), None);
}

#[test]
fn network_codec_accepts_any_varint_like_vanilla_constructor() {
    for value in [-1, 0, 4, 5, i32::MAX] {
        assert_eq!(
            OminousBottleAmplifier::read(&varint(value), 0)
                .expect("amplifier should decode")
                .0,
            OminousBottleAmplifier::new(value)
        );
    }
}

#[test]
fn persistent_codec_requires_a_positive_value() {
    for value in [-1, 0] {
        let tag = NbtTag::Compound(vec![("value".to_string(), NbtTag::Int(value))]);
        assert_eq!(Enchantable::from_nbt_tag(&tag), None);
    }
    let tag = NbtTag::Compound(vec![("value".to_string(), NbtTag::Byte(15))]);
    assert_eq!(
        Enchantable::from_nbt_tag(&tag),
        Some(Enchantable::new(15).expect("15 is positive"))
    );
}

#[test]
fn network_codec_uses_a_validated_varint() {
    let value = Enchantable::new(22).expect("22 is positive");
    let mut encoded = Vec::new();
    value.write(&mut encoded);
    assert_eq!(Enchantable::read(&encoded, 0).expect("value should decode").0, value);
    assert!(Enchantable::read(&varint(0), 0).is_err());
    assert_eq!(Enchantable::new(0).unwrap_err().value, 0);
}

#[test]
fn empty_compound_uses_vanilla_default() {
    assert_eq!(
        SwingAnimation::from_nbt_tag(&NbtTag::Compound(Vec::new())),
        Some(SwingAnimation::default())
    );
    assert_eq!(SwingAnimation::default().duration, 6);
}

#[test]
fn persistent_duration_must_be_positive() {
    for duration in [0, -1] {
        let tag = NbtTag::Compound(vec![("duration".to_string(), NbtTag::Int(duration))]);
        assert_eq!(SwingAnimation::from_nbt_tag(&tag), None);
    }
}

#[test]
fn network_type_ids_fall_back_to_none() {
    for id in [-1, 3, i32::MAX] {
        assert_eq!(
            SwingAnimationType::read(&varint(id), 0)
                .expect("animation type should decode")
                .0,
            SwingAnimationType::NoSwing
        );
    }
}

#[test]
fn swing_animation_round_trips_both_codecs() {
    let value = SwingAnimation::new(SwingAnimationType::Stab, 9);
    let mut encoded = Vec::new();
    value.write(&mut encoded);
    assert_eq!(SwingAnimation::read(&encoded, 0).expect("swing should decode").0, value);
    assert_eq!(SwingAnimation::from_nbt_tag(&value.to_nbt_tag()), Some(value));
}

#[test]
fn network_animation_ids_use_vanilla_zero_fallback() {
    assert_eq!(ItemUseAnimation::by_id(-1), ItemUseAnimation::NoAnimation);
    assert_eq!(ItemUseAnimation::by_id(1), ItemUseAnimation::Eat);
    assert_eq!(ItemUseAnimation::by_id(1000), ItemUseAnimation::NoAnimation);
    for animation in [ItemUseAnimation::Eat, ItemUseAnimation::Spear, ItemUseAnimation::Brush] {
        assert_eq!(ItemUseAnimation::by_id(animation.id()), animation);
        assert_eq!(
            ItemUseAnimation::from_serialized_name(animation.serialized_name()),
            Some(animation)
        );
    }
}

#[test]
fn varint_values_round_trip_and_nbt_reads_ints_only() {
    let damage = Damage(300);
    let mut encoded = Vec::new();
    damage.write(&mut encoded);
    assert_eq!(encoded, vec![0xac, 0x02]);
    assert_eq!(Damage::read(&encoded, 0).expect("damage should decode").0, damage);
    assert_eq!(MaxStackSize::from_nbt_tag(&NbtTag::Int(16)), Some(MaxStackSize(16)));
    assert_eq!(MaxStackSize::from_nbt_tag(&NbtTag::Byte(16)), None);
}

#[test]
fn enchantable_error_names_the_rejected_value() {
    let err = Enchantable::new(-3).expect_err("negative values are rejected");
    assert_eq!(err, InvalidEnchantableValue { value: -3 });
    assert_eq!(err.message(), "Enchantment value must be positive, but was -3");
    assert_eq!(InvalidEnchantableValue { value: 0 }.message(), "Enchantment value must be positive, but was 0");
}
