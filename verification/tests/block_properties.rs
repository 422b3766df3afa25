use steel_registry::components::block_state::BlockItemStateProperties;
use steel_registry::components::debug_stick_state::{BlockRef, DebugStickState, UnknownBlockProperty};
use steel_registry::components::item_lore::{ItemLore, ItemLoreTooLong};
use steel_registry::components::piercing_weapon::PiercingWeapon;
use steel_registry::components::potion_contents::PotionContents;
use steel_registry::holder::RegistryRef;
use steel_registry::nbt::NbtTag;
use steel_registry::sorted::{SortedStringMap, str_less};
use steel_registry::wire::WireError;

fn pairs(items: &[(&str, &str)]) -> Vec<(String, String)> {
    items.iter().map(|(k, v)| (k.to_string(), v.to_string())).collect()
}

fn string_compound(items: &[(&str, &str)]) -> NbtTag {
    NbtTag::Compound(items.iter().map(|(k, v)| (k.to_string(), NbtTag::String(v.to_string()))).collect())
}

#[test]
fn property_maps_round_trip_both_codecs_and_hash_as_maps() {
    let value = BlockItemStateProperties::new(pairs(&[("facing", "north"), ("level", "15")]));
    let nbt = string_compound(&[("facing", "north"), ("level", "15")]);
    assert_eq!(value.to_nbt_tag(), nbt);
    assert_eq!(BlockItemStateProperties::from_nbt_tag(&nbt), Some(value.clone()));

    let mut network = Vec::new();
    value.write(&mut network).expect("properties should encode");
    let (decoded, end) = BlockItemStateProperties::read(&network, 0).expect("properties should decode");
    assert_eq!(end, network.len());
    assert_eq!(decoded, value);
}

#[test]
fn empty_properties_use_an_empty_compound() {
    let empty = BlockItemStateProperties::empty();
    assert!(empty.is_empty());
    assert_eq!(empty.to_nbt_tag(), NbtTag::Compound(Vec::new()));
}

#[test]
fn block_properties_are_kept_in_name_order() {
    let value = BlockItemStateProperties::new(pairs(&[("waterlogged", "true"), ("facing", "east"), ("age", "3"), ("facing", "west")]));
    let names: Vec<&str> = value.properties().iter().map(|(k, _)| k.as_str()).collect();
    assert_eq!(names, vec!["age", "facing", "waterlogged"]);
    assert_eq!(value.get("facing"), Some("west"));
    assert_eq!(value.get("missing"), None);
    let mut network = Vec::new();
    BlockItemStateProperties::new(pairs(&[("b", "1"), ("a", "2")])).write(&mut network).expect("encode");
    assert_eq!(network, vec![2, 1, b'a', 1, b'2', 1, b'b', 1, b'1']);
}

#[test]
fn block_properties_reject_malformed_input() {
    assert_eq!(BlockItemStateProperties::read(&[0xff, 0xff, 0xff, 0xff, 0x0f], 0).map(|r| r.1), Err(WireError::Negative));
    assert_eq!(BlockItemStateProperties::read(&[1, 1, b'a'], 0).map(|r| r.1), Err(WireError::UnexpectedEnd));
    let not_strings = NbtTag::Compound(vec![("level".to_string(), NbtTag::Int(15))]);
    assert_eq!(BlockItemStateProperties::from_nbt_tag(&not_strings), None);
    assert_eq!(BlockItemStateProperties::from_nbt_tag(&NbtTag::String("x".to_string())), None);
    let long = "x".repeat(32768);
    let too_long = BlockItemStateProperties::new(vec![("name".to_string(), long)]);
    assert_eq!(too_long.write(&mut Vec::new()), Err(WireError::StringTooLong));
    let (later_wins, _) = BlockItemStateProperties::read(&[2, 1, b'a', 1, b'1', 1, b'a', 1, b'2'], 0).expect("decode");
    assert_eq!(later_wins.get("a"), Some("2"));
}

fn redstone_wire() -> BlockRef {
    BlockRef {
        key: "minecraft:redstone_wire".to_string(),
        property_names: vec!["east".to_string(), "north".to_string(), "power".to_string()],
    }
}

fn stone() -> BlockRef {
    BlockRef { key: "minecraft:stone".to_string(), property_names: Vec::new() }
}

#[test]
fn block_property_map_validates_properties_and_uses_codec_derived_network() {
    let value = DebugStickState::new(vec![(redstone_wire(), "power".to_string())]).expect("redstone wire has a power property");
    let nbt = string_compound(&[("minecraft:redstone_wire", "power")]);
    assert_eq!(value.to_nbt_tag(), nbt);
    let blocks = vec![stone(), redstone_wire()];
    assert_eq!(DebugStickState::from_nbt_tag(&nbt, &blocks), Some(value.clone()));
    assert_eq!(
        DebugStickState::new(vec![(stone(), "missing".to_string())]),
        Err(UnknownBlockProperty { block: "minecraft:stone".to_string(), property: "missing".to_string() })
    );
}

#[test]
fn debug_stick_state_selections_and_lookups() {
    let value = DebugStickState::new(vec![
        (redstone_wire(), "power".to_string()),
        (redstone_wire(), "north".to_string()),
    ])
    .expect("valid selections");
    let selected = value.properties();
    assert_eq!(selected.len(), 1);
    assert_eq!(selected[0].property(), "north");
    assert_eq!(selected[0].block().key, "minecraft:redstone_wire");
    assert_eq!(DebugStickState::default(), DebugStickState::empty());

    let blocks = vec![redstone_wire()];
    let abbreviated = string_compound(&[("redstone_wire", "east")]);
    let decoded = DebugStickState::from_nbt_tag(&abbreviated, &blocks).expect("abbreviated key");
    assert_eq!(decoded.properties()[0].property(), "east");
    assert_eq!(DebugStickState::from_nbt_tag(&string_compound(&[("minecraft:stone", "east")]), &blocks), None);
    assert_eq!(DebugStickState::from_nbt_tag(&string_compound(&[("minecraft:redstone_wire", "west")]), &blocks), None);
    let not_string = NbtTag::Compound(vec![("minecraft:redstone_wire".to_string(), NbtTag::Int(1))]);
    assert_eq!(DebugStickState::from_nbt_tag(&not_string, &blocks), None);
}

#[test]
fn sorted_map_orders_strings_like_std() {
    assert!(str_less("a", "b"));
    assert!(str_less("ab", "b"));
    assert!(str_less("", "a"));
    assert!(str_less("a", "ab"));
    assert!(!str_less("b", "ab"));
    assert!(!str_less("same", "same"));
    assert!(str_less("Z", "a"));
    let mut map: SortedStringMap<u32> = SortedStringMap::new();
    map.insert("m".to_string(), 1);
    map.insert("c".to_string(), 2);
    map.insert("x".to_string(), 3);
    map.insert("c".to_string(), 4);
    let keys: Vec<&str> = map.entries().iter().map(|(k, _)| k.as_str()).collect();
    assert_eq!(keys, vec!["c", "m", "x"]);
    assert_eq!(map.get("c"), Some(&4));
    assert_eq!(map.get("d"), None);
    assert_eq!(map.len(), 3);
}

#[test]
fn lore_is_limited_to_256_lines() {
    let lore = ItemLore::new(vec![0u8; 256]).expect("256 lines fit");
    assert_eq!(lore.lines().len(), 256);
    assert_eq!(lore.with_line_added(1), Err(ItemLoreTooLong { lines: 257 }));
    assert_eq!(ItemLore::new(vec![0u8; 300]), Err(ItemLoreTooLong { lines: 300 }));
    let one = ItemLore::empty().with_line_added("line").expect("one line fits");
    assert_eq!(one.lines(), &["line"]);
}

#[test]
fn piercing_weapon_defaults_and_potion_contents_getters() {
    let weapon: PiercingWeapon<u32> = PiercingWeapon::default();
    assert!(weapon.deals_knockback);
    assert!(!weapon.dismounts);
    assert_eq!(weapon.sound, None);
    assert_eq!(weapon.hit_sound, None);

    let potion = RegistryRef { key: "minecraft:swiftness".to_string(), id: 16 };
    let contents = PotionContents::new(Some(potion.clone()), Some(0x00ff00), vec![7u32], Some("Brew".to_string()));
    assert_eq!(contents.potion(), Some(potion));
    assert_eq!(contents.custom_color(), Some(0x00ff00));
    assert_eq!(contents.custom_effects(), &[7]);
    assert_eq!(contents.custom_name(), Some("Brew"));
    let empty: PotionContents<u32> = PotionContents::empty();
    assert_eq!(empty.potion(), None);
    assert_eq!(empty.custom_name(), None);
    assert_eq!(PotionContents::<u32>::default(), empty);
}

#[test]
fn lore_error_names_the_line_count_and_limit() {
    assert_eq!(ItemLoreTooLong { lines: 300 }.message(), "Got 300 lines, but maximum is 256");
    assert_eq!(ItemLoreTooLong { lines: 0 }.message(), "Got 0 lines, but maximum is 256");
}

#[test]
fn debug_stick_keeps_one_selection_per_block_in_key_order_last_wins() {
    let lever = BlockRef {
        key: "minecraft:lever".to_string(),
        property_names: vec!["face".to_string(), "powered".to_string()],
    };
    let value = DebugStickState::new(vec![
        (redstone_wire(), "power".to_string()),
        (lever.clone(), "face".to_string()),
        (redstone_wire(), "east".to_string()),
        (lever, "powered".to_string()),
    ])
    .expect("valid selections");
    let selected: Vec<(String, String)> = value
        .properties()
        .iter()
        .map(|p| (p.block().key.clone(), p.property().to_string()))
        .collect();
    assert_eq!(
        selected,
        vec![
            ("minecraft:lever".to_string(), "powered".to_string()),
            ("minecraft:redstone_wire".to_string(), "east".to_string()),
        ]
    );
}
