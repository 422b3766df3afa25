use steel_registry::components::lodestone_tracker::{BlockPos, GlobalPos, LodestoneTracker};
use steel_registry::components::container_loot::SeededContainerLoot;
use steel_registry::components::recipes::Recipes;
use steel_registry::nbt::NbtTag;

fn strings(items: &[&str]) -> Vec<String> {
    items.iter().map(|s| s.to_string()).collect()
}

#[test]
fn recipe_keys_round_trip_persistent_and_derived_network_codecs() {
    let recipes = Recipes::new(strings(&["minecraft:oak_planks", "steel:example"]));
    let nbt = recipes.to_nbt_tag();
    assert_eq!(Recipes::from_nbt_tag(&nbt), Some(recipes.clone()));
    assert_eq!(
        nbt,
        NbtTag::List(vec![
            NbtTag::String("minecraft:oak_planks".to_string()),
            NbtTag::String("steel:example".to_string()),
        ])
    );
}

#[test]
fn empty_and_abbreviated_recipe_key_lists_match_identifier_codec_rules() {
    let empty = Recipes::empty();
    assert_eq!(empty.to_nbt_tag(), NbtTag::List(Vec::new()));
    assert_eq!(Recipes::from_nbt_tag(&NbtTag::List(Vec::new())), Some(empty));
    assert_eq!(
        Recipes::from_nbt_tag(&NbtTag::List(vec![NbtTag::String("stick".to_string())]))
            .expect("abbreviated key should decode")
            .keys(),
        &strings(&["minecraft:stick"])[..]
    );
}

#[test]
fn recipe_key_codec_does_not_require_a_registered_recipe() {
    let recipes = Recipes::new(strings(&["steel:not_registered"]));
    assert_eq!(
        Recipes::from_nbt_tag(&recipes.to_nbt_tag()).expect("resource keys are registry-independent").keys(),
        &strings(&["steel:not_registered"])[..]
    );
}

#[test]
fn recipe_lists_reject_non_identifiers() {
    assert_eq!(Recipes::from_nbt_tag(&NbtTag::List(vec![NbtTag::Int(1)])), None);
    assert_eq!(Recipes::from_nbt_tag(&NbtTag::List(vec![NbtTag::String("Not Valid".to_string())])), None);
    assert_eq!(Recipes::from_nbt_tag(&NbtTag::String("minecraft:stick".to_string())), None);
}

fn overworld_target() -> GlobalPos {
    GlobalPos::new("minecraft:overworld".to_string(), BlockPos { x: 12, y: -4, z: 99 })
}

#[test]
fn lodestone_target_round_trips_and_hashes_through_global_pos_codec() {
    let tracker = LodestoneTracker::new(Some(overworld_target()), false);
    let nbt = tracker.to_nbt_tag();
    assert_eq!(LodestoneTracker::from_nbt_tag(&nbt), Some(tracker.clone()));
    assert_eq!(
        nbt,
        NbtTag::Compound(vec![
            (
                "target".to_string(),
                NbtTag::Compound(vec![
                    ("dimension".to_string(), NbtTag::String("minecraft:overworld".to_string())),
                    ("pos".to_string(), NbtTag::IntArray(vec![12, -4, 99])),
                ])
            ),
            ("tracked".to_string(), NbtTag::Byte(0)),
        ])
    );
}

#[test]
fn absent_fields_default_to_no_target_and_tracked() {
    assert_eq!(
        LodestoneTracker::from_nbt_tag(&NbtTag::Compound(Vec::new())),
        Some(LodestoneTracker::new(None, true))
    );
}

#[test]
fn lodestone_positions_accept_number_lists_and_reject_bad_shapes() {
    let as_list = NbtTag::Compound(vec![(
        "target".to_string(),
        NbtTag::Compound(vec![
            ("dimension".to_string(), NbtTag::String("the_nether".to_string())),
            ("pos".to_string(), NbtTag::List(vec![NbtTag::Int(1), NbtTag::Byte(2), NbtTag::Long(3)])),
        ]),
    )]);
    let decoded = LodestoneTracker::from_nbt_tag(&as_list).expect("list coordinates");
    let target = decoded.target().expect("target");
    assert_eq!(target.dimension(), "minecraft:the_nether");
    assert_eq!(target.pos(), BlockPos { x: 1, y: 2, z: 3 });
    assert!(decoded.is_tracked());
    let two_coordinates = NbtTag::Compound(vec![(
        "target".to_string(),
        NbtTag::Compound(vec![
            ("dimension".to_string(), NbtTag::String("minecraft:overworld".to_string())),
            ("pos".to_string(), NbtTag::IntArray(vec![1, 2])),
        ]),
    )]);
    assert_eq!(LodestoneTracker::from_nbt_tag(&two_coordinates), None);
    let bad_flag = NbtTag::Compound(vec![("tracked".to_string(), NbtTag::String("no".to_string()))]);
    assert_eq!(LodestoneTracker::from_nbt_tag(&bad_flag), None);
}

#[test]
fn loot_table_resource_keys_and_optional_seed_round_trip() {
    let loot = SeededContainerLoot::new("minecraft:chests/simple_dungeon".to_string(), 42);
    let nbt = NbtTag::Compound(vec![
        ("loot_table".to_string(), NbtTag::String("minecraft:chests/simple_dungeon".to_string())),
        ("seed".to_string(), NbtTag::Long(42)),
    ]);
    assert_eq!(loot.to_nbt_tag(), nbt);
    assert_eq!(SeededContainerLoot::from_nbt_tag(&nbt), Some(loot));
}

#[test]
fn omitted_seed_defaults_to_zero_without_registry_membership_validation() {
    let nbt = NbtTag::Compound(vec![("loot_table".to_string(), NbtTag::String("steel:unknown_table".to_string()))]);
    assert_eq!(
        SeededContainerLoot::from_nbt_tag(&nbt),
        Some(SeededContainerLoot::new("steel:unknown_table".to_string(), 0))
    );
}

#[test]
fn loot_seeds_coerce_numbers_like_java_long_value() {
    let with_seed = |seed: NbtTag| {
        NbtTag::Compound(vec![
            ("loot_table".to_string(), NbtTag::String("chests/a".to_string())),
            ("seed".to_string(), seed),
        ])
    };
    let read = |seed: NbtTag| SeededContainerLoot::from_nbt_tag(&with_seed(seed)).map(|l| l.seed());
    assert_eq!(read(NbtTag::Byte(-3)), Some(-3));
    assert_eq!(read(NbtTag::Int(7)), Some(7));
    assert_eq!(read(NbtTag::Double((-2.9f64).to_bits())), Some(-2));
    assert_eq!(read(NbtTag::Float(1.0e30f32.to_bits())), Some(i64::MAX));
    assert_eq!(read(NbtTag::Double(f64::NEG_INFINITY.to_bits())), Some(i64::MIN));
    assert_eq!(read(NbtTag::Double(f64::NAN.to_bits())), Some(0));
    assert_eq!(read(NbtTag::Float(123456.75f32.to_bits())), Some(123456));
    assert_eq!(read(NbtTag::Double(9.0e15f64.to_bits())), Some(9_000_000_000_000_000));
    assert_eq!(read(NbtTag::String("1".to_string())), None);
    let loot = SeededContainerLoot::from_nbt_tag(&with_seed(NbtTag::Long(5))).expect("loot");
    assert_eq!(loot.loot_table(), "minecraft:chests/a");
    assert_eq!(SeededContainerLoot::new("minecraft:a".to_string(), 0).to_nbt_tag(),
        NbtTag::Compound(vec![("loot_table".to_string(), NbtTag::String("minecraft:a".to_string()))]));
}
