use steel_registry::component_data::{ComponentData, ComponentKind, PersistentCodec};
use steel_registry::components::map_post_processing::MapPostProcessing;
use steel_registry::nbt::NbtTag;
use steel_registry::patch::DataComponentPatch;
use steel_registry::vanilla::vanilla_registry;
use steel_registry::wire::WireError;

#[test]
fn vanilla_registration_order_fixes_network_ids() {
    let registry = vanilla_registry();
    assert_eq!(registry.len(), 111);
    assert!(registry.allows_registering());
    assert_eq!(registry.get_id("minecraft:custom_data"), Some(0));
    assert_eq!(registry.get_id("minecraft:max_stack_size"), Some(1));
    assert_eq!(registry.get_id("minecraft:damage"), Some(3));
    assert_eq!(registry.get_id("minecraft:rarity"), Some(12));
    assert_eq!(registry.get_id("minecraft:repair_cost"), Some(19));
    assert_eq!(registry.get_id("minecraft:swing_animation"), Some(40));
    assert_eq!(registry.get_id("minecraft:map_post_processing"), Some(48));
    assert_eq!(registry.get_id("minecraft:ominous_bottle_amplifier"), Some(63));
    assert_eq!(registry.get_id("minecraft:shulker/color"), Some(110));
    assert_eq!(registry.get_id("minecraft:unknown"), None);
    assert_eq!(registry.get_key_by_id(57).map(String::as_str), Some("minecraft:debug_stick_state"));
}

#[test]
fn vanilla_patches_round_trip_modelled_components_and_refuse_others() {
    let registry = vanilla_registry();
    let mut patch = DataComponentPatch::new();
    patch.set("minecraft:max_stack_size", ComponentData::I32(16));
    patch.remove("minecraft:custom_name");
    let mut network = Vec::new();
    patch.write(&mut network, &registry).expect("patch should encode");
    assert_eq!(network, vec![1, 1, 1, 16, 6]);
    let (decoded, end) = DataComponentPatch::read(&network, 0, &registry).expect("patch should decode");
    assert_eq!(end, network.len());
    assert_eq!(decoded, patch);
    // a set custom name (id 6) is a text component, which the library does not read
    assert_eq!(DataComponentPatch::read(&[1, 0, 6, 0], 0, &registry).map(|r| r.1), Err(WireError::Unsupported));
}

fn transient_components_are_marked_non_persistent() {
    let registry = vanilla_registry();
    for key in ["minecraft:creative_slot_lock", "minecraft:additional_trade_cost", "minecraft:map_post_processing"] {
        let entry = registry.by_key(key).unwrap_or_else(|| panic!("missing transient component {key}"));
        assert_eq!(entry.persistent, None, "{key}");
    }
    assert!(matches!(registry.by_key("minecraft:max_stack_size"), Some(entry) if entry.persistent.is_some()));
}

#[test]
fn vanilla_components_vanilla_transient_components_are_marked_non_persistent() {
    transient_components_are_marked_non_persistent();
}

#[test]
fn tests_vanilla_transient_components_are_marked_non_persistent() {
    transient_components_are_marked_non_persistent();
}

fn transient_network_codecs() {
    let registry = vanilla_registry();
    let additional_trade_cost = registry.by_key("minecraft:additional_trade_cost").expect("additional_trade_cost should be registered");
    let mut encoded = Vec::new();
    ComponentData::I32(-7).write(&mut encoded, &registry).expect("i32 should encode");
    assert_eq!(
        ComponentData::read(additional_trade_cost.kind, &encoded, 0, &registry).expect("additional_trade_cost should decode").0,
        ComponentData::I32(-7)
    );
    let map_post_processing = registry.by_key("minecraft:map_post_processing").expect("map_post_processing should be registered");
    let mut encoded = Vec::new();
    ComponentData::MapPostProcessing(MapPostProcessing::Scale).write(&mut encoded, &registry).expect("post processing should encode");
    assert_eq!(
        ComponentData::read(map_post_processing.kind, &encoded, 0, &registry).expect("map_post_processing should decode").0,
        ComponentData::MapPostProcessing(MapPostProcessing::Scale)
    );
}

#[test]
fn vanilla_components_transient_component_network_codecs_match_vanilla() {
    transient_network_codecs();
}

#[test]
fn tests_transient_component_network_codecs_match_vanilla() {
    transient_network_codecs();
}

fn unit_persistence_requires_a_compound() {
    let registry = vanilla_registry();
    let unbreakable = registry.by_key("minecraft:unbreakable").expect("unbreakable should be registered");
    let codec = unbreakable.persistent.expect("unbreakable is persistent");
    assert_eq!(ComponentData::read_nbt(codec, &NbtTag::Compound(Vec::new()), &registry), Some(ComponentData::Empty));
    assert_eq!(ComponentData::read_nbt(codec, &NbtTag::Byte(1), &registry), None);
}

#[test]
fn vanilla_components_unit_component_persistence_requires_a_compound() {
    unit_persistence_requires_a_compound();
}

#[test]
fn tests_unit_component_persistence_requires_a_compound() {
    unit_persistence_requires_a_compound();
}

#[test]
fn vanilla_codecs_are_the_modelled_ones() {
    let registry = vanilla_registry();
    let stack = registry.by_key("minecraft:max_stack_size").expect("registered");
    assert_eq!(stack.kind, ComponentKind::VarInt);
    assert_eq!(stack.persistent, Some(PersistentCodec::RangedInt { min: 1, max: 99 }));
    let name = registry.by_key("minecraft:custom_name").expect("registered");
    assert_eq!(name.kind, ComponentKind::External);
    assert_eq!(name.persistent, Some(PersistentCodec::External));
    assert_eq!(ComponentData::read_nbt(PersistentCodec::External, &NbtTag::Int(1), &registry), None);
}

fn identifier_component_codecs() {
    let registry = vanilla_registry();
    let expected = "minecraft:stone".to_string();
    for key in ["minecraft:item_model", "minecraft:tooltip_style", "minecraft:note_block_sound"] {
        let entry = registry.by_key(key).unwrap_or_else(|| panic!("missing identifier component {}", key));
        let codec = entry.persistent.expect("identifier components persist");
        let data = ComponentData::Identifier(expected.clone());
        assert_eq!(ComponentData::read_nbt(codec, &NbtTag::String("stone".into()), &registry), Some(data.clone()), "{}", key);
        assert_eq!(
            data.write_nbt(codec).expect("persistent identifier should encode"),
            NbtTag::String("minecraft:stone".into()),
            "{}",
            key
        );
        let mut abbreviated = vec![5];
        abbreviated.extend_from_slice(b"stone");
        assert_eq!(
            ComponentData::read(entry.kind, &abbreviated, 0, &registry).expect("abbreviated identifier should decode").0,
            data,
            "{}",
            key
        );
        let mut encoded = Vec::new();
        data.write(&mut encoded, &registry).expect("network identifier should encode");
        let mut canonical = vec![15];
        canonical.extend_from_slice(b"minecraft:stone");
        assert_eq!(encoded, canonical, "{}", key);
    }
}

#[test]
fn vanilla_components_identifier_component_codecs_use_vanilla_namespace_rules() {
    identifier_component_codecs();
}

#[test]
fn tests_identifier_component_codecs_use_vanilla_namespace_rules() {
    identifier_component_codecs();
}

#[test]
fn identifier_components_refuse_invalid_identifiers() {
    let registry = vanilla_registry();
    let item_model = registry.by_key("minecraft:item_model").expect("registered");
    let mut invalid = vec![6];
    invalid.extend_from_slice(b"Stone!");
    assert_eq!(ComponentData::read(item_model.kind, &invalid, 0, &registry).map(|r| r.1), Err(WireError::Invalid));
    // only the full form is written
    let short = ComponentData::Identifier("stone".to_string());
    assert_eq!(short.write(&mut Vec::new(), &registry), Err(WireError::Invalid));
    assert_eq!(short.write_nbt(PersistentCodec::Identifier), Err(WireError::Invalid));
    assert_eq!(ComponentData::read_nbt(PersistentCodec::Identifier, &NbtTag::Int(1), &registry), None);
}
