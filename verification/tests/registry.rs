use steel_registry::component_map::DataComponentMap;
use steel_registry::component_data::{ComponentData, ComponentKind, PersistentCodec};
use steel_registry::components::rarity::Rarity;
use steel_registry::components::registry_holder_sets::{DamageResistant, Repairable};
use steel_registry::holder::{RegistryEntry, RegistryHolder, RegistryHolderSet, RegistryRef};
use steel_registry::identifier::parse_identifier;
use steel_registry::nbt::NbtTag;
use steel_registry::wire::WireError;
use steel_registry::patch::{ComponentPatchEntry, DataComponentPatch, DataComponentRegistry, RegistrationError};

fn registry() -> DataComponentRegistry {
    let mut registry = DataComponentRegistry::new();
    registry.register("minecraft:max_stack_size".to_string(), ComponentKind::VarInt, Some(PersistentCodec::RangedInt { min: 1, max: 99 }));
    registry.register("minecraft:unbreakable".to_string(), ComponentKind::Empty, Some(PersistentCodec::Unit));
    registry.register("minecraft:rarity".to_string(), ComponentKind::Rarity, Some(PersistentCodec::Rarity));
    registry
}

#[test]
fn registry_duplicate_component_registration_is_rejected_without_mutation() {
    let mut registry = DataComponentRegistry::new();
    let id = registry.register("test:duplicate".to_string(), ComponentKind::VarInt, Some(PersistentCodec::RangedInt { min: 0, max: i32::MAX }));
    assert_eq!(id, 0);
    let duplicate = registry.try_register("test:duplicate".to_string(), ComponentKind::Bool, Some(PersistentCodec::Bool));
    assert_eq!(duplicate, Err(RegistrationError::DuplicateKey));
    assert_eq!(registry.len(), 1);
    assert_eq!(registry.get_id("test:duplicate"), Some(0));
    assert_eq!(registry.get_key_by_id(0).map(String::as_str), Some("test:duplicate"));
    assert_eq!(registry.get_id("test:missing"), None);
    let second = registry.register("test:same_type_different_key".to_string(), ComponentKind::VarInt, Some(PersistentCodec::RangedInt { min: 0, max: i32::MAX }));
    assert_eq!(second, 1);
    assert_eq!(registry.get_id("test:same_type_different_key"), Some(1));
    registry.freeze();
    assert!(!registry.allows_registering());
    assert_eq!(
        registry.try_register("test:late".to_string(), ComponentKind::VarInt, None),
        Err(RegistrationError::Frozen)
    );
    assert_eq!(registry.len(), 2);
}

#[test]
fn tests_duplicate_component_registration_is_rejected_without_mutation() {
    let mut registry = DataComponentRegistry::new();
    let id = registry.register("test:duplicate".to_string(), ComponentKind::VarInt, Some(PersistentCodec::RangedInt { min: 0, max: i32::MAX }));
    assert_eq!(id, 0);
    let duplicate = registry.try_register("test:duplicate".to_string(), ComponentKind::Bool, Some(PersistentCodec::Bool));
    assert_eq!(duplicate, Err(RegistrationError::DuplicateKey));
    assert_eq!(registry.len(), 1);
    assert_eq!(registry.get_id("test:duplicate"), Some(0));
    assert_eq!(registry.get_key_by_id(0).map(String::as_str), Some("test:duplicate"));
    assert_eq!(registry.by_id(0).map(|entry| entry.key.as_str()), Some("test:duplicate"));
    let second = registry.register("test:same_type_different_key".to_string(), ComponentKind::VarInt, Some(PersistentCodec::RangedInt { min: 0, max: i32::MAX }));
    assert_eq!(second, 1);
    assert_eq!(registry.get_id("test:same_type_different_key"), Some(1));
}

#[test]
fn patch_network_codec_round_trips_set_and_removed_components() {
    let registry = registry();
    let mut patch = DataComponentPatch::new();
    patch.set("minecraft:max_stack_size", ComponentData::I32(16));
    patch.set("minecraft:rarity", ComponentData::Rarity(Rarity::Epic));
    patch.remove("minecraft:unbreakable");
    assert_eq!(patch.count_set(), 2);
    assert_eq!(patch.count_removed(), 1);
    assert!(patch.is_removed("minecraft:unbreakable"));

    let mut network = Vec::new();
    patch.write(&mut network, &registry).expect("patch should encode");
    assert_eq!(network, vec![2, 1, 0, 16, 2, 3, 1]);
    let (decoded, end) = DataComponentPatch::read(&network, 0, &registry).expect("patch should decode");
    assert_eq!(end, network.len());
    assert_eq!(decoded.get_entry("minecraft:max_stack_size"), Some(&ComponentPatchEntry::Value(ComponentData::I32(16))));
    assert_eq!(decoded.get_entry("minecraft:rarity"), Some(&ComponentPatchEntry::Value(ComponentData::Rarity(Rarity::Epic))));
    assert_eq!(decoded.get_entry("minecraft:unbreakable"), Some(&ComponentPatchEntry::Removed));
    assert_eq!(decoded.len(), 3);
}

#[test]
fn patch_writes_fail_on_unknown_keys_and_mismatched_codecs() {
    let registry = registry();
    let mut unknown = DataComponentPatch::new();
    unknown.remove("minecraft:glider");
    assert!(unknown.write(&mut Vec::new(), &registry).is_err());
    let mut mismatched = DataComponentPatch::new();
    mismatched.set("minecraft:rarity", ComponentData::I32(2));
    assert!(mismatched.write(&mut Vec::new(), &registry).is_err());
    assert!(DataComponentPatch::read(&[1, 0, 9], 0, &registry).is_err());
    assert!(DataComponentPatch::read(&[0x7f, 0], 0, &registry).is_err());
}

#[test]
fn patch_entries_replace_and_clear_by_key() {
    let mut patch = DataComponentPatch::new();
    assert!(patch.is_empty());
    patch.set("minecraft:max_stack_size", ComponentData::I32(1));
    patch.set("minecraft:max_stack_size", ComponentData::I32(2));
    assert_eq!(patch.len(), 1);
    assert_eq!(patch.get_entry("minecraft:max_stack_size"), Some(&ComponentPatchEntry::Value(ComponentData::I32(2))));
    patch.remove("minecraft:max_stack_size");
    assert!(patch.is_removed("minecraft:max_stack_size"));
    patch.clear("minecraft:max_stack_size");
    assert!(patch.is_empty());
    assert_eq!(patch.get_entry("minecraft:max_stack_size"), None);
}

#[test]
fn later_patch_entries_on_the_wire_replace_earlier_ones() {
    let registry = registry();
    let network = vec![2, 1, 0, 1, 0, 2, 0];
    let (decoded, _) = DataComponentPatch::read(&network, 0, &registry).expect("patch should decode");
    assert_eq!(decoded.len(), 1);
    assert_eq!(decoded.get_entry("minecraft:max_stack_size"), Some(&ComponentPatchEntry::Removed));
}

#[test]
fn damage_resistant_uses_the_vanilla_record_and_holder_set_codecs() {
    let fire = RegistryRef { key: "minecraft:in_fire".to_string(), id: 3 };
    let lava = RegistryRef { key: "minecraft:lava".to_string(), id: 4 };
    let resistant = DamageResistant::new(RegistryHolderSet::Named {
        tag: "minecraft:is_fire".to_string(),
        entries: vec![fire.clone()],
    });
    assert!(resistant.is_resistant_to(&fire));
    assert!(!resistant.is_resistant_to(&lava));
}

#[test]
fn repairable_accepts_tagged_and_direct_repair_items() {
    let diamond = RegistryRef { key: "minecraft:diamond".to_string(), id: 1 };
    let stick = RegistryRef { key: "minecraft:stick".to_string(), id: 2 };
    let repairable = Repairable::new(RegistryHolderSet::Direct(vec![diamond.clone()]));
    assert!(repairable.is_valid_repair_item(&diamond));
    assert!(!repairable.is_valid_repair_item(&stick));
}

#[test]
fn holders_expose_registered_and_inline_values() {
    let entry = RegistryEntry { key: "minecraft:ponder_goat_horn".to_string(), id: 0, value: 7 };
    let reference = RegistryHolder::reference(entry);
    assert_eq!(*reference.value(), 7);
    assert_eq!(reference.as_reference().map(|e| e.key.as_str()), Some("minecraft:ponder_goat_horn"));
    let direct: RegistryHolder<i32> = RegistryHolder::direct(9);
    assert_eq!(*direct.value(), 9);
    assert!(direct.as_reference().is_none());
}

#[test]
fn identifier_component_codecs_use_vanilla_namespace_rules() {
    assert_eq!(parse_identifier("stone").as_deref(), Some("minecraft:stone"));
    assert_eq!(parse_identifier(":stone").as_deref(), Some("minecraft:stone"));
    assert_eq!(parse_identifier("mod:path/to.thing").as_deref(), Some("mod:path/to.thing"));
    assert_eq!(parse_identifier("Mod:stone"), None);
    assert_eq!(parse_identifier("mod:sto ne"), None);
}

#[test]
fn component_map_sets_gets_and_removes_values() {
    let registry = registry();
    let mut map = DataComponentMap::new();
    assert!(map.is_empty());
    map.set("minecraft:max_stack_size", Some(ComponentData::I32(16)));
    map.set("minecraft:rarity", Some(ComponentData::Rarity(Rarity::Rare)));
    assert_eq!(map.len(), 2);
    assert!(map.has("minecraft:rarity"));
    assert_eq!(map.get_raw("minecraft:max_stack_size"), Some(&ComponentData::I32(16)));
    map.set("minecraft:rarity", None);
    assert!(!map.has("minecraft:rarity"));
    assert_eq!(map.remove("minecraft:max_stack_size"), Some(ComponentData::I32(16)));
    assert_eq!(map.remove("minecraft:max_stack_size"), None);
    assert!(map.set_raw("minecraft:max_stack_size".to_string(), ComponentData::I32(8), &registry));
    assert!(!map.set_raw("minecraft:max_stack_size".to_string(), ComponentData::Bool(true), &registry));
    assert!(!map.set_raw("minecraft:unknown".to_string(), ComponentData::I32(1), &registry));
    assert_eq!(map.get_raw("minecraft:max_stack_size"), Some(&ComponentData::I32(8)));
    let built = DataComponentMap::default().builder_set("minecraft:unbreakable", Some(ComponentData::Empty));
    let keys: Vec<&str> = built.keys().iter().map(|k| k.as_str()).collect();
    assert_eq!(keys, vec!["minecraft:unbreakable"]);
}

fn vanilla_like_registry() -> DataComponentRegistry {
    let mut registry = DataComponentRegistry::new();
    registry.register("minecraft:max_stack_size".to_string(), ComponentKind::VarInt, Some(PersistentCodec::RangedInt { min: 1, max: 99 }));
    registry.register("minecraft:creative_slot_lock".to_string(), ComponentKind::Empty, None);
    registry.register("minecraft:additional_trade_cost".to_string(), ComponentKind::VarInt, None);
    registry.register("minecraft:map_post_processing".to_string(), ComponentKind::MapPostProcessing, None);
    registry.register("minecraft:rarity".to_string(), ComponentKind::Rarity, Some(PersistentCodec::Rarity));
    registry.register("minecraft:unbreakable".to_string(), ComponentKind::Empty, Some(PersistentCodec::Unit));
    registry
}

fn compound_keys(tag: &NbtTag) -> Vec<String> {
    match tag {
        NbtTag::Compound(es) => es.iter().map(|(k, _)| k.clone()).collect(),
        _ => panic!("component patch should serialize as a compound"),
    }
}

fn omits_transient_components() {
    let registry = vanilla_like_registry();
    let mut patch = DataComponentPatch::new();
    patch.set("minecraft:max_stack_size", ComponentData::I32(16));
    patch.set("minecraft:creative_slot_lock", ComponentData::Empty);
    patch.remove("minecraft:additional_trade_cost");
    patch.remove("minecraft:map_post_processing");
    let keys = compound_keys(&patch.to_nbt_tag(&registry));
    assert!(keys.contains(&"minecraft:max_stack_size".to_string()));
    assert!(!keys.contains(&"minecraft:creative_slot_lock".to_string()));
    assert!(!keys.contains(&"!minecraft:additional_trade_cost".to_string()));
    assert!(!keys.contains(&"minecraft:map_post_processing".to_string()));
}

#[test]
fn registry_persistent_patch_nbt_omits_transient_components() {
    omits_transient_components();
}

#[test]
fn tests_persistent_patch_nbt_omits_transient_components() {
    omits_transient_components();
}

fn decode_fails_on_invalid_entries() {
    let registry = vanilla_like_registry();
    let valid = NbtTag::Compound(vec![("minecraft:max_stack_size".to_string(), NbtTag::Double(16.9f64.to_bits()))]);
    let patch = DataComponentPatch::from_nbt_tag(&valid, &registry).expect("numeric component value should use codec coercion");
    assert_eq!(
        patch.get_entry("minecraft:max_stack_size"),
        Some(&ComponentPatchEntry::Value(ComponentData::I32(16)))
    );
    let out_of_range = NbtTag::Compound(vec![("minecraft:max_stack_size".to_string(), NbtTag::Int(0))]);
    assert!(DataComponentPatch::from_nbt_tag(&out_of_range, &registry).is_none());
    let unknown = NbtTag::Compound(vec![("minecraft:not_a_component".to_string(), NbtTag::Compound(Vec::new()))]);
    assert!(DataComponentPatch::from_nbt_tag(&unknown, &registry).is_none());
    let malformed_removal = NbtTag::Compound(vec![("!minecraft:max_stack_size".to_string(), NbtTag::Int(1))]);
    assert!(DataComponentPatch::from_nbt_tag(&malformed_removal, &registry).is_none());
}

#[test]
fn registry_persistent_patch_decode_fails_on_invalid_entries() {
    decode_fails_on_invalid_entries();
}

#[test]
fn tests_persistent_patch_decode_fails_on_invalid_entries() {
    decode_fails_on_invalid_entries();
}

#[test]
fn patch_nbt_round_trips_saved_entries_and_removals() {
    let registry = vanilla_like_registry();
    let mut patch = DataComponentPatch::new();
    patch.set("minecraft:rarity", ComponentData::Rarity(Rarity::Rare));
    patch.remove("minecraft:unbreakable");
    patch.set("minecraft:max_stack_size", ComponentData::I32(12));
    let tag = patch.try_to_nbt_tag(&registry).expect("saved values should encode");
    assert_eq!(
        tag,
        NbtTag::Compound(vec![
            ("minecraft:rarity".to_string(), NbtTag::String("rare".to_string())),
            ("!minecraft:unbreakable".to_string(), NbtTag::Compound(Vec::new())),
            ("minecraft:max_stack_size".to_string(), NbtTag::Int(12)),
        ])
    );
    let decoded = DataComponentPatch::from_nbt_tag(&tag, &registry).expect("patch should decode");
    assert_eq!(decoded.len(), 3);
    assert!(decoded.is_removed("minecraft:unbreakable"));
    assert_eq!(decoded.get_entry("minecraft:rarity"), Some(&ComponentPatchEntry::Value(ComponentData::Rarity(Rarity::Rare))));
    let removed: Vec<&str> = decoded.iter_removed().iter().map(|k| k.as_str()).collect();
    assert_eq!(removed, vec!["minecraft:unbreakable"]);
}

#[test]
fn patch_nbt_strict_encoding_refuses_out_of_range_values() {
    let registry = vanilla_like_registry();
    let mut patch = DataComponentPatch::new();
    patch.set("minecraft:max_stack_size", ComponentData::I32(100));
    patch.set("minecraft:rarity", ComponentData::Rarity(Rarity::Epic));
    assert_eq!(patch.try_to_nbt_tag(&registry), Err(steel_registry::wire::WireError::Invalid));
    let lenient = patch.to_nbt_tag(&registry);
    assert_eq!(compound_keys(&lenient), vec!["minecraft:rarity".to_string()]);
    let mut mismatched = DataComponentPatch::new();
    mismatched.set("minecraft:rarity", ComponentData::Bool(true));
    assert!(mismatched.try_to_nbt_tag(&registry).is_err());
}

#[test]
fn patch_raw_entries_are_checked_against_the_registry() {
    let registry = registry();
    let mut patch = DataComponentPatch::new();
    assert!(patch.set_raw("minecraft:max_stack_size".to_string(), ComponentData::I32(4), &registry));
    assert!(!patch.set_raw("minecraft:max_stack_size".to_string(), ComponentData::Bool(true), &registry));
    assert!(!patch.set_raw("minecraft:unknown".to_string(), ComponentData::I32(4), &registry));
    assert_eq!(patch.get_entry("minecraft:max_stack_size"), Some(&ComponentPatchEntry::Value(ComponentData::I32(4))));
    assert!(patch.remove_raw("minecraft:rarity".to_string(), &registry));
    assert!(!patch.remove_raw("minecraft:unknown".to_string(), &registry));
    assert!(patch.is_removed("minecraft:rarity"));
    assert_eq!(patch.len(), 2);
    assert_eq!(patch.get_entry("minecraft:unknown"), None);
}

#[test]
fn component_map_gets_values_and_lists_entries() {
    let mut map = DataComponentMap::new();
    map.set("minecraft:max_stack_size", Some(ComponentData::I32(16)));
    map.set("minecraft:rarity", Some(ComponentData::Rarity(Rarity::Epic)));
    assert_eq!(map.get("minecraft:max_stack_size"), Some(&ComponentData::I32(16)));
    assert_eq!(map.get("minecraft:unbreakable"), None);
    let mut entries: Vec<(String, ComponentData)> = map.iter().into_iter().map(|(k, v)| (k.clone(), v.clone())).collect();
    entries.sort_by(|a, b| a.0.cmp(&b.0));
    assert_eq!(
        entries,
        vec![
            ("minecraft:max_stack_size".to_string(), ComponentData::I32(16)),
            ("minecraft:rarity".to_string(), ComponentData::Rarity(Rarity::Epic)),
        ]
    );
}

#[test]
fn delimited_patch_reads_each_value_within_its_length() {
    let registry = registry();
    // one set component (id 0, two bytes of which the value uses one), one removed (id 2)
    let data = [1u8, 1, 0, 2, 16, 99, 2, 7];
    let (patch, end) = DataComponentPatch::read_delimited(&data, 0, &registry).expect("patch should decode");
    assert_eq!(end, 7);
    assert_eq!(patch.get_entry("minecraft:max_stack_size"), Some(&ComponentPatchEntry::Value(ComponentData::I32(16))));
    assert!(patch.is_removed("minecraft:rarity"));
    assert_eq!(patch.len(), 2);
}

#[test]
fn delimited_patch_enforces_its_limits() {
    let registry = registry();
    // 65,536 set plus one removed component
    assert_eq!(DataComponentPatch::read_delimited(&[0x80, 0x80, 0x04, 1], 0, &registry).map(|r| r.1), Err(WireError::TooMany));
    // exactly 65,536 in all passes the count check and then runs out of input
    assert_eq!(DataComponentPatch::read_delimited(&[0x80, 0x80, 0x04, 0], 0, &registry).map(|r| r.1), Err(WireError::UnexpectedEnd));
    // a value length above 2 MiB
    assert_eq!(DataComponentPatch::read_delimited(&[1, 0, 0, 0x81, 0x80, 0x80, 0x01], 0, &registry).map(|r| r.1), Err(WireError::TooMany));
    // a value length past the end of the input
    assert_eq!(DataComponentPatch::read_delimited(&[1, 0, 0, 5, 16], 0, &registry).map(|r| r.1), Err(WireError::UnexpectedEnd));
    // a value that needs more bytes than its length gives
    assert_eq!(DataComponentPatch::read_delimited(&[1, 0, 2, 0, 16], 0, &registry).map(|r| r.1), Err(WireError::UnexpectedEnd));
    // an unknown component id
    assert_eq!(DataComponentPatch::read_delimited(&[1, 0, 9, 1, 16], 0, &registry).map(|r| r.1), Err(WireError::Invalid));
    // a negative count
    assert_eq!(DataComponentPatch::read_delimited(&[0xff, 0xff, 0xff, 0xff, 0x0f, 0], 0, &registry).map(|r| r.1), Err(WireError::Negative));
}
