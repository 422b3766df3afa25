use steel_registry::component_data::{ComponentData, ComponentKind, PersistentCodec};
use steel_registry::component_map::DataComponentMap;
use steel_registry::components::block_state::BlockItemStateProperties;
use steel_registry::components::books::{Filterable, WritableBookContent};
use steel_registry::components::enchantable::Enchantable;
use steel_registry::components::fireworks::{FireworkExplosion, FireworkExplosionShape, Fireworks};
use steel_registry::components::rarity::Rarity;
use steel_registry::components::swing_animation::SwingAnimation;
use steel_registry::components::tooltip_display::TooltipDisplay;
use steel_registry::patch::{ComponentPatchEntry, DataComponentPatch};
use steel_registry::vanilla::vanilla_registry;
use steel_registry::wire::WireError;

fn facing_north() -> BlockItemStateProperties {
    BlockItemStateProperties::new(vec![("facing".to_string(), "north".to_string())])
}

fn star() -> FireworkExplosion {
    FireworkExplosion::new(FireworkExplosionShape::Star, vec![0xff0000], vec![0x00ff00], true, false)
}

#[test]
fn vanilla_registers_the_structured_codecs() {
    let registry = vanilla_registry();
    let expected = [
        ("minecraft:enchantable", ComponentKind::Enchantable, PersistentCodec::Enchantable),
        ("minecraft:writable_book_content", ComponentKind::WritableBook, PersistentCodec::WritableBook),
        ("minecraft:firework_explosion", ComponentKind::FireworkExplosion, PersistentCodec::FireworkExplosion),
        ("minecraft:fireworks", ComponentKind::Fireworks, PersistentCodec::Fireworks),
        ("minecraft:block_state", ComponentKind::BlockState, PersistentCodec::BlockState),
        ("minecraft:tooltip_display", ComponentKind::TooltipDisplay, PersistentCodec::TooltipDisplay),
    ];
    for (key, kind, codec) in expected {
        let entry = registry.by_key(key).unwrap_or_else(|| panic!("missing {key}"));
        assert_eq!(entry.kind, kind, "{key}");
        assert_eq!(entry.persistent, Some(codec), "{key}");
    }
    assert_eq!(registry.get_id("minecraft:enchantable"), Some(31));
    assert_eq!(registry.get_id("minecraft:block_state"), Some(76));
}

#[test]
fn enchantability_travels_in_a_patch() {
    let registry = vanilla_registry();
    let mut patch = DataComponentPatch::new();
    patch.set("minecraft:enchantable", ComponentData::Enchantable(Enchantable::new(15).expect("positive")));
    let mut network = Vec::new();
    patch.write(&mut network, &registry).expect("patch should encode");
    assert_eq!(network, vec![1, 0, 31, 15]);
    let (decoded, end) = DataComponentPatch::read(&network, 0, &registry).expect("patch should decode");
    assert_eq!(end, 4);
    assert_eq!(decoded, patch);
    // an enchantability must be positive
    assert_eq!(DataComponentPatch::read(&[1, 0, 31, 0], 0, &registry).map(|r| r.1), Err(WireError::Invalid));
}

#[test]
fn block_state_travels_in_a_patch() {
    let registry = vanilla_registry();
    let mut patch = DataComponentPatch::new();
    patch.set("minecraft:block_state", ComponentData::BlockState(facing_north()));
    let mut network = Vec::new();
    patch.write(&mut network, &registry).expect("patch should encode");
    let mut expected = vec![1, 0, 76, 1, 6];
    expected.extend_from_slice(b"facing");
    expected.push(5);
    expected.extend_from_slice(b"north");
    assert_eq!(network, expected);
    let (decoded, end) = DataComponentPatch::read(&network, 0, &registry).expect("patch should decode");
    assert_eq!(end, network.len());
    assert_eq!(
        decoded.get_entry("minecraft:block_state"),
        Some(&ComponentPatchEntry::Value(ComponentData::BlockState(facing_north())))
    );
    let delimited_value = &network[3..];
    let mut delimited = vec![1, 0, 76, delimited_value.len() as u8];
    delimited.extend_from_slice(delimited_value);
    let (from_delimited, _) = DataComponentPatch::read_delimited(&delimited, 0, &registry).expect("delimited patch should decode");
    assert_eq!(from_delimited, decoded);
}

#[test]
fn oversized_block_state_is_refused_on_write() {
    let registry = vanilla_registry();
    let long = "x".repeat(40000);
    let mut patch = DataComponentPatch::new();
    patch.set(
        "minecraft:block_state",
        ComponentData::BlockState(BlockItemStateProperties::new(vec![("facing".to_string(), long)])),
    );
    assert!(patch.write(&mut Vec::new(), &registry).is_err());
}

#[test]
fn books_and_fireworks_travel_in_a_patch() {
    let registry = vanilla_registry();
    let book = WritableBookContent::new(vec![
        Filterable::pass_through("first".to_string()),
        Filterable::new("raw".to_string(), Some("filtered".to_string())),
    ])
    .expect("two pages fit");
    let rocket = Fireworks::new(2, vec![star()]).expect("one explosion fits");
    let mut patch = DataComponentPatch::new();
    patch.set("minecraft:writable_book_content", ComponentData::WritableBook(book));
    patch.set("minecraft:firework_explosion", ComponentData::FireworkExplosion(star()));
    patch.set("minecraft:fireworks", ComponentData::Fireworks(rocket));
    let mut network = Vec::new();
    patch.write(&mut network, &registry).expect("patch should encode");
    assert_eq!(&network[..2], &[3, 0]);
    let (decoded, end) = DataComponentPatch::read(&network, 0, &registry).expect("patch should decode");
    assert_eq!(end, network.len());
    assert_eq!(decoded, patch);
}

#[test]
fn structured_components_round_trip_through_nbt() {
    let registry = vanilla_registry();
    let mut patch = DataComponentPatch::new();
    patch.set("minecraft:enchantable", ComponentData::Enchantable(Enchantable::new(10).expect("positive")));
    patch.set("minecraft:block_state", ComponentData::BlockState(facing_north()));
    patch.set("minecraft:firework_explosion", ComponentData::FireworkExplosion(star()));
    patch.set("minecraft:fireworks", ComponentData::Fireworks(Fireworks::new(1, vec![star()]).expect("fits")));
    patch.set(
        "minecraft:writable_book_content",
        ComponentData::WritableBook(WritableBookContent::new(vec![Filterable::pass_through("page".to_string())]).expect("fits")),
    );
    let tag = patch.try_to_nbt_tag(&registry).expect("patch should persist");
    assert_eq!(DataComponentPatch::from_nbt_tag(&tag, &registry), Some(patch));
}

#[test]
fn text_components_are_still_refused() {
    let registry = vanilla_registry();
    // a lore (id 11) is a list of text components, which the library does not read
    assert_eq!(DataComponentPatch::read(&[1, 0, 11, 0], 0, &registry).map(|r| r.1), Err(WireError::Unsupported));
}

#[test]
fn common_item_components_hold_the_item_defaults() {
    let map = DataComponentMap::common_item_components();
    assert_eq!(map.len(), 5);
    assert_eq!(map.get("minecraft:tooltip_display"), Some(&ComponentData::TooltipDisplay(TooltipDisplay::default())));
    assert_eq!(map.get("minecraft:max_stack_size"), Some(&ComponentData::I32(64)));
    assert_eq!(map.get("minecraft:repair_cost"), Some(&ComponentData::I32(0)));
    assert_eq!(map.get("minecraft:rarity"), Some(&ComponentData::Rarity(Rarity::Common)));
    assert_eq!(map.get("minecraft:swing_animation"), Some(&ComponentData::SwingAnimation(SwingAnimation::default())));
    assert_eq!(map.get("minecraft:damage"), None);
}

#[test]
fn tooltip_display_travels_in_a_patch_by_component_id() {
    let registry = vanilla_registry();
    let display = TooltipDisplay::default().with_hidden("minecraft:lore", true).with_hidden("minecraft:damage", true);
    let mut patch = DataComponentPatch::new();
    patch.set("minecraft:tooltip_display", ComponentData::TooltipDisplay(display.clone()));
    let mut network = Vec::new();
    patch.write(&mut network, &registry).expect("patch should encode");
    // tooltip_display is id 18; lore is id 11 and damage id 3
    assert_eq!(network, vec![1, 0, 18, 0, 2, 11, 3]);
    let (decoded, end) = DataComponentPatch::read(&network, 0, &registry).expect("patch should decode");
    assert_eq!(end, network.len());
    assert_eq!(decoded, patch);
    // a component listed twice is hidden once
    let (twice, _) = DataComponentPatch::read(&[1, 0, 18, 1, 2, 11, 11], 0, &registry).expect("patch should decode");
    match twice.get_entry("minecraft:tooltip_display") {
        Some(ComponentPatchEntry::Value(ComponentData::TooltipDisplay(d))) => {
            assert!(d.hide_tooltip());
            assert_eq!(d.hidden_components(), &["minecraft:lore".to_string()]);
        },
        other => panic!("unexpected entry {other:?}"),
    }
    // an id the registry lacks is refused
    assert_eq!(DataComponentPatch::read(&[1, 0, 18, 0, 1, 120], 0, &registry).map(|r| r.1), Err(WireError::Invalid));
    let tag = patch.try_to_nbt_tag(&registry).expect("patch should persist");
    assert_eq!(DataComponentPatch::from_nbt_tag(&tag, &registry), Some(patch));
}

#[test]
fn tooltip_display_hiding_an_unregistered_component_is_refused_on_write() {
    let registry = vanilla_registry();
    let mut patch = DataComponentPatch::new();
    patch.set(
        "minecraft:tooltip_display",
        ComponentData::TooltipDisplay(TooltipDisplay::default().with_hidden("minecraft:unknown", true)),
    );
    assert!(patch.write(&mut Vec::new(), &registry).is_err());
}
