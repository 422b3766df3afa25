use steel_registry::component_data::{ComponentKind, PersistentCodec};
use steel_registry::components::tooltip_display::TooltipDisplay;
use steel_registry::nbt::NbtTag;
use steel_registry::patch::DataComponentRegistry;
use steel_registry::wire::WireError;

const LORE: &str = "minecraft:lore";
const DAMAGE: &str = "minecraft:damage";
const ENCHANTMENTS: &str = "minecraft:enchantments";

fn registry() -> DataComponentRegistry {
    let mut registry = DataComponentRegistry::new();
    registry.register(DAMAGE.to_string(), ComponentKind::VarInt, Some(PersistentCodec::RangedInt { min: 0, max: i32::MAX }));
    registry.register(LORE.to_string(), ComponentKind::Empty, Some(PersistentCodec::Unit));
    registry.register(ENCHANTMENTS.to_string(), ComponentKind::Empty, Some(PersistentCodec::Unit));
    registry
}

#[test]
fn hidden_components_preserve_first_insertion_order() {
    let display = TooltipDisplay::default()
        .with_hidden(LORE, true)
        .with_hidden(DAMAGE, true)
        .with_hidden(LORE, true);

    assert_eq!(display.hidden_components(), &[LORE.to_string(), DAMAGE.to_string()]);
    assert!(!display.shows(LORE));
    assert!(display.shows(ENCHANTMENTS));
}

#[test]
fn codecs_round_trip_registered_component_types() {
    let registry = registry();
    let display = TooltipDisplay::default()
        .with_hidden(LORE, true)
        .with_hidden(DAMAGE, true);

    let mut network = Vec::new();
    display.write(&mut network, &registry).expect("display should encode");
    let (decoded, end) = TooltipDisplay::read(&network, 0, &registry).expect("display should decode");
    assert_eq!(end, network.len());
    assert_eq!(decoded, display);

    let tag = display.to_nbt_tag();
    assert_eq!(TooltipDisplay::from_nbt_tag(&tag, &registry), Some(display));
}

#[test]
fn tooltip_network_form_is_flag_count_then_ids() {
    let registry = registry();
    let display = TooltipDisplay::new(true).with_hidden(ENCHANTMENTS, true).with_hidden(DAMAGE, true);
    let mut network = Vec::new();
    display.write(&mut network, &registry).expect("display should encode");
    assert_eq!(network, vec![1, 2, 2, 0]);
}

#[test]
fn tooltip_write_refuses_unregistered_components() {
    let registry = registry();
    let display = TooltipDisplay::default().with_hidden("minecraft:unknown", true);
    let mut network = Vec::new();
    assert_eq!(display.write(&mut network, &registry), Err(WireError::Invalid));
}

#[test]
fn tooltip_read_keeps_first_occurrence_and_rejects_bad_ids() {
    let registry = registry();
    let (decoded, end) = TooltipDisplay::read(&[0, 3, 1, 0, 1], 0, &registry).expect("display should decode");
    assert_eq!(end, 5);
    assert!(!decoded.hide_tooltip());
    assert_eq!(decoded.hidden_components(), &[LORE.to_string(), DAMAGE.to_string()]);
    assert_eq!(TooltipDisplay::read(&[0, 1, 7], 0, &registry), Err(WireError::Invalid));
    assert_eq!(TooltipDisplay::read(&[0, 0x7f], 0, &registry).map(|r| r.1), Err(WireError::UnexpectedEnd));
    assert_eq!(TooltipDisplay::read(&[0, 0xff, 0xff, 0xff, 0xff, 0x0f], 0, &registry).map(|r| r.1), Err(WireError::Negative));
}

#[test]
fn tooltip_showing_a_hidden_component_again() {
    let display = TooltipDisplay::default().with_hidden(LORE, true).with_hidden(DAMAGE, true);
    let shown = display.with_hidden(LORE, false);
    assert_eq!(shown.hidden_components(), &[DAMAGE.to_string()]);
    assert!(shown.shows(LORE));
    assert!(!TooltipDisplay::new(true).shows(LORE));
    assert_eq!(TooltipDisplay::new(false).with_hidden(LORE, false), TooltipDisplay::new(false));
}

#[test]
fn tooltip_nbt_reads_defaults_and_rejects_malformed_fields() {
    let registry = registry();
    assert_eq!(TooltipDisplay::from_nbt_tag(&NbtTag::Compound(Vec::new()), &registry), Some(TooltipDisplay::new(false)));
    assert_eq!(TooltipDisplay::from_nbt_tag(&NbtTag::Int(1), &registry), None);
    let hide_only = NbtTag::Compound(vec![("hide_tooltip".to_string(), NbtTag::Byte(1))]);
    assert_eq!(TooltipDisplay::from_nbt_tag(&hide_only, &registry), Some(TooltipDisplay::new(true)));
    let bad_flag = NbtTag::Compound(vec![("hide_tooltip".to_string(), NbtTag::String("yes".to_string()))]);
    assert_eq!(TooltipDisplay::from_nbt_tag(&bad_flag, &registry), None);
    let abbreviated = NbtTag::Compound(vec![(
        "hidden_components".to_string(),
        NbtTag::List(vec![NbtTag::String("lore".to_string()), NbtTag::String("minecraft:lore".to_string())]),
    )]);
    let decoded = TooltipDisplay::from_nbt_tag(&abbreviated, &registry).expect("abbreviated keys should parse");
    assert_eq!(decoded.hidden_components(), &[LORE.to_string()]);
    let unknown = NbtTag::Compound(vec![(
        "hidden_components".to_string(),
        NbtTag::List(vec![NbtTag::String("minecraft:unknown".to_string())]),
    )]);
    assert_eq!(TooltipDisplay::from_nbt_tag(&unknown, &registry), None);
    let not_strings = NbtTag::Compound(vec![("hidden_components".to_string(), NbtTag::List(vec![NbtTag::Int(1)]))]);
    assert_eq!(TooltipDisplay::from_nbt_tag(&not_strings, &registry), None);
    let empty_list = NbtTag::Compound(vec![("hidden_components".to_string(), NbtTag::List(Vec::new()))]);
    assert_eq!(TooltipDisplay::from_nbt_tag(&empty_list, &registry), Some(TooltipDisplay::new(false)));
}

#[test]
fn tooltip_from_hidden_components_drops_repeats() {
    let display = TooltipDisplay::from_hidden_components(
        false,
        vec![DAMAGE.to_string(), LORE.to_string(), DAMAGE.to_string()],
    );
    assert_eq!(display.hidden_components(), &[DAMAGE.to_string(), LORE.to_string()]);
}
