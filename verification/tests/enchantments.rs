use steel_registry::components::enchantments::ItemEnchantments;
use steel_registry::holder::RegistryRef;
use steel_registry::keyed::KeyedList;
use steel_registry::nbt::NbtTag;
use steel_registry::wire::WireError;

const SHARPNESS: &str = "minecraft:sharpness";
const UNBREAKING: &str = "minecraft:unbreaking";

fn registry() -> Vec<RegistryRef> {
    vec![
        RegistryRef { key: SHARPNESS.to_string(), id: 0 },
        RegistryRef { key: UNBREAKING.to_string(), id: 1 },
    ]
}

#[test]
fn enchantment_levels_set_get_and_remove() {
    let mut e = ItemEnchantments::empty();
    assert!(e.is_empty());
    e.set(SHARPNESS, 3);
    assert_eq!(e.get_level(SHARPNESS), 3);
    assert_eq!(e.get_level(UNBREAKING), 0);
    assert_eq!(e.len(), 1);
    e.set(SHARPNESS, 5);
    assert_eq!(e.get_level(SHARPNESS), 5);
    assert_eq!(e.len(), 1);
    e.set(SHARPNESS, 0);
    assert!(e.is_empty());
}

#[test]
fn enchantment_upgrade_keeps_the_higher_level_capped_at_255() {
    let mut e = ItemEnchantments::empty();
    e.upgrade(SHARPNESS, 2);
    e.upgrade(SHARPNESS, 1);
    assert_eq!(e.get_level(SHARPNESS), 2);
    e.upgrade(SHARPNESS, 300);
    assert_eq!(e.get_level(SHARPNESS), 255);
    e.upgrade(UNBREAKING, 0);
    assert_eq!(e.len(), 1);
    e.set(SHARPNESS, 1000);
    e.upgrade(SHARPNESS, 5);
    assert_eq!(e.get_level(SHARPNESS), 1000);
}

#[test]
fn enchantment_network_round_trip_and_shape() {
    let registry = registry();
    let mut e = ItemEnchantments::empty();
    e.set(UNBREAKING, 3);
    let mut network = Vec::new();
    e.write(&mut network, &registry).expect("enchantments should encode");
    assert_eq!(network, vec![1, 1, 3]);
    e.set(SHARPNESS, 5);
    let mut network = Vec::new();
    e.write(&mut network, &registry).expect("enchantments should encode");
    let (decoded, end) = ItemEnchantments::read(&network, 0, &registry).expect("enchantments should decode");
    assert_eq!(end, network.len());
    assert_eq!(decoded.get_level(SHARPNESS), 5);
    assert_eq!(decoded.get_level(UNBREAKING), 3);
    assert_eq!(decoded.len(), 2);
}

#[test]
fn enchantment_network_rejects_bad_counts_and_ids() {
    let registry = registry();
    let mut unknown = ItemEnchantments::empty();
    unknown.set("minecraft:unknown", 1);
    assert_eq!(unknown.write(&mut Vec::new(), &registry), Err(WireError::Invalid));
    assert_eq!(ItemEnchantments::read(&[0x81, 0x02], 0, &registry).map(|r| r.1), Err(WireError::Invalid));
    assert_eq!(ItemEnchantments::read(&[0xff, 0xff, 0xff, 0xff, 0x0f], 0, &registry).map(|r| r.1), Err(WireError::Invalid));
    assert_eq!(ItemEnchantments::read(&[1, 7, 1], 0, &registry).map(|r| r.1), Err(WireError::Invalid));
    assert_eq!(ItemEnchantments::read(&[1, 7], 0, &registry).map(|r| r.1), Err(WireError::UnexpectedEnd));
    let (decoded, _) = ItemEnchantments::read(&[2, 0, 1, 0, 4], 0, &registry).expect("repeated ids should decode");
    assert_eq!(decoded.get_level(SHARPNESS), 4);
    assert_eq!(decoded.len(), 1);
}

#[test]
fn enchantment_nbt_keeps_positive_int_levels_only() {
    let mut e = ItemEnchantments::empty();
    e.set(SHARPNESS, 2);
    let entries = e.to_nbt_entries();
    assert_eq!(entries.len(), 1);
    assert_eq!(entries[0].0, SHARPNESS);
    let back = ItemEnchantments::from_nbt_entries(&entries);
    assert_eq!(back.get_level(SHARPNESS), 2);

    let mixed = vec![
        ("unbreaking".to_string(), NbtTag::Int(3)),
        ("minecraft:mending".to_string(), NbtTag::Int(0)),
        ("minecraft:looting".to_string(), NbtTag::Byte(2)),
        ("Bad Key".to_string(), NbtTag::Int(1)),
    ];
    let decoded = ItemEnchantments::from_nbt_entries(&mixed);
    assert_eq!(decoded.get_level(UNBREAKING), 3);
    assert_eq!(decoded.len(), 1);
}

#[test]
fn keyed_list_replaces_and_removes_by_key() {
    let mut list: KeyedList<u32> = KeyedList::new();
    list.insert("a", 1);
    list.insert("b", 2);
    list.insert("a", 3);
    assert_eq!(list.len(), 2);
    assert_eq!(list.get("a"), Some(&3));
    list.remove("a");
    assert_eq!(list.get("a"), None);
    assert_eq!(list.get("b"), Some(&2));
    assert!(!list.is_empty());
}
