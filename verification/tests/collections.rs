use steel_registry::components::death_protection::DeathProtection;
use steel_registry::components::books::{
    Filterable, WritableBookContent, WrittenBookContent, filterable_string_from_nbt, filterable_string_nbt,
};
use steel_registry::components::fireworks::{FireworkExplosion, FireworkExplosionShape, Fireworks};
use steel_registry::components::pot_decorations::PotDecorations;
use steel_registry::components::recursive_items::{
    BundleContents, ChargedProjectiles, ItemContainerContents, ItemStackTemplate,
};
use steel_registry::components::suspicious_stew::{SuspiciousStewEffect, SuspiciousStewEffects};
use steel_registry::fraction::{BundleWeightError, CheckedFraction, gcd};
use steel_registry::holder::RegistryRef;
use steel_registry::nbt::NbtTag;
use steel_registry::wire::write_varint;

fn item(key: &str, id: u32) -> RegistryRef {
    RegistryRef { key: key.to_string(), id }
}

fn items_registry() -> Vec<RegistryRef> {
    vec![
        item("minecraft:brick", 0),
        item("minecraft:angler_pottery_sherd", 1),
        item("minecraft:archer_pottery_sherd", 2),
        item("minecraft:arrow", 3),
    ]
}

#[test]
fn both_codecs_reject_more_than_four_items() {
    let brick = item("minecraft:brick", 0);
    let items: Vec<RegistryRef> = (0..5).map(|_| brick.clone()).collect();
    assert!(PotDecorations::from_ordered(&items).is_err());

    let mut network = vec![5];
    network.extend([0; 5]);
    assert!(PotDecorations::read(&network, 0, &items_registry()).is_err());
}

#[test]
fn ordered_sides_round_trip_both_codecs_and_hash_as_four_items() {
    let registry = items_registry();
    let brick = registry[0].clone();
    let decorations =
        PotDecorations::from_ordered(&[registry[1].clone(), brick.clone(), registry[2].clone()])
            .expect("three decorations should fit");
    assert_eq!(decorations.back(), Some(registry[1].clone()));
    assert_eq!(decorations.left(), None);
    assert_eq!(decorations.front(), None);

    let nbt = decorations.to_nbt_tag(&brick);
    assert_eq!(PotDecorations::from_nbt_tag(&nbt, &registry), Some(decorations.clone()));

    let mut network = Vec::new();
    decorations.write(&mut network, &brick).expect("decorations should encode");
    assert_eq!(network, vec![4, 1, 0, 2, 0]);
    assert_eq!(
        PotDecorations::read(&network, 0, &registry).expect("decorations should decode").0,
        decorations
    );
}

#[test]
fn extracted_decorated_pot_shape_has_four_bricks_as_empty_sides() {
    let brick = item("minecraft:brick", 0);
    let ordered = PotDecorations::empty().ordered(&brick);
    assert_eq!(ordered.len(), 4);
    assert!(ordered.iter().all(|side| side.key == "minecraft:brick"));
}

fn arrow() -> ItemStackTemplate {
    ItemStackTemplate::new(item("minecraft:arrow", 3), 1, 64)
}

#[test]
fn recursive_collection_limits_are_enforced() {
    let projectiles: Vec<ItemStackTemplate> =
        (0..ChargedProjectiles::MAX_SIZE + 1).map(|_| arrow()).collect();
    assert!(ChargedProjectiles::new(projectiles).is_err());
    let slots: Vec<Option<ItemStackTemplate>> =
        (0..ItemContainerContents::MAX_SIZE + 1).map(|_| None).collect();
    assert!(ItemContainerContents::new(slots).is_err());
}

#[test]
fn recursive_components_accept_their_maximum_sizes() {
    let projectiles: Vec<ItemStackTemplate> =
        (0..ChargedProjectiles::MAX_SIZE).map(|_| arrow()).collect();
    assert_eq!(
        ChargedProjectiles::new(projectiles).expect("maximum should fit").items().len(),
        ChargedProjectiles::MAX_SIZE
    );
    let contents = ItemContainerContents::new(vec![None, Some(arrow()), None])
        .expect("three slots should fit");
    assert!(contents.items()[1].is_some());
}

#[test]
fn bundle_weight_matches_nested_bundle_and_beehive_rules() {
    let stone = item("minecraft:stone", 10);
    let mut nested_bundle = ItemStackTemplate::new(stone.clone(), 1, 64);
    nested_bundle.bundle_contents =
        Some(BundleContents::new(vec![ItemStackTemplate::new(stone.clone(), 1, 64)]));
    let nested_weight = BundleContents::new(vec![nested_bundle])
        .compute_weight()
        .expect("small nested bundle weight should compute");
    assert_eq!((nested_weight.numerator, nested_weight.denominator), (5, 64));

    let mut beehive = ItemStackTemplate::new(item("minecraft:beehive", 11), 1, 64);
    beehive.bee_count = 1;
    let beehive_weight = BundleContents::new(vec![beehive])
        .compute_weight()
        .expect("occupied beehive weight should compute");
    assert_eq!((beehive_weight.numerator, beehive_weight.denominator), (1, 1));
}

#[test]
fn bundle_weight_rejects_commons_fraction_denominator_overflow() {
    let items = [97, 89, 83, 79, 73]
        .into_iter()
        .map(|max_stack_size| ItemStackTemplate::new(item("minecraft:stone", 10), 1, max_stack_size))
        .collect();
    assert_eq!(
        BundleContents::new(items).validate_weight(),
        Err(BundleWeightError::ExcessiveWeight)
    );
}

#[test]
fn fractions_reduce_and_add_exactly() {
    let half = CheckedFraction::new(2, 4).expect("valid fraction");
    assert_eq!((half.numerator, half.denominator), (1, 2));
    let third = CheckedFraction::new(1, 3).expect("valid fraction");
    let sum = half.add(third).expect("small sum");
    assert_eq!((sum.numerator, sum.denominator), (5, 6));
    let sixth = CheckedFraction::new(1, 6).expect("valid fraction");
    let reduced = sixth.add(third).expect("small sum");
    assert_eq!((reduced.numerator, reduced.denominator), (1, 2));
    let scaled = sixth.multiply(4).expect("small product");
    assert_eq!((scaled.numerator, scaled.denominator), (2, 3));
    assert_eq!(CheckedFraction::new(1, 0), Err(BundleWeightError::InvalidFraction));
    assert_eq!(sixth.multiply(-1), Err(BundleWeightError::InvalidCount));
    assert_eq!(gcd(12, 18), 6);
}

#[test]
fn unknown_stream_shape_ids_fall_back_to_small_ball() {
    let mut network = Vec::new();
    write_varint(&mut network, 99);
    write_varint(&mut network, 0);
    write_varint(&mut network, 0);
    network.push(0);
    network.push(0);
    let decoded = FireworkExplosion::read(&network, 0).expect("explosion should decode").0;
    assert_eq!(decoded.shape(), FireworkExplosionShape::SmallBall);
}

#[test]
fn explosion_codecs_match_shape_and_optional_fields() {
    let explosion =
        FireworkExplosion::new(FireworkExplosionShape::Star, vec![0x123456], vec![0x654321], true, false);
    let entries = explosion.to_nbt_entries();
    assert_eq!(entries.len(), 4);
    assert_eq!(FireworkExplosion::from_nbt_entries(&entries), Some(explosion.clone()));

    let mut network = Vec::new();
    explosion.write(&mut network).expect("explosion should encode");
    assert_eq!(FireworkExplosion::read(&network, 0).expect("explosion should decode").0, explosion);
}

#[test]
fn fireworks_use_unsigned_byte_persistence_and_bounded_lists() {
    let firework = Fireworks::new(255, vec![FireworkExplosion::default()]).expect("valid firework");
    let entries = firework.to_nbt_entries();
    assert_eq!(entries[0].0, "flight_duration");
    assert!(matches!(entries[0].1, NbtTag::Byte(-1)));
    assert_eq!(entries[1].0, "explosions");
    match &entries[1].1 {
        NbtTag::List(items) => {
            assert_eq!(items.len(), 1);
            match &items[0] {
                NbtTag::Compound(es) => {
                    assert_eq!(es.len(), 1);
                    assert_eq!(es[0].0, "shape");
                    assert!(matches!(&es[0].1, NbtTag::String(s) if s == "small_ball"));
                }
                _ => panic!("explosion should be a compound"),
            }
        }
        _ => panic!("explosions should be a list"),
    }
    assert_eq!(Fireworks::from_nbt_entries(&entries), Some(firework.clone()));

    let mut network = Vec::new();
    firework.write(&mut network).expect("firework should encode");
    assert_eq!(Fireworks::read(&network, 0).expect("firework should decode").0, firework);
    let negative = Fireworks::new(-1, Vec::new()).expect("stream permits negative flight");
    let oversized = Fireworks::new(256, Vec::new()).expect("stream permits any VarInt flight");
    for value in [&negative, &oversized] {
        let mut encoded = Vec::new();
        value.write(&mut encoded).expect("stream value should encode");
        assert_eq!(Fireworks::read(&encoded, 0).expect("stream value should decode").0, *value);
    }
    assert!(negative.try_to_persistent_nbt().is_ok());
    assert!(oversized.try_to_persistent_nbt().is_err());
    let many: Vec<FireworkExplosion> = (0..257).map(|_| FireworkExplosion::default()).collect();
    assert!(Fireworks::new(0, many).is_err());
}

#[test]
fn stew_effects_round_trip_and_malformed_duration_uses_lenient_default() {
    let registry = vec![item("minecraft:speed", 0), item("minecraft:night_vision", 1)];
    let effects = SuspiciousStewEffects::new(vec![
        SuspiciousStewEffect::new(registry[1].clone(), 100),
        SuspiciousStewEffect::new(registry[0].clone(), SuspiciousStewEffect::DEFAULT_DURATION),
    ]);
    let mut network = Vec::new();
    effects.write(&mut network).expect("effects should encode");
    let decoded = SuspiciousStewEffects::read(&network, 0, &registry).expect("effects should decode").0;
    assert_eq!(decoded, effects);

    let first = effects.effects()[0].to_nbt_entries();
    assert_eq!(first.len(), 2);
    let second = effects.effects()[1].to_nbt_entries();
    assert_eq!(second.len(), 1);
    assert_eq!(
        SuspiciousStewEffect::from_nbt_entries(&first, &registry),
        Some(effects.effects()[0].clone())
    );
    let malformed = vec![
        ("id".to_string(), NbtTag::String("speed".to_string())),
        ("duration".to_string(), NbtTag::String("long".to_string())),
    ];
    let lenient = SuspiciousStewEffect::from_nbt_entries(&malformed, &registry).expect("default duration");
    assert_eq!(lenient.duration(), SuspiciousStewEffect::DEFAULT_DURATION);
    assert_eq!(lenient.effect(), registry[0]);
}

#[test]
fn writable_pages_use_full_filterable_persistence_and_bounded_network() {
    let book = WritableBookContent::new(vec![
        Filterable::new("raw".to_string(), Some("filtered".to_string())),
        Filterable::pass_through("second".to_string()),
    ])
    .expect("two pages should fit");
    let nbt = book.to_nbt_tag();
    assert_eq!(WritableBookContent::from_nbt_tag(&nbt), Some(book.clone()));
    let mut network = Vec::new();
    book.write(&mut network).expect("book should encode");
    assert_eq!(WritableBookContent::read(&network, 0).expect("book should decode").0, book);

    let long_page = "x".repeat(WritableBookContent::PAGE_EDIT_LENGTH + 1);
    assert!(WritableBookContent::new(vec![Filterable::pass_through(long_page)]).is_err());
    let pages: Vec<Filterable<String>> = (0..WritableBookContent::MAX_PAGES + 1)
        .map(|_| Filterable::pass_through(String::new()))
        .collect();
    assert!(WritableBookContent::new(pages).is_err());
    assert_eq!(book.pages()[0].get(true), "filtered");
    assert_eq!(book.pages()[0].get(false), "raw");
}

#[test]
fn written_book_validates_title_generation_and_author() {
    let title = Filterable::pass_through("Title".to_string());
    let book: WrittenBookContent<String> =
        WrittenBookContent::new(title.clone(), "Steve".to_string(), 2, Vec::new(), false)
            .expect("valid book");
    assert_eq!(book.generation(), 2);
    assert_eq!(book.author(), "Steve");
    assert!(WrittenBookContent::<String>::new(title.clone(), "Steve".to_string(), 4, Vec::new(), false).is_err());
    let long_title = Filterable::pass_through("t".repeat(33));
    assert!(WrittenBookContent::<String>::new(long_title, "Steve".to_string(), 0, Vec::new(), false).is_err());
    let empty: WrittenBookContent<String> = WrittenBookContent::empty();
    assert!(empty.resolved());
}

#[test]
fn filterable_strings_read_compounds_and_plain_strings() {
    let value = Filterable::new("raw".to_string(), Some("clean".to_string()));
    let compound = NbtTag::Compound(filterable_string_nbt(&value));
    assert_eq!(filterable_string_from_nbt(&compound, 16), Some(value));
    assert_eq!(
        filterable_string_from_nbt(&NbtTag::String("plain".to_string()), 16),
        Some(Filterable::pass_through("plain".to_string()))
    );
    assert_eq!(filterable_string_from_nbt(&NbtTag::String("too long".to_string()), 3), None);
    let bad_filtered = NbtTag::Compound(vec![
        ("raw".to_string(), NbtTag::String("a".to_string())),
        ("filtered".to_string(), NbtTag::Int(1)),
    ]);
    assert_eq!(filterable_string_from_nbt(&bad_filtered, 16), None);
    let no_raw = NbtTag::Compound(vec![("filtered".to_string(), NbtTag::String("a".to_string()))]);
    assert_eq!(filterable_string_from_nbt(&no_raw, 16), None);
}

#[test]
fn writable_book_nbt_omits_empty_pages_and_bounds_lists() {
    let empty = WritableBookContent::empty();
    assert_eq!(empty.to_nbt_tag(), NbtTag::Compound(Vec::new()));
    assert_eq!(WritableBookContent::from_nbt_tag(&NbtTag::Compound(Vec::new())), Some(empty));
    let too_many = NbtTag::Compound(vec![(
        "pages".to_string(),
        NbtTag::List((0..101).map(|_| NbtTag::String(String::new())).collect()),
    )]);
    assert_eq!(WritableBookContent::from_nbt_tag(&too_many), None);
    let plain_pages = NbtTag::Compound(vec![(
        "pages".to_string(),
        NbtTag::List(vec![NbtTag::String("one".to_string())]),
    )]);
    let book = WritableBookContent::from_nbt_tag(&plain_pages).expect("plain string pages");
    assert_eq!(book.pages()[0].raw(), "one");
    assert_eq!(WritableBookContent::from_nbt_tag(&NbtTag::Int(0)), None);
}

#[test]
fn stew_effect_lists_round_trip_through_nbt() {
    let registry = vec![item("minecraft:speed", 0), item("minecraft:night_vision", 1)];
    let effects = SuspiciousStewEffects::new(vec![
        SuspiciousStewEffect::new(registry[1].clone(), 100),
        SuspiciousStewEffect::new(registry[0].clone(), SuspiciousStewEffect::DEFAULT_DURATION),
    ]);
    let tag = effects.to_nbt_tag();
    assert_eq!(SuspiciousStewEffects::from_nbt_tag(&tag, &registry), Some(effects));
    assert_eq!(SuspiciousStewEffects::from_nbt_tag(&NbtTag::List(Vec::new()), &registry), Some(SuspiciousStewEffects::empty()));
    assert_eq!(SuspiciousStewEffects::from_nbt_tag(&NbtTag::List(vec![NbtTag::Int(1)]), &registry), None);
    let unknown = NbtTag::List(vec![NbtTag::Compound(vec![("id".to_string(), NbtTag::String("minecraft:haste".to_string()))])]);
    assert_eq!(SuspiciousStewEffects::from_nbt_tag(&unknown, &registry), None);
}

#[test]
fn container_slots_list_the_filled_slots_in_order() {
    let contents = ItemContainerContents::new(vec![None, Some(arrow()), None, Some(arrow())]).expect("four slots fit");
    let slots: Vec<usize> = contents.slots().iter().map(|(index, _)| *index).collect();
    assert_eq!(slots, vec![1, 3]);
    assert!(ItemContainerContents::empty().slots().is_empty());
}

#[test]
fn ordered_sides_give_back_the_same_pot() {
    let registry = items_registry();
    let brick = registry[0].clone();
    for pot in [
        PotDecorations::empty(),
        PotDecorations::from_ordered(&[registry[1].clone(), brick.clone(), registry[2].clone()]).expect("three sides"),
        PotDecorations::from_ordered(&[registry[3].clone(), registry[1].clone(), registry[2].clone(), registry[1].clone()]).expect("four sides"),
    ] {
        let ordered = pot.ordered(&brick);
        assert_eq!(ordered.len(), 4);
        assert_eq!(PotDecorations::from_ordered(&ordered).expect("four sides fit"), pot);
    }
    assert_eq!(PotDecorations::empty().ordered(&brick), vec![brick.clone(); 4]);
}

#[test]
fn empty_components_are_their_defaults() {
    assert_eq!(WritableBookContent::default(), WritableBookContent::empty());
    assert_eq!(ChargedProjectiles::default(), ChargedProjectiles::empty());
    assert_eq!(BundleContents::default(), BundleContents::empty());
    assert_eq!(ItemContainerContents::default(), ItemContainerContents::empty());
    assert_eq!(SuspiciousStewEffects::default(), SuspiciousStewEffects::empty());
    assert_eq!(WritableBookContent::new(Vec::new()).expect("no pages"), WritableBookContent::empty());
    assert!(WritableBookContent::empty().pages().is_empty());
}

#[test]
fn death_protection_keeps_its_effects_in_order() {
    let protection = DeathProtection::new(vec![3u8, 1, 2]);
    assert_eq!(protection.death_effects(), &[3u8, 1, 2]);
    assert!(DeathProtection::<u8>::default().death_effects().is_empty());
}
