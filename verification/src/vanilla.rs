//! The vanilla component types, registered in the order that fixes their
//! network ids.

use vstd::prelude::*;
use crate::component_data::{ComponentKind, PersistentCodec};
use crate::patch::{ComponentEntry, DataComponentRegistry, registry_has_key};

verus! {

/// A registered component type as its key, network codec and persistent codec.
pub open spec fn entry_view(e: ComponentEntry) -> (Seq<char>, ComponentKind, Option<PersistentCodec>) {
    (e.key@, e.kind, e.persistent)
}

/// The vanilla component types in registration order: the position of each
/// is its network id. Components whose values this library does not model
/// have the `External` codecs.
pub open spec fn vanilla_entries() -> Seq<(Seq<char>, ComponentKind, Option<PersistentCodec>)> {
    seq![
        ("minecraft:custom_data"@, ComponentKind::External, Some(PersistentCodec::External)),
        ("minecraft:max_stack_size"@, ComponentKind::VarInt, Some(PersistentCodec::RangedInt { min: 1, max: 99 })),
        ("minecraft:max_damage"@, ComponentKind::VarInt, Some(PersistentCodec::RangedInt { min: 1, max: i32::MAX })),
        ("minecraft:damage"@, ComponentKind::VarInt, Some(PersistentCodec::RangedInt { min: 0, max: i32::MAX })),
        ("minecraft:unbreakable"@, ComponentKind::Empty, Some(PersistentCodec::Unit)),
        ("minecraft:use_effects"@, ComponentKind::External, Some(PersistentCodec::External)),
        ("minecraft:custom_name"@, ComponentKind::External, Some(PersistentCodec::External)),
        ("minecraft:minimum_attack_charge"@, ComponentKind::External, Some(PersistentCodec::External)),
        ("minecraft:damage_type"@, ComponentKind::External, Some(PersistentCodec::External)),
        ("minecraft:item_name"@, ComponentKind::External, Some(PersistentCodec::External)),
        ("minecraft:item_model"@, ComponentKind::Identifier, Some(PersistentCodec::Identifier)),
        ("minecraft:lore"@, ComponentKind::External, Some(PersistentCodec::External)),
        ("minecraft:rarity"@, ComponentKind::Rarity, Some(PersistentCodec::Rarity)),
        ("minecraft:enchantments"@, ComponentKind::External, Some(PersistentCodec::External)),
        ("minecraft:can_place_on"@, ComponentKind::External, Some(PersistentCodec::External)),
        ("minecraft:can_break"@, ComponentKind::External, Some(PersistentCodec::External)),
        ("minecraft:attribute_modifiers"@, ComponentKind::External, Some(PersistentCodec::External)),
        ("minecraft:custom_model_data"@, ComponentKind::External, Some(PersistentCodec::External)),
        ("minecraft:tooltip_display"@, ComponentKind::TooltipDisplay, Some(PersistentCodec::TooltipDisplay)),
        ("minecraft:repair_cost"@, ComponentKind::VarInt, Some(PersistentCodec::RangedInt { min: 0, max: i32::MAX })),
        ("minecraft:creative_slot_lock"@, ComponentKind::Empty, None),
        ("minecraft:enchantment_glint_override"@, ComponentKind::Bool, Some(PersistentCodec::Bool)),
        ("minecraft:intangible_projectile"@, ComponentKind::External, Some(PersistentCodec::Unit)),
        ("minecraft:food"@, ComponentKind::External, Some(PersistentCodec::External)),
        ("minecraft:consumable"@, ComponentKind::External, Some(PersistentCodec::External)),
        ("minecraft:use_remainder"@, ComponentKind::External, Some(PersistentCodec::External)),
        ("minecraft:use_cooldown"@, ComponentKind::External, Some(PersistentCodec::External)),
        ("minecraft:damage_resistant"@, ComponentKind::External, Some(PersistentCodec::External)),
        ("minecraft:tool"@, ComponentKind::External, Some(PersistentCodec::External)),
        ("minecraft:weapon"@, ComponentKind::External, Some(PersistentCodec::External)),
        ("minecraft:attack_range"@, ComponentKind::External, Some(PersistentCodec::External)),
        ("minecraft:enchantable"@, ComponentKind::Enchantable, Some(PersistentCodec::Enchantable)),
        ("minecraft:equippable"@, ComponentKind::External, Some(PersistentCodec::External)),
        ("minecraft:repairable"@, ComponentKind::External, Some(PersistentCodec::External)),
        ("minecraft:glider"@, ComponentKind::Empty, Some(PersistentCodec::Unit)),
        ("minecraft:tooltip_style"@, ComponentKind::Identifier, Some(PersistentCodec::Identifier)),
        ("minecraft:death_protection"@, ComponentKind::External, Some(PersistentCodec::External)),
        ("minecraft:blocks_attacks"@, ComponentKind::External, Some(PersistentCodec::External)),
        ("minecraft:piercing_weapon"@, ComponentKind::External, Some(PersistentCodec::External)),
        ("minecraft:kinetic_weapon"@, ComponentKind::External, Some(PersistentCodec::External)),
        ("minecraft:swing_animation"@, ComponentKind::SwingAnimation, Some(PersistentCodec::SwingAnimation)),
        ("minecraft:additional_trade_cost"@, ComponentKind::VarInt, None),
        ("minecraft:stored_enchantments"@, ComponentKind::External, Some(PersistentCodec::External)),
        ("minecraft:dye"@, ComponentKind::External, Some(PersistentCodec::External)),
        ("minecraft:dyed_color"@, ComponentKind::DyedColor, Some(PersistentCodec::DyedColor)),
        ("minecraft:map_color"@, ComponentKind::MapColor, Some(PersistentCodec::MapColor)),
        ("minecraft:map_id"@, ComponentKind::VarInt, Some(PersistentCodec::RangedInt { min: i32::MIN, max: i32::MAX })),
        ("minecraft:map_decorations"@, ComponentKind::External, Some(PersistentCodec::External)),
        ("minecraft:map_post_processing"@, ComponentKind::MapPostProcessing, None),
        ("minecraft:charged_projectiles"@, ComponentKind::External, Some(PersistentCodec::External)),
        ("minecraft:bundle_contents"@, ComponentKind::External, Some(PersistentCodec::External)),
        ("minecraft:potion_contents"@, ComponentKind::External, Some(PersistentCodec::External)),
        ("minecraft:potion_duration_scale"@, ComponentKind::External, Some(PersistentCodec::External)),
        ("minecraft:suspicious_stew_effects"@, ComponentKind::External, Some(PersistentCodec::External)),
        ("minecraft:writable_book_content"@, ComponentKind::WritableBook, Some(PersistentCodec::WritableBook)),
        ("minecraft:written_book_content"@, ComponentKind::External, Some(PersistentCodec::External)),
        ("minecraft:trim"@, ComponentKind::External, Some(PersistentCodec::External)),
        ("minecraft:debug_stick_state"@, ComponentKind::External, Some(PersistentCodec::External)),
        ("minecraft:entity_data"@, ComponentKind::External, Some(PersistentCodec::External)),
        ("minecraft:bucket_entity_data"@, ComponentKind::External, Some(PersistentCodec::External)),
        ("minecraft:block_entity_data"@, ComponentKind::External, Some(PersistentCodec::External)),
        ("minecraft:instrument"@, ComponentKind::External, Some(PersistentCodec::External)),
        ("minecraft:provides_trim_material"@, ComponentKind::External, Some(PersistentCodec::External)),
        ("minecraft:ominous_bottle_amplifier"@, ComponentKind::OminousBottleAmplifier, Some(PersistentCodec::OminousBottleAmplifier)),
        ("minecraft:jukebox_playable"@, ComponentKind::External, Some(PersistentCodec::External)),
        ("minecraft:provides_banner_patterns"@, ComponentKind::External, Some(PersistentCodec::External)),
        ("minecraft:recipes"@, ComponentKind::External, Some(PersistentCodec::External)),
        ("minecraft:lodestone_tracker"@, ComponentKind::External, Some(PersistentCodec::External)),
        ("minecraft:firework_explosion"@, ComponentKind::FireworkExplosion, Some(PersistentCodec::FireworkExplosion)),
        ("minecraft:fireworks"@, ComponentKind::Fireworks, Some(PersistentCodec::Fireworks)),
        ("minecraft:profile"@, ComponentKind::External, Some(PersistentCodec::External)),
        ("minecraft:note_block_sound"@, ComponentKind::Identifier, Some(PersistentCodec::Identifier)),
        ("minecraft:banner_patterns"@, ComponentKind::External, Some(PersistentCodec::External)),
        ("minecraft:base_color"@, ComponentKind::External, Some(PersistentCodec::External)),
        ("minecraft:pot_decorations"@, ComponentKind::External, Some(PersistentCodec::External)),
        ("minecraft:container"@, ComponentKind::External, Some(PersistentCodec::External)),
        ("minecraft:block_state"@, ComponentKind::BlockState, Some(PersistentCodec::BlockState)),
        ("minecraft:bees"@, ComponentKind::External, Some(PersistentCodec::External)),
        ("minecraft:sulfur_cube_content"@, ComponentKind::External, Some(PersistentCodec::External)),
        ("minecraft:lock"@, ComponentKind::External, Some(PersistentCodec::External)),
        ("minecraft:container_loot"@, ComponentKind::External, Some(PersistentCodec::External)),
        ("minecraft:break_sound"@, ComponentKind::External, Some(PersistentCodec::External)),
        ("minecraft:villager/variant"@, ComponentKind::External, Some(PersistentCodec::External)),
        ("minecraft:wolf/variant"@, ComponentKind::External, Some(PersistentCodec::External)),
        ("minecraft:wolf/sound_variant"@, ComponentKind::External, Some(PersistentCodec::External)),
        ("minecraft:wolf/collar"@, ComponentKind::External, Some(PersistentCodec::External)),
        ("minecraft:fox/variant"@, ComponentKind::External, Some(PersistentCodec::External)),
        ("minecraft:salmon/size"@, ComponentKind::External, Some(PersistentCodec::External)),
        ("minecraft:parrot/variant"@, ComponentKind::External, Some(PersistentCodec::External)),
        ("minecraft:tropical_fish/pattern"@, ComponentKind::External, Some(PersistentCodec::External)),
        ("minecraft:tropical_fish/base_color"@, ComponentKind::External, Some(PersistentCodec::External)),
        ("minecraft:tropical_fish/pattern_color"@, ComponentKind::External, Some(PersistentCodec::External)),
        ("minecraft:mooshroom/variant"@, ComponentKind::External, Some(PersistentCodec::External)),
        ("minecraft:rabbit/variant"@, ComponentKind::External, Some(PersistentCodec::External)),
        ("minecraft:pig/variant"@, ComponentKind::External, Some(PersistentCodec::External)),
        ("minecraft:pig/sound_variant"@, ComponentKind::External, Some(PersistentCodec::External)),
        ("minecraft:cow/variant"@, ComponentKind::External, Some(PersistentCodec::External)),
        ("minecraft:cow/sound_variant"@, ComponentKind::External, Some(PersistentCodec::External)),
        ("minecraft:chicken/variant"@, ComponentKind::External, Some(PersistentCodec::External)),
        ("minecraft:chicken/sound_variant"@, ComponentKind::External, Some(PersistentCodec::External)),
        ("minecraft:zombie_nautilus/variant"@, ComponentKind::External, Some(PersistentCodec::External)),
        ("minecraft:frog/variant"@, ComponentKind::External, Some(PersistentCodec::External)),
        ("minecraft:horse/variant"@, ComponentKind::External, Some(PersistentCodec::External)),
        ("minecraft:painting/variant"@, ComponentKind::External, Some(PersistentCodec::External)),
        ("minecraft:llama/variant"@, ComponentKind::External, Some(PersistentCodec::External)),
        ("minecraft:axolotl/variant"@, ComponentKind::External, Some(PersistentCodec::External)),
        ("minecraft:cat/variant"@, ComponentKind::External, Some(PersistentCodec::External)),
        ("minecraft:cat/sound_variant"@, ComponentKind::External, Some(PersistentCodec::External)),
        ("minecraft:cat/collar"@, ComponentKind::External, Some(PersistentCodec::External)),
        ("minecraft:sheep/color"@, ComponentKind::External, Some(PersistentCodec::External)),
        ("minecraft:shulker/color"@, ComponentKind::External, Some(PersistentCodec::External)),
    ]
}

/// Every vanilla key is distinct from the others: keys of different lengths
/// differ in length, keys of one length differ at the positions named here.
proof fn lemma_vanilla_key_facts()
    ensures
        "minecraft:dye"@.len() == 13,
        "minecraft:lore"@.len() == 14,
        "minecraft:food"@.len() == 14,
        "minecraft:tool"@.len() == 14,
        "minecraft:trim"@.len() == 14,
        "minecraft:bees"@.len() == 14,
        "minecraft:lock"@.len() == 14,
        "minecraft:lore"@[13] == 'e',
        "minecraft:food"@[13] == 'd',
        "minecraft:tool"@[13] == 'l',
        "minecraft:trim"@[13] == 'm',
        "minecraft:bees"@[13] == 's',
        "minecraft:lock"@[13] == 'k',
        "minecraft:damage"@.len() == 16,
        "minecraft:rarity"@.len() == 16,
        "minecraft:weapon"@.len() == 16,
        "minecraft:glider"@.len() == 16,
        "minecraft:map_id"@.len() == 16,
        "minecraft:damage"@[10] == 'd',
        "minecraft:rarity"@[10] == 'r',
        "minecraft:weapon"@[10] == 'w',
        "minecraft:glider"@[10] == 'g',
        "minecraft:map_id"@[10] == 'm',
        "minecraft:recipes"@.len() == 17,
        "minecraft:profile"@.len() == 17,
        "minecraft:recipes"@[10] == 'r',
        "minecraft:profile"@[10] == 'p',
        "minecraft:item_name"@.len() == 19,
        "minecraft:can_break"@.len() == 19,
        "minecraft:map_color"@.len() == 19,
        "minecraft:fireworks"@.len() == 19,
        "minecraft:container"@.len() == 19,
        "minecraft:item_name"@[14] == '_',
        "minecraft:can_break"@[14] == 'b',
        "minecraft:map_color"@[14] == 'c',
        "minecraft:fireworks"@[14] == 'w',
        "minecraft:container"@[14] == 'a',
        "minecraft:max_damage"@.len() == 20,
        "minecraft:item_model"@.len() == 20,
        "minecraft:consumable"@.len() == 20,
        "minecraft:equippable"@.len() == 20,
        "minecraft:repairable"@.len() == 20,
        "minecraft:dyed_color"@.len() == 20,
        "minecraft:instrument"@.len() == 20,
        "minecraft:base_color"@.len() == 20,
        "minecraft:cat/collar"@.len() == 20,
        "minecraft:max_damage"@[13] == '_',
        "minecraft:item_model"@[13] == 'm',
        "minecraft:consumable"@[13] == 's',
        "minecraft:equippable"@[13] == 'i',
        "minecraft:repairable"@[13] == 'a',
        "minecraft:dyed_color"@[13] == 'd',
        "minecraft:instrument"@[13] == 't',
        "minecraft:base_color"@[13] == 'e',
        "minecraft:cat/collar"@[13] == '/',
        "minecraft:custom_data"@.len() == 21,
        "minecraft:unbreakable"@.len() == 21,
        "minecraft:use_effects"@.len() == 21,
        "minecraft:custom_name"@.len() == 21,
        "minecraft:damage_type"@.len() == 21,
        "minecraft:repair_cost"@.len() == 21,
        "minecraft:enchantable"@.len() == 21,
        "minecraft:entity_data"@.len() == 21,
        "minecraft:block_state"@.len() == 21,
        "minecraft:break_sound"@.len() == 21,
        "minecraft:wolf/collar"@.len() == 21,
        "minecraft:fox/variant"@.len() == 21,
        "minecraft:salmon/size"@.len() == 21,
        "minecraft:pig/variant"@.len() == 21,
        "minecraft:cow/variant"@.len() == 21,
        "minecraft:cat/variant"@.len() == 21,
        "minecraft:sheep/color"@.len() == 21,
        "minecraft:custom_data"@[12] == 's',
        "minecraft:custom_data"@[19] == 't',
        "minecraft:unbreakable"@[12] == 'b',
        "minecraft:unbreakable"@[19] == 'l',
        "minecraft:use_effects"@[12] == 'e',
        "minecraft:use_effects"@[19] == 't',
        "minecraft:custom_name"@[12] == 's',
        "minecraft:custom_name"@[19] == 'm',
        "minecraft:damage_type"@[12] == 'm',
        "minecraft:damage_type"@[19] == 'p',
        "minecraft:repair_cost"@[12] == 'p',
        "minecraft:repair_cost"@[19] == 's',
        "minecraft:enchantable"@[12] == 'c',
        "minecraft:enchantable"@[19] == 'l',
        "minecraft:entity_data"@[12] == 't',
        "minecraft:entity_data"@[19] == 't',
        "minecraft:block_state"@[12] == 'o',
        "minecraft:block_state"@[19] == 't',
        "minecraft:break_sound"@[12] == 'e',
        "minecraft:break_sound"@[19] == 'n',
        "minecraft:wolf/collar"@[12] == 'l',
        "minecraft:wolf/collar"@[19] == 'a',
        "minecraft:fox/variant"@[12] == 'x',
        "minecraft:fox/variant"@[19] == 'n',
        "minecraft:salmon/size"@[12] == 'l',
        "minecraft:salmon/size"@[19] == 'z',
        "minecraft:pig/variant"@[12] == 'g',
        "minecraft:pig/variant"@[19] == 'n',
        "minecraft:cow/variant"@[12] == 'w',
        "minecraft:cow/variant"@[19] == 'n',
        "minecraft:cat/variant"@[12] == 't',
        "minecraft:cat/variant"@[19] == 'n',
        "minecraft:sheep/color"@[12] == 'e',
        "minecraft:sheep/color"@[19] == 'o',
        "minecraft:enchantments"@.len() == 22,
        "minecraft:can_place_on"@.len() == 22,
        "minecraft:use_cooldown"@.len() == 22,
        "minecraft:attack_range"@.len() == 22,
        "minecraft:wolf/variant"@.len() == 22,
        "minecraft:frog/variant"@.len() == 22,
        "minecraft:enchantments"@[10] == 'e',
        "minecraft:can_place_on"@[10] == 'c',
        "minecraft:use_cooldown"@[10] == 'u',
        "minecraft:attack_range"@[10] == 'a',
        "minecraft:wolf/variant"@[10] == 'w',
        "minecraft:frog/variant"@[10] == 'f',
        "minecraft:use_remainder"@.len() == 23,
        "minecraft:tooltip_style"@.len() == 23,
        "minecraft:horse/variant"@.len() == 23,
        "minecraft:llama/variant"@.len() == 23,
        "minecraft:shulker/color"@.len() == 23,
        "minecraft:use_remainder"@[10] == 'u',
        "minecraft:tooltip_style"@[10] == 't',
        "minecraft:horse/variant"@[10] == 'h',
        "minecraft:llama/variant"@[10] == 'l',
        "minecraft:shulker/color"@[10] == 's',
        "minecraft:max_stack_size"@.len() == 24,
        "minecraft:blocks_attacks"@.len() == 24,
        "minecraft:kinetic_weapon"@.len() == 24,
        "minecraft:container_loot"@.len() == 24,
        "minecraft:parrot/variant"@.len() == 24,
        "minecraft:rabbit/variant"@.len() == 24,
        "minecraft:max_stack_size"@[10] == 'm',
        "minecraft:blocks_attacks"@[10] == 'b',
        "minecraft:kinetic_weapon"@[10] == 'k',
        "minecraft:container_loot"@[10] == 'c',
        "minecraft:parrot/variant"@[10] == 'p',
        "minecraft:rabbit/variant"@[10] == 'r',
        "minecraft:tooltip_display"@.len() == 25,
        "minecraft:piercing_weapon"@.len() == 25,
        "minecraft:swing_animation"@.len() == 25,
        "minecraft:map_decorations"@.len() == 25,
        "minecraft:bundle_contents"@.len() == 25,
        "minecraft:potion_contents"@.len() == 25,
        "minecraft:banner_patterns"@.len() == 25,
        "minecraft:pot_decorations"@.len() == 25,
        "minecraft:chicken/variant"@.len() == 25,
        "minecraft:axolotl/variant"@.len() == 25,
        "minecraft:tooltip_display"@[14] == 't',
        "minecraft:tooltip_display"@[10] == 't',
        "minecraft:piercing_weapon"@[14] == 'c',
        "minecraft:piercing_weapon"@[10] == 'p',
        "minecraft:swing_animation"@[14] == 'g',
        "minecraft:swing_animation"@[10] == 's',
        "minecraft:map_decorations"@[14] == 'd',
        "minecraft:map_decorations"@[10] == 'm',
        "minecraft:bundle_contents"@[14] == 'l',
        "minecraft:bundle_contents"@[10] == 'b',
        "minecraft:potion_contents"@[14] == 'o',
        "minecraft:potion_contents"@[10] == 'p',
        "minecraft:banner_patterns"@[14] == 'e',
        "minecraft:banner_patterns"@[10] == 'b',
        "minecraft:pot_decorations"@[14] == 'd',
        "minecraft:pot_decorations"@[10] == 'p',
        "minecraft:chicken/variant"@[14] == 'k',
        "minecraft:chicken/variant"@[10] == 'c',
        "minecraft:axolotl/variant"@[14] == 'o',
        "minecraft:axolotl/variant"@[10] == 'a',
        "minecraft:damage_resistant"@.len() == 26,
        "minecraft:death_protection"@.len() == 26,
        "minecraft:jukebox_playable"@.len() == 26,
        "minecraft:note_block_sound"@.len() == 26,
        "minecraft:villager/variant"@.len() == 26,
        "minecraft:painting/variant"@.len() == 26,
        "minecraft:damage_resistant"@[12] == 'm',
        "minecraft:death_protection"@[12] == 'a',
        "minecraft:jukebox_playable"@[12] == 'k',
        "minecraft:note_block_sound"@[12] == 't',
        "minecraft:villager/variant"@[12] == 'l',
        "minecraft:painting/variant"@[12] == 'i',
        "minecraft:custom_model_data"@.len() == 27,
        "minecraft:debug_stick_state"@.len() == 27,
        "minecraft:block_entity_data"@.len() == 27,
        "minecraft:lodestone_tracker"@.len() == 27,
        "minecraft:mooshroom/variant"@.len() == 27,
        "minecraft:pig/sound_variant"@.len() == 27,
        "minecraft:cow/sound_variant"@.len() == 27,
        "minecraft:cat/sound_variant"@.len() == 27,
        "minecraft:custom_model_data"@[12] == 's',
        "minecraft:custom_model_data"@[10] == 'c',
        "minecraft:debug_stick_state"@[12] == 'b',
        "minecraft:debug_stick_state"@[10] == 'd',
        "minecraft:block_entity_data"@[12] == 'o',
        "minecraft:block_entity_data"@[10] == 'b',
        "minecraft:lodestone_tracker"@[12] == 'd',
        "minecraft:lodestone_tracker"@[10] == 'l',
        "minecraft:mooshroom/variant"@[12] == 'o',
        "minecraft:mooshroom/variant"@[10] == 'm',
        "minecraft:pig/sound_variant"@[12] == 'g',
        "minecraft:pig/sound_variant"@[10] == 'p',
        "minecraft:cow/sound_variant"@[12] == 'w',
        "minecraft:cow/sound_variant"@[10] == 'c',
        "minecraft:cat/sound_variant"@[12] == 't',
        "minecraft:cat/sound_variant"@[10] == 'c',
        "minecraft:creative_slot_lock"@.len() == 28,
        "minecraft:bucket_entity_data"@.len() == 28,
        "minecraft:firework_explosion"@.len() == 28,
        "minecraft:wolf/sound_variant"@.len() == 28,
        "minecraft:creative_slot_lock"@[10] == 'c',
        "minecraft:bucket_entity_data"@[10] == 'b',
        "minecraft:firework_explosion"@[10] == 'f',
        "minecraft:wolf/sound_variant"@[10] == 'w',
        "minecraft:attribute_modifiers"@.len() == 29,
        "minecraft:stored_enchantments"@.len() == 29,
        "minecraft:map_post_processing"@.len() == 29,
        "minecraft:charged_projectiles"@.len() == 29,
        "minecraft:sulfur_cube_content"@.len() == 29,
        "minecraft:attribute_modifiers"@[12] == 't',
        "minecraft:stored_enchantments"@[12] == 'o',
        "minecraft:map_post_processing"@[12] == 'p',
        "minecraft:charged_projectiles"@[12] == 'a',
        "minecraft:sulfur_cube_content"@[12] == 'l',
        "minecraft:written_book_content"@.len() == 30,
        "minecraft:minimum_attack_charge"@.len() == 31,
        "minecraft:intangible_projectile"@.len() == 31,
        "minecraft:additional_trade_cost"@.len() == 31,
        "minecraft:potion_duration_scale"@.len() == 31,
        "minecraft:writable_book_content"@.len() == 31,
        "minecraft:tropical_fish/pattern"@.len() == 31,
        "minecraft:chicken/sound_variant"@.len() == 31,
        "minecraft:minimum_attack_charge"@[10] == 'm',
        "minecraft:intangible_projectile"@[10] == 'i',
        "minecraft:additional_trade_cost"@[10] == 'a',
        "minecraft:potion_duration_scale"@[10] == 'p',
        "minecraft:writable_book_content"@[10] == 'w',
        "minecraft:tropical_fish/pattern"@[10] == 't',
        "minecraft:chicken/sound_variant"@[10] == 'c',
        "minecraft:provides_trim_material"@.len() == 32,
        "minecraft:suspicious_stew_effects"@.len() == 33,
        "minecraft:zombie_nautilus/variant"@.len() == 33,
        "minecraft:suspicious_stew_effects"@[10] == 's',
        "minecraft:zombie_nautilus/variant"@[10] == 'z',
        "minecraft:ominous_bottle_amplifier"@.len() == 34,
        "minecraft:provides_banner_patterns"@.len() == 34,
        "minecraft:tropical_fish/base_color"@.len() == 34,
        "minecraft:ominous_bottle_amplifier"@[10] == 'o',
        "minecraft:provides_banner_patterns"@[10] == 'p',
        "minecraft:tropical_fish/base_color"@[10] == 't',
        "minecraft:enchantment_glint_override"@.len() == 36,
        "minecraft:tropical_fish/pattern_color"@.len() == 37,
{
    reveal_strlit("minecraft:custom_data");
    reveal_strlit("minecraft:max_stack_size");
    reveal_strlit("minecraft:max_damage");
    reveal_strlit("minecraft:damage");
    reveal_strlit("minecraft:unbreakable");
    reveal_strlit("minecraft:use_effects");
    reveal_strlit("minecraft:custom_name");
    reveal_strlit("minecraft:minimum_attack_charge");
    reveal_strlit("minecraft:damage_type");
    reveal_strlit("minecraft:item_name");
    reveal_strlit("minecraft:item_model");
    reveal_strlit("minecraft:lore");
    reveal_strlit("minecraft:rarity");
    reveal_strlit("minecraft:enchantments");
    reveal_strlit("minecraft:can_place_on");
    reveal_strlit("minecraft:can_break");
    reveal_strlit("minecraft:attribute_modifiers");
    reveal_strlit("minecraft:custom_model_data");
    reveal_strlit("minecraft:tooltip_display");
    reveal_strlit("minecraft:repair_cost");
    reveal_strlit("minecraft:creative_slot_lock");
    reveal_strlit("minecraft:enchantment_glint_override");
    reveal_strlit("minecraft:intangible_projectile");
    reveal_strlit("minecraft:food");
    reveal_strlit("minecraft:consumable");
    reveal_strlit("minecraft:use_remainder");
    reveal_strlit("minecraft:use_cooldown");
    reveal_strlit("minecraft:damage_resistant");
    reveal_strlit("minecraft:tool");
    reveal_strlit("minecraft:weapon");
    reveal_strlit("minecraft:attack_range");
    reveal_strlit("minecraft:enchantable");
    reveal_strlit("minecraft:equippable");
    reveal_strlit("minecraft:repairable");
    reveal_strlit("minecraft:glider");
    reveal_strlit("minecraft:tooltip_style");
    reveal_strlit("minecraft:death_protection");
    reveal_strlit("minecraft:blocks_attacks");
    reveal_strlit("minecraft:piercing_weapon");
    reveal_strlit("minecraft:kinetic_weapon");
    reveal_strlit("minecraft:swing_animation");
    reveal_strlit("minecraft:additional_trade_cost");
    reveal_strlit("minecraft:stored_enchantments");
    reveal_strlit("minecraft:dye");
    reveal_strlit("minecraft:dyed_color");
    reveal_strlit("minecraft:map_color");
    reveal_strlit("minecraft:map_id");
    reveal_strlit("minecraft:map_decorations");
    reveal_strlit("minecraft:map_post_processing");
    reveal_strlit("minecraft:charged_projectiles");
    reveal_strlit("minecraft:bundle_contents");
    reveal_strlit("minecraft:potion_contents");
    reveal_strlit("minecraft:potion_duration_scale");
    reveal_strlit("minecraft:suspicious_stew_effects");
    reveal_strlit("minecraft:writable_book_content");
    reveal_strlit("minecraft:written_book_content");
    reveal_strlit("minecraft:trim");
    reveal_strlit("minecraft:debug_stick_state");
    reveal_strlit("minecraft:entity_data");
    reveal_strlit("minecraft:bucket_entity_data");
    reveal_strlit("minecraft:block_entity_data");
    reveal_strlit("minecraft:instrument");
    reveal_strlit("minecraft:provides_trim_material");
    reveal_strlit("minecraft:ominous_bottle_amplifier");
    reveal_strlit("minecraft:jukebox_playable");
    reveal_strlit("minecraft:provides_banner_patterns");
    reveal_strlit("minecraft:recipes");
    reveal_strlit("minecraft:lodestone_tracker");
    reveal_strlit("minecraft:firework_explosion");
    reveal_strlit("minecraft:fireworks");
    reveal_strlit("minecraft:profile");
    reveal_strlit("minecraft:note_block_sound");
    reveal_strlit("minecraft:banner_patterns");
    reveal_strlit("minecraft:base_color");
    reveal_strlit("minecraft:pot_decorations");
    reveal_strlit("minecraft:container");
    reveal_strlit("minecraft:block_state");
    reveal_strlit("minecraft:bees");
    reveal_strlit("minecraft:sulfur_cube_content");
    reveal_strlit("minecraft:lock");
    reveal_strlit("minecraft:container_loot");
    reveal_strlit("minecraft:break_sound");
    reveal_strlit("minecraft:villager/variant");
    reveal_strlit("minecraft:wolf/variant");
    reveal_strlit("minecraft:wolf/sound_variant");
    reveal_strlit("minecraft:wolf/collar");
    reveal_strlit("minecraft:fox/variant");
    reveal_strlit("minecraft:salmon/size");
    reveal_strlit("minecraft:parrot/variant");
    reveal_strlit("minecraft:tropical_fish/pattern");
    reveal_strlit("minecraft:tropical_fish/base_color");
    reveal_strlit("minecraft:tropical_fish/pattern_color");
    reveal_strlit("minecraft:mooshroom/variant");
    reveal_strlit("minecraft:rabbit/variant");
    reveal_strlit("minecraft:pig/variant");
    reveal_strlit("minecraft:pig/sound_variant");
    reveal_strlit("minecraft:cow/variant");
    reveal_strlit("minecraft:cow/sound_variant");
    reveal_strlit("minecraft:chicken/variant");
    reveal_strlit("minecraft:chicken/sound_variant");
    reveal_strlit("minecraft:zombie_nautilus/variant");
    reveal_strlit("minecraft:frog/variant");
    reveal_strlit("minecraft:horse/variant");
    reveal_strlit("minecraft:painting/variant");
    reveal_strlit("minecraft:llama/variant");
    reveal_strlit("minecraft:axolotl/variant");
    reveal_strlit("minecraft:cat/variant");
    reveal_strlit("minecraft:cat/sound_variant");
    reveal_strlit("minecraft:cat/collar");
    reveal_strlit("minecraft:sheep/color");
    reveal_strlit("minecraft:shulker/color");
}


/// Registers one vanilla component type, whose key is not in `keys`, which
/// holds every key registered so far.
fn register_fresh(registry: &mut DataComponentRegistry, key: String, kind: ComponentKind, persistent: Option<PersistentCodec>, Ghost(keys): Ghost<Set<Seq<char>>>)
    requires
        old(registry).wf(),
        old(registry).spec_allows_registering(),
        forall|j: int| 0 <= j < old(registry).spec_entries().len() ==> keys.contains(#[trigger] old(registry).spec_entries()[j].key@),
        !keys.contains(key@),
    ensures
        final(registry).wf(),
        final(registry).spec_allows_registering(),
        final(registry).spec_entries() == old(registry).spec_entries().push(ComponentEntry { key, kind, persistent }),
        forall|j: int| 0 <= j < final(registry).spec_entries().len() ==> keys.insert(key@).contains(#[trigger] final(registry).spec_entries()[j].key@),
{
    proof {
        if registry_has_key(old(registry).spec_entries(), key@) {
            let j = choose|j: int| 0 <= j < old(registry).spec_entries().len() && #[trigger] old(registry).spec_entries()[j].key@ == key@;
            assert(keys.contains(old(registry).spec_entries()[j].key@));
        }
    }
    let ghost k = key@;
    registry.register(key, kind, persistent);
    assert forall|j: int| 0 <= j < registry.spec_entries().len() implies keys.insert(k).contains(#[trigger] registry.spec_entries()[j].key@) by {
        if j < old(registry).spec_entries().len() {
            assert(registry.spec_entries()[j] == old(registry).spec_entries()[j]);
        }
    }
}



/// The keys of the first `n` vanilla component types, for `n` a chunk
/// boundary of the registration below.
spec fn vanilla_keys_before(n: int) -> Set<Seq<char>> {
    if n == 38 {
        Set::new(|k: Seq<char>| k == "minecraft:custom_data"@
            || k == "minecraft:max_stack_size"@
            || k == "minecraft:max_damage"@
            || k == "minecraft:damage"@
            || k == "minecraft:unbreakable"@
            || k == "minecraft:use_effects"@
            || k == "minecraft:custom_name"@
            || k == "minecraft:minimum_attack_charge"@
            || k == "minecraft:damage_type"@
            || k == "minecraft:item_name"@
            || k == "minecraft:item_model"@
            || k == "minecraft:lore"@
            || k == "minecraft:rarity"@
            || k == "minecraft:enchantments"@
            || k == "minecraft:can_place_on"@
            || k == "minecraft:can_break"@
            || k == "minecraft:attribute_modifiers"@
            || k == "minecraft:custom_model_data"@
            || k == "minecraft:tooltip_display"@
            || k == "minecraft:repair_cost"@
            || k == "minecraft:creative_slot_lock"@
            || k == "minecraft:enchantment_glint_override"@
            || k == "minecraft:intangible_projectile"@
            || k == "minecraft:food"@
            || k == "minecraft:consumable"@
            || k == "minecraft:use_remainder"@
            || k == "minecraft:use_cooldown"@
            || k == "minecraft:damage_resistant"@
            || k == "minecraft:tool"@
            || k == "minecraft:weapon"@
            || k == "minecraft:attack_range"@
            || k == "minecraft:enchantable"@
            || k == "minecraft:equippable"@
            || k == "minecraft:repairable"@
            || k == "minecraft:glider"@
            || k == "minecraft:tooltip_style"@
            || k == "minecraft:death_protection"@
            || k == "minecraft:blocks_attacks"@)
    } else if n == 76 {
        Set::new(|k: Seq<char>| k == "minecraft:custom_data"@
            || k == "minecraft:max_stack_size"@
            || k == "minecraft:max_damage"@
            || k == "minecraft:damage"@
            || k == "minecraft:unbreakable"@
            || k == "minecraft:use_effects"@
            || k == "minecraft:custom_name"@
            || k == "minecraft:minimum_attack_charge"@
            || k == "minecraft:damage_type"@
            || k == "minecraft:item_name"@
            || k == "minecraft:item_model"@
            || k == "minecraft:lore"@
            || k == "minecraft:rarity"@
            || k == "minecraft:enchantments"@
            || k == "minecraft:can_place_on"@
            || k == "minecraft:can_break"@
            || k == "minecraft:attribute_modifiers"@
            || k == "minecraft:custom_model_data"@
            || k == "minecraft:tooltip_display"@
            || k == "minecraft:repair_cost"@
            || k == "minecraft:creative_slot_lock"@
            || k == "minecraft:enchantment_glint_override"@
            || k == "minecraft:intangible_projectile"@
            || k == "minecraft:food"@
            || k == "minecraft:consumable"@
            || k == "minecraft:use_remainder"@
            || k == "minecraft:use_cooldown"@
            || k == "minecraft:damage_resistant"@
            || k == "minecraft:tool"@
            || k == "minecraft:weapon"@
            || k == "minecraft:attack_range"@
            || k == "minecraft:enchantable"@
            || k == "minecraft:equippable"@
            || k == "minecraft:repairable"@
            || k == "minecraft:glider"@
            || k == "minecraft:tooltip_style"@
            || k == "minecraft:death_protection"@
            || k == "minecraft:blocks_attacks"@
            || k == "minecraft:piercing_weapon"@
            || k == "minecraft:kinetic_weapon"@
            || k == "minecraft:swing_animation"@
            || k == "minecraft:additional_trade_cost"@
            || k == "minecraft:stored_enchantments"@
            || k == "minecraft:dye"@
            || k == "minecraft:dyed_color"@
            || k == "minecraft:map_color"@
            || k == "minecraft:map_id"@
            || k == "minecraft:map_decorations"@
            || k == "minecraft:map_post_processing"@
            || k == "minecraft:charged_projectiles"@
            || k == "minecraft:bundle_contents"@
            || k == "minecraft:potion_contents"@
            || k == "minecraft:potion_duration_scale"@
            || k == "minecraft:suspicious_stew_effects"@
            || k == "minecraft:writable_book_content"@
            || k == "minecraft:written_book_content"@
            || k == "minecraft:trim"@
            || k == "minecraft:debug_stick_state"@
            || k == "minecraft:entity_data"@
            || k == "minecraft:bucket_entity_data"@
            || k == "minecraft:block_entity_data"@
            || k == "minecraft:instrument"@
            || k == "minecraft:provides_trim_material"@
            || k == "minecraft:ominous_bottle_amplifier"@
            || k == "minecraft:jukebox_playable"@
            || k == "minecraft:provides_banner_patterns"@
            || k == "minecraft:recipes"@
            || k == "minecraft:lodestone_tracker"@
            || k == "minecraft:firework_explosion"@
            || k == "minecraft:fireworks"@
            || k == "minecraft:profile"@
            || k == "minecraft:note_block_sound"@
            || k == "minecraft:banner_patterns"@
            || k == "minecraft:base_color"@
            || k == "minecraft:pot_decorations"@
            || k == "minecraft:container"@)
    } else {
        Set::empty()
    }
}

/// Registers the vanilla component types with network ids 0 to 37.
#[verifier::rlimit(100)]
fn register_vanilla_0_to_37(registry: &mut DataComponentRegistry)
    requires
        old(registry).wf(),
        old(registry).spec_allows_registering(),
        old(registry).spec_entries().len() == 0,
    ensures
        final(registry).wf(),
        final(registry).spec_allows_registering(),
        final(registry).spec_entries().map_values(|e: ComponentEntry| entry_view(e))
            == old(registry).spec_entries().map_values(|e: ComponentEntry| entry_view(e)) + vanilla_entries().subrange(0, 38),
        forall|j: int| 0 <= j < final(registry).spec_entries().len() ==> vanilla_keys_before(38).contains(#[trigger] final(registry).spec_entries()[j].key@),
{
    let ghost mut keys: Set<Seq<char>> = Set::empty();
    proof {
        lemma_vanilla_key_facts();
    }
    register_fresh(registry, String::from_str("minecraft:custom_data"), ComponentKind::External, Some(PersistentCodec::External), Ghost(keys));
    proof { keys = keys.insert("minecraft:custom_data"@); }
    register_fresh(registry, String::from_str("minecraft:max_stack_size"), ComponentKind::VarInt, Some(PersistentCodec::RangedInt { min: 1, max: 99 }), Ghost(keys));
    proof { keys = keys.insert("minecraft:max_stack_size"@); }
    register_fresh(registry, String::from_str("minecraft:max_damage"), ComponentKind::VarInt, Some(PersistentCodec::RangedInt { min: 1, max: 2147483647 }), Ghost(keys));
    proof { keys = keys.insert("minecraft:max_damage"@); }
    register_fresh(registry, String::from_str("minecraft:damage"), ComponentKind::VarInt, Some(PersistentCodec::RangedInt { min: 0, max: 2147483647 }), Ghost(keys));
    proof { keys = keys.insert("minecraft:damage"@); }
    register_fresh(registry, String::from_str("minecraft:unbreakable"), ComponentKind::Empty, Some(PersistentCodec::Unit), Ghost(keys));
    proof { keys = keys.insert("minecraft:unbreakable"@); }
    register_fresh(registry, String::from_str("minecraft:use_effects"), ComponentKind::External, Some(PersistentCodec::External), Ghost(keys));
    proof { keys = keys.insert("minecraft:use_effects"@); }
    register_fresh(registry, String::from_str("minecraft:custom_name"), ComponentKind::External, Some(PersistentCodec::External), Ghost(keys));
    proof { keys = keys.insert("minecraft:custom_name"@); }
    register_fresh(registry, String::from_str("minecraft:minimum_attack_charge"), ComponentKind::External, Some(PersistentCodec::External), Ghost(keys));
    proof { keys = keys.insert("minecraft:minimum_attack_charge"@); }
    register_fresh(registry, String::from_str("minecraft:damage_type"), ComponentKind::External, Some(PersistentCodec::External), Ghost(keys));
    proof { keys = keys.insert("minecraft:damage_type"@); }
    register_fresh(registry, String::from_str("minecraft:item_name"), ComponentKind::External, Some(PersistentCodec::External), Ghost(keys));
    proof { keys = keys.insert("minecraft:item_name"@); }
    register_fresh(registry, String::from_str("minecraft:item_model"), ComponentKind::Identifier, Some(PersistentCodec::Identifier), Ghost(keys));
    proof { keys = keys.insert("minecraft:item_model"@); }
    register_fresh(registry, String::from_str("minecraft:lore"), ComponentKind::External, Some(PersistentCodec::External), Ghost(keys));
    proof { keys = keys.insert("minecraft:lore"@); }
    register_fresh(registry, String::from_str("minecraft:rarity"), ComponentKind::Rarity, Some(PersistentCodec::Rarity), Ghost(keys));
    proof { keys = keys.insert("minecraft:rarity"@); }
    register_fresh(registry, String::from_str("minecraft:enchantments"), ComponentKind::External, Some(PersistentCodec::External), Ghost(keys));
    proof { keys = keys.insert("minecraft:enchantments"@); }
    register_fresh(registry, String::from_str("minecraft:can_place_on"), ComponentKind::External, Some(PersistentCodec::External), Ghost(keys));
    proof { keys = keys.insert("minecraft:can_place_on"@); }
    register_fresh(registry, String::from_str("minecraft:can_break"), ComponentKind::External, Some(PersistentCodec::External), Ghost(keys));
    proof { keys = keys.insert("minecraft:can_break"@); }
    register_fresh(registry, String::from_str("minecraft:attribute_modifiers"), ComponentKind::External, Some(PersistentCodec::External), Ghost(keys));
    proof { keys = keys.insert("minecraft:attribute_modifiers"@); }
    register_fresh(registry, String::from_str("minecraft:custom_model_data"), ComponentKind::External, Some(PersistentCodec::External), Ghost(keys));
    proof { keys = keys.insert("minecraft:custom_model_data"@); }
    register_fresh(registry, String::from_str("minecraft:tooltip_display"), ComponentKind::TooltipDisplay, Some(PersistentCodec::TooltipDisplay), Ghost(keys));
    proof { keys = keys.insert("minecraft:tooltip_display"@); }
    register_fresh(registry, String::from_str("minecraft:repair_cost"), ComponentKind::VarInt, Some(PersistentCodec::RangedInt { min: 0, max: 2147483647 }), Ghost(keys));
    proof { keys = keys.insert("minecraft:repair_cost"@); }
    register_fresh(registry, String::from_str("minecraft:creative_slot_lock"), ComponentKind::Empty, None, Ghost(keys));
    proof { keys = keys.insert("minecraft:creative_slot_lock"@); }
    register_fresh(registry, String::from_str("minecraft:enchantment_glint_override"), ComponentKind::Bool, Some(PersistentCodec::Bool), Ghost(keys));
    proof { keys = keys.insert("minecraft:enchantment_glint_override"@); }
    register_fresh(registry, String::from_str("minecraft:intangible_projectile"), ComponentKind::External, Some(PersistentCodec::Unit), Ghost(keys));
    proof { keys = keys.insert("minecraft:intangible_projectile"@); }
    register_fresh(registry, String::from_str("minecraft:food"), ComponentKind::External, Some(PersistentCodec::External), Ghost(keys));
    proof { keys = keys.insert("minecraft:food"@); }
    register_fresh(registry, String::from_str("minecraft:consumable"), ComponentKind::External, Some(PersistentCodec::External), Ghost(keys));
    proof { keys = keys.insert("minecraft:consumable"@); }
    register_fresh(registry, String::from_str("minecraft:use_remainder"), ComponentKind::External, Some(PersistentCodec::External), Ghost(keys));
    proof { keys = keys.insert("minecraft:use_remainder"@); }
    register_fresh(registry, String::from_str("minecraft:use_cooldown"), ComponentKind::External, Some(PersistentCodec::External), Ghost(keys));
    proof { keys = keys.insert("minecraft:use_cooldown"@); }
    register_fresh(registry, String::from_str("minecraft:damage_resistant"), ComponentKind::External, Some(PersistentCodec::External), Ghost(keys));
    proof { keys = keys.insert("minecraft:damage_resistant"@); }
    register_fresh(registry, String::from_str("minecraft:tool"), ComponentKind::External, Some(PersistentCodec::External), Ghost(keys));
    proof { keys = keys.insert("minecraft:tool"@); }
    register_fresh(registry, String::from_str("minecraft:weapon"), ComponentKind::External, Some(PersistentCodec::External), Ghost(keys));
    proof { keys = keys.insert("minecraft:weapon"@); }
    register_fresh(registry, String::from_str("minecraft:attack_range"), ComponentKind::External, Some(PersistentCodec::External), Ghost(keys));
    proof { keys = keys.insert("minecraft:attack_range"@); }
    register_fresh(registry, String::from_str("minecraft:enchantable"), ComponentKind::Enchantable, Some(PersistentCodec::Enchantable), Ghost(keys));
    proof { keys = keys.insert("minecraft:enchantable"@); }
    register_fresh(registry, String::from_str("minecraft:equippable"), ComponentKind::External, Some(PersistentCodec::External), Ghost(keys));
    proof { keys = keys.insert("minecraft:equippable"@); }
    register_fresh(registry, String::from_str("minecraft:repairable"), ComponentKind::External, Some(PersistentCodec::External), Ghost(keys));
    proof { keys = keys.insert("minecraft:repairable"@); }
    register_fresh(registry, String::from_str("minecraft:glider"), ComponentKind::Empty, Some(PersistentCodec::Unit), Ghost(keys));
    proof { keys = keys.insert("minecraft:glider"@); }
    register_fresh(registry, String::from_str("minecraft:tooltip_style"), ComponentKind::Identifier, Some(PersistentCodec::Identifier), Ghost(keys));
    proof { keys = keys.insert("minecraft:tooltip_style"@); }
    register_fresh(registry, String::from_str("minecraft:death_protection"), ComponentKind::External, Some(PersistentCodec::External), Ghost(keys));
    proof { keys = keys.insert("minecraft:death_protection"@); }
    register_fresh(registry, String::from_str("minecraft:blocks_attacks"), ComponentKind::External, Some(PersistentCodec::External), Ghost(keys));
    proof { keys = keys.insert("minecraft:blocks_attacks"@); }
    assert(keys =~= vanilla_keys_before(38));
    assert(registry.spec_entries().map_values(|e: ComponentEntry| entry_view(e))
        =~= old(registry).spec_entries().map_values(|e: ComponentEntry| entry_view(e)) + vanilla_entries().subrange(0, 38));
}

/// Registers the vanilla component types with network ids 38 to 75.
#[verifier::rlimit(100)]
fn register_vanilla_38_to_75(registry: &mut DataComponentRegistry)
    requires
        old(registry).wf(),
        old(registry).spec_allows_registering(),
        forall|j: int| 0 <= j < old(registry).spec_entries().len() ==> vanilla_keys_before(38).contains(#[trigger] old(registry).spec_entries()[j].key@),
    ensures
        final(registry).wf(),
        final(registry).spec_allows_registering(),
        final(registry).spec_entries().map_values(|e: ComponentEntry| entry_view(e))
            == old(registry).spec_entries().map_values(|e: ComponentEntry| entry_view(e)) + vanilla_entries().subrange(38, 76),
        forall|j: int| 0 <= j < final(registry).spec_entries().len() ==> vanilla_keys_before(76).contains(#[trigger] final(registry).spec_entries()[j].key@),
{
    let ghost mut keys: Set<Seq<char>> = vanilla_keys_before(38);
    proof {
        lemma_vanilla_key_facts();
    }
    register_fresh(registry, String::from_str("minecraft:piercing_weapon"), ComponentKind::External, Some(PersistentCodec::External), Ghost(keys));
    proof { keys = keys.insert("minecraft:piercing_weapon"@); }
    register_fresh(registry, String::from_str("minecraft:kinetic_weapon"), ComponentKind::External, Some(PersistentCodec::External), Ghost(keys));
    proof { keys = keys.insert("minecraft:kinetic_weapon"@); }
    register_fresh(registry, String::from_str("minecraft:swing_animation"), ComponentKind::SwingAnimation, Some(PersistentCodec::SwingAnimation), Ghost(keys));
    proof { keys = keys.insert("minecraft:swing_animation"@); }
    register_fresh(registry, String::from_str("minecraft:additional_trade_cost"), ComponentKind::VarInt, None, Ghost(keys));
    proof { keys = keys.insert("minecraft:additional_trade_cost"@); }
    register_fresh(registry, String::from_str("minecraft:stored_enchantments"), ComponentKind::External, Some(PersistentCodec::External), Ghost(keys));
    proof { keys = keys.insert("minecraft:stored_enchantments"@); }
    register_fresh(registry, String::from_str("minecraft:dye"), ComponentKind::External, Some(PersistentCodec::External), Ghost(keys));
    proof { keys = keys.insert("minecraft:dye"@); }
    register_fresh(registry, String::from_str("minecraft:dyed_color"), ComponentKind::DyedColor, Some(PersistentCodec::DyedColor), Ghost(keys));
    proof { keys = keys.insert("minecraft:dyed_color"@); }
    register_fresh(registry, String::from_str("minecraft:map_color"), ComponentKind::MapColor, Some(PersistentCodec::MapColor), Ghost(keys));
    proof { keys = keys.insert("minecraft:map_color"@); }
    register_fresh(registry, String::from_str("minecraft:map_id"), ComponentKind::VarInt, Some(PersistentCodec::RangedInt { min: -2147483648, max: 2147483647 }), Ghost(keys));
    proof { keys = keys.insert("minecraft:map_id"@); }
    register_fresh(registry, String::from_str("minecraft:map_decorations"), ComponentKind::External, Some(PersistentCodec::External), Ghost(keys));
    proof { keys = keys.insert("minecraft:map_decorations"@); }
    register_fresh(registry, String::from_str("minecraft:map_post_processing"), ComponentKind::MapPostProcessing, None, Ghost(keys));
    proof { keys = keys.insert("minecraft:map_post_processing"@); }
    register_fresh(registry, String::from_str("minecraft:charged_projectiles"), ComponentKind::External, Some(PersistentCodec::External), Ghost(keys));
    proof { keys = keys.insert("minecraft:charged_projectiles"@); }
    register_fresh(registry, String::from_str("minecraft:bundle_contents"), ComponentKind::External, Some(PersistentCodec::External), Ghost(keys));
    proof { keys = keys.insert("minecraft:bundle_contents"@); }
    register_fresh(registry, String::from_str("minecraft:potion_contents"), ComponentKind::External, Some(PersistentCodec::External), Ghost(keys));
    proof { keys = keys.insert("minecraft:potion_contents"@); }
    register_fresh(registry, String::from_str("minecraft:potion_duration_scale"), ComponentKind::External, Some(PersistentCodec::External), Ghost(keys));
    proof { keys = keys.insert("minecraft:potion_duration_scale"@); }
    register_fresh(registry, String::from_str("minecraft:suspicious_stew_effects"), ComponentKind::External, Some(PersistentCodec::External), Ghost(keys));
    proof { keys = keys.insert("minecraft:suspicious_stew_effects"@); }
    register_fresh(registry, String::from_str("minecraft:writable_book_content"), ComponentKind::WritableBook, Some(PersistentCodec::WritableBook), Ghost(keys));
    proof { keys = keys.insert("minecraft:writable_book_content"@); }
    register_fresh(registry, String::from_str("minecraft:written_book_content"), ComponentKind::External, Some(PersistentCodec::External), Ghost(keys));
    proof { keys = keys.insert("minecraft:written_book_content"@); }
    register_fresh(registry, String::from_str("minecraft:trim"), ComponentKind::External, Some(PersistentCodec::External), Ghost(keys));
    proof { keys = keys.insert("minecraft:trim"@); }
    register_fresh(registry, String::from_str("minecraft:debug_stick_state"), ComponentKind::External, Some(PersistentCodec::External), Ghost(keys));
    proof { keys = keys.insert("minecraft:debug_stick_state"@); }
    register_fresh(registry, String::from_str("minecraft:entity_data"), ComponentKind::External, Some(PersistentCodec::External), Ghost(keys));
    proof { keys = keys.insert("minecraft:entity_data"@); }
    register_fresh(registry, String::from_str("minecraft:bucket_entity_data"), ComponentKind::External, Some(PersistentCodec::External), Ghost(keys));
    proof { keys = keys.insert("minecraft:bucket_entity_data"@); }
    register_fresh(registry, String::from_str("minecraft:block_entity_data"), ComponentKind::External, Some(PersistentCodec::External), Ghost(keys));
    proof { keys = keys.insert("minecraft:block_entity_data"@); }
    register_fresh(registry, String::from_str("minecraft:instrument"), ComponentKind::External, Some(PersistentCodec::External), Ghost(keys));
    proof { keys = keys.insert("minecraft:instrument"@); }
    register_fresh(registry, String::from_str("minecraft:provides_trim_material"), ComponentKind::External, Some(PersistentCodec::External), Ghost(keys));
    proof { keys = keys.insert("minecraft:provides_trim_material"@); }
    register_fresh(registry, String::from_str("minecraft:ominous_bottle_amplifier"), ComponentKind::OminousBottleAmplifier, Some(PersistentCodec::OminousBottleAmplifier), Ghost(keys));
    proof { keys = keys.insert("minecraft:ominous_bottle_amplifier"@); }
    register_fresh(registry, String::from_str("minecraft:jukebox_playable"), ComponentKind::External, Some(PersistentCodec::External), Ghost(keys));
    proof { keys = keys.insert("minecraft:jukebox_playable"@); }
    register_fresh(registry, String::from_str("minecraft:provides_banner_patterns"), ComponentKind::External, Some(PersistentCodec::External), Ghost(keys));
    proof { keys = keys.insert("minecraft:provides_banner_patterns"@); }
    register_fresh(registry, String::from_str("minecraft:recipes"), ComponentKind::External, Some(PersistentCodec::External), Ghost(keys));
    proof { keys = keys.insert("minecraft:recipes"@); }
    register_fresh(registry, String::from_str("minecraft:lodestone_tracker"), ComponentKind::External, Some(PersistentCodec::External), Ghost(keys));
    proof { keys = keys.insert("minecraft:lodestone_tracker"@); }
    register_fresh(registry, String::from_str("minecraft:firework_explosion"), ComponentKind::FireworkExplosion, Some(PersistentCodec::FireworkExplosion), Ghost(keys));
    proof { keys = keys.insert("minecraft:firework_explosion"@); }
    register_fresh(registry, String::from_str("minecraft:fireworks"), ComponentKind::Fireworks, Some(PersistentCodec::Fireworks), Ghost(keys));
    proof { keys = keys.insert("minecraft:fireworks"@); }
    register_fresh(registry, String::from_str("minecraft:profile"), ComponentKind::External, Some(PersistentCodec::External), Ghost(keys));
    proof { keys = keys.insert("minecraft:profile"@); }
    register_fresh(registry, String::from_str("minecraft:note_block_sound"), ComponentKind::Identifier, Some(PersistentCodec::Identifier), Ghost(keys));
    proof { keys = keys.insert("minecraft:note_block_sound"@); }
    register_fresh(registry, String::from_str("minecraft:banner_patterns"), ComponentKind::External, Some(PersistentCodec::External), Ghost(keys));
    proof { keys = keys.insert("minecraft:banner_patterns"@); }
    register_fresh(registry, String::from_str("minecraft:base_color"), ComponentKind::External, Some(PersistentCodec::External), Ghost(keys));
    proof { keys = keys.insert("minecraft:base_color"@); }
    register_fresh(registry, String::from_str("minecraft:pot_decorations"), ComponentKind::External, Some(PersistentCodec::External), Ghost(keys));
    proof { keys = keys.insert("minecraft:pot_decorations"@); }
    register_fresh(registry, String::from_str("minecraft:container"), ComponentKind::External, Some(PersistentCodec::External), Ghost(keys));
    proof { keys = keys.insert("minecraft:container"@); }
    assert(keys =~= vanilla_keys_before(76));
    assert(registry.spec_entries().map_values(|e: ComponentEntry| entry_view(e))
        =~= old(registry).spec_entries().map_values(|e: ComponentEntry| entry_view(e)) + vanilla_entries().subrange(38, 76));
}

/// Registers the vanilla component types with network ids 76 to 110.
#[verifier::rlimit(100)]
fn register_vanilla_76_to_110(registry: &mut DataComponentRegistry)
    requires
        old(registry).wf(),
        old(registry).spec_allows_registering(),
        forall|j: int| 0 <= j < old(registry).spec_entries().len() ==> vanilla_keys_before(76).contains(#[trigger] old(registry).spec_entries()[j].key@),
    ensures
        final(registry).wf(),
        final(registry).spec_allows_registering(),
        final(registry).spec_entries().map_values(|e: ComponentEntry| entry_view(e))
            == old(registry).spec_entries().map_values(|e: ComponentEntry| entry_view(e)) + vanilla_entries().subrange(76, 111),
{
    let ghost mut keys: Set<Seq<char>> = vanilla_keys_before(76);
    proof {
        lemma_vanilla_key_facts();
    }
    register_fresh(registry, String::from_str("minecraft:block_state"), ComponentKind::BlockState, Some(PersistentCodec::BlockState), Ghost(keys));
    proof { keys = keys.insert("minecraft:block_state"@); }
    register_fresh(registry, String::from_str("minecraft:bees"), ComponentKind::External, Some(PersistentCodec::External), Ghost(keys));
    proof { keys = keys.insert("minecraft:bees"@); }
    register_fresh(registry, String::from_str("minecraft:sulfur_cube_content"), ComponentKind::External, Some(PersistentCodec::External), Ghost(keys));
    proof { keys = keys.insert("minecraft:sulfur_cube_content"@); }
    register_fresh(registry, String::from_str("minecraft:lock"), ComponentKind::External, Some(PersistentCodec::External), Ghost(keys));
    proof { keys = keys.insert("minecraft:lock"@); }
    register_fresh(registry, String::from_str("minecraft:container_loot"), ComponentKind::External, Some(PersistentCodec::External), Ghost(keys));
    proof { keys = keys.insert("minecraft:container_loot"@); }
    register_fresh(registry, String::from_str("minecraft:break_sound"), ComponentKind::External, Some(PersistentCodec::External), Ghost(keys));
    proof { keys = keys.insert("minecraft:break_sound"@); }
    register_fresh(registry, String::from_str("minecraft:villager/variant"), ComponentKind::External, Some(PersistentCodec::External), Ghost(keys));
    proof { keys = keys.insert("minecraft:villager/variant"@); }
    register_fresh(registry, String::from_str("minecraft:wolf/variant"), ComponentKind::External, Some(PersistentCodec::External), Ghost(keys));
    proof { keys = keys.insert("minecraft:wolf/variant"@); }
    register_fresh(registry, String::from_str("minecraft:wolf/sound_variant"), ComponentKind::External, Some(PersistentCodec::External), Ghost(keys));
    proof { keys = keys.insert("minecraft:wolf/sound_variant"@); }
    register_fresh(registry, String::from_str("minecraft:wolf/collar"), ComponentKind::External, Some(PersistentCodec::External), Ghost(keys));
    proof { keys = keys.insert("minecraft:wolf/collar"@); }
    register_fresh(registry, String::from_str("minecraft:fox/variant"), ComponentKind::External, Some(PersistentCodec::External), Ghost(keys));
    proof { keys = keys.insert("minecraft:fox/variant"@); }
    register_fresh(registry, String::from_str("minecraft:salmon/size"), ComponentKind::External, Some(PersistentCodec::External), Ghost(keys));
    proof { keys = keys.insert("minecraft:salmon/size"@); }
    register_fresh(registry, String::from_str("minecraft:parrot/variant"), ComponentKind::External, Some(PersistentCodec::External), Ghost(keys));
    proof { keys = keys.insert("minecraft:parrot/variant"@); }
    register_fresh(registry, String::from_str("minecraft:tropical_fish/pattern"), ComponentKind::External, Some(PersistentCodec::External), Ghost(keys));
    proof { keys = keys.insert("minecraft:tropical_fish/pattern"@); }
    register_fresh(registry, String::from_str("minecraft:tropical_fish/base_color"), ComponentKind::External, Some(PersistentCodec::External), Ghost(keys));
    proof { keys = keys.insert("minecraft:tropical_fish/base_color"@); }
    register_fresh(registry, String::from_str("minecraft:tropical_fish/pattern_color"), ComponentKind::External, Some(PersistentCodec::External), Ghost(keys));
    proof { keys = keys.insert("minecraft:tropical_fish/pattern_color"@); }
    register_fresh(registry, String::from_str("minecraft:mooshroom/variant"), ComponentKind::External, Some(PersistentCodec::External), Ghost(keys));
    proof { keys = keys.insert("minecraft:mooshroom/variant"@); }
    register_fresh(registry, String::from_str("minecraft:rabbit/variant"), ComponentKind::External, Some(PersistentCodec::External), Ghost(keys));
    proof { keys = keys.insert("minecraft:rabbit/variant"@); }
    register_fresh(registry, String::from_str("minecraft:pig/variant"), ComponentKind::External, Some(PersistentCodec::External), Ghost(keys));
    proof { keys = keys.insert("minecraft:pig/variant"@); }
    register_fresh(registry, String::from_str("minecraft:pig/sound_variant"), ComponentKind::External, Some(PersistentCodec::External), Ghost(keys));
    proof { keys = keys.insert("minecraft:pig/sound_variant"@); }
    register_fresh(registry, String::from_str("minecraft:cow/variant"), ComponentKind::External, Some(PersistentCodec::External), Ghost(keys));
    proof { keys = keys.insert("minecraft:cow/variant"@); }
    register_fresh(registry, String::from_str("minecraft:cow/sound_variant"), ComponentKind::External, Some(PersistentCodec::External), Ghost(keys));
    proof { keys = keys.insert("minecraft:cow/sound_variant"@); }
    register_fresh(registry, String::from_str("minecraft:chicken/variant"), ComponentKind::External, Some(PersistentCodec::External), Ghost(keys));
    proof { keys = keys.insert("minecraft:chicken/variant"@); }
    register_fresh(registry, String::from_str("minecraft:chicken/sound_variant"), ComponentKind::External, Some(PersistentCodec::External), Ghost(keys));
    proof { keys = keys.insert("minecraft:chicken/sound_variant"@); }
    register_fresh(registry, String::from_str("minecraft:zombie_nautilus/variant"), ComponentKind::External, Some(PersistentCodec::External), Ghost(keys));
    proof { keys = keys.insert("minecraft:zombie_nautilus/variant"@); }
    register_fresh(registry, String::from_str("minecraft:frog/variant"), ComponentKind::External, Some(PersistentCodec::External), Ghost(keys));
    proof { keys = keys.insert("minecraft:frog/variant"@); }
    register_fresh(registry, String::from_str("minecraft:horse/variant"), ComponentKind::External, Some(PersistentCodec::External), Ghost(keys));
    proof { keys = keys.insert("minecraft:horse/variant"@); }
    register_fresh(registry, String::from_str("minecraft:painting/variant"), ComponentKind::External, Some(PersistentCodec::External), Ghost(keys));
    proof { keys = keys.insert("minecraft:painting/variant"@); }
    register_fresh(registry, String::from_str("minecraft:llama/variant"), ComponentKind::External, Some(PersistentCodec::External), Ghost(keys));
    proof { keys = keys.insert("minecraft:llama/variant"@); }
    register_fresh(registry, String::from_str("minecraft:axolotl/variant"), ComponentKind::External, Some(PersistentCodec::External), Ghost(keys));
    proof { keys = keys.insert("minecraft:axolotl/variant"@); }
    register_fresh(registry, String::from_str("minecraft:cat/variant"), ComponentKind::External, Some(PersistentCodec::External), Ghost(keys));
    proof { keys = keys.insert("minecraft:cat/variant"@); }
    register_fresh(registry, String::from_str("minecraft:cat/sound_variant"), ComponentKind::External, Some(PersistentCodec::External), Ghost(keys));
    proof { keys = keys.insert("minecraft:cat/sound_variant"@); }
    register_fresh(registry, String::from_str("minecraft:cat/collar"), ComponentKind::External, Some(PersistentCodec::External), Ghost(keys));
    proof { keys = keys.insert("minecraft:cat/collar"@); }
    register_fresh(registry, String::from_str("minecraft:sheep/color"), ComponentKind::External, Some(PersistentCodec::External), Ghost(keys));
    proof { keys = keys.insert("minecraft:sheep/color"@); }
    register_fresh(registry, String::from_str("minecraft:shulker/color"), ComponentKind::External, Some(PersistentCodec::External), Ghost(keys));
    proof { keys = keys.insert("minecraft:shulker/color"@); }
    assert(registry.spec_entries().map_values(|e: ComponentEntry| entry_view(e))
        =~= old(registry).spec_entries().map_values(|e: ComponentEntry| entry_view(e)) + vanilla_entries().subrange(76, 111));
}

/// The registry of the vanilla component types, open for further
/// registration: each type's network id is its position in
/// `vanilla_entries`.
pub fn vanilla_registry() -> (res: DataComponentRegistry)
    ensures
        res.wf(),
        res.spec_allows_registering(),
        res.spec_entries().map_values(|e: ComponentEntry| entry_view(e)) == vanilla_entries(),
{
    let mut registry = DataComponentRegistry::new();
    assert(registry.spec_entries().map_values(|e: ComponentEntry| entry_view(e)) =~= Seq::empty());
    register_vanilla_0_to_37(&mut registry);
    register_vanilla_38_to_75(&mut registry);
    register_vanilla_76_to_110(&mut registry);
    assert(Seq::empty() + vanilla_entries().subrange(0, 38) + vanilla_entries().subrange(38, 76) + vanilla_entries().subrange(76, 111) =~= vanilla_entries());
    registry
}


} // verus!
