//! The component values carried by item stacks.

pub mod rarity;
pub mod map_post_processing;
pub mod use_animation;
pub mod swing_animation;
pub mod values;
pub mod item_colors;
pub mod ominous_bottle_amplifier;
pub mod enchantable;
pub mod armor_trim;
pub mod banner_patterns;
pub mod instrument;
pub mod jukebox_playable;
pub mod painting_variant;
pub mod provides_trim_material;
pub mod registry_holder_sets;
pub mod death_protection;
pub mod damage_type;
pub mod suspicious_stew;
pub mod fireworks;
pub mod pot_decorations;
pub mod recursive_items;
pub mod books;
pub mod enchantments;
pub mod tooltip_display;
pub mod block_state;
pub mod debug_stick_state;
pub mod item_lore;
pub mod piercing_weapon;
pub mod potion_contents;
pub mod recipes;
pub mod lodestone_tracker;
pub mod container_loot;
