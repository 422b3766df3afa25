//! Data component values of Minecraft item stacks and their wire formats.
//!
//! Every codec in this crate is a function on bytes (the network stream) or
//! on an NBT value tree (persistent storage), with a contract that states the
//! encoding exactly and laws that relate the writers to the readers.

pub mod wire;
pub mod holder;
pub mod identifier;
pub mod dye_color;
pub mod nbt;
pub mod components;
pub mod component_data;
pub mod patch;
pub mod patch_nbt;
pub mod patch_delimited;
pub mod component_map;
pub mod keyed;
pub mod sorted;
pub mod fraction;
pub mod text;
pub mod vanilla;
