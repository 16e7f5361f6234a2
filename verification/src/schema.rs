//! Data definitions that content mods provide.

pub mod items;
pub mod loot;
pub mod recipes;
