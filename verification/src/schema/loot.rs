//! Loot tables.

use vstd::prelude::*;

verus! {

/// One weighted entry of a loot table: an item and how many of it may drop.
#[derive(Debug, Clone)]
pub struct LootEntryDef {
    pub weight: u32,
    pub item: String,
    pub min: u32,
    pub max: u32,
}

/// A loot table: how often it is rolled, and what it can yield.
#[derive(Debug, Clone)]
pub struct LootTableDef {
    pub id: String,
    pub rolls: u32,
    pub entries: Vec<LootEntryDef>,
}

} // verus!
