//! The parts of a crafting recipe that hold no fractional quantities.

use vstd::prelude::*;

verus! {

/// A number of one kind of item.
#[derive(Debug, Clone)]
pub struct ItemStackDef {
    pub item: String,
    pub count: u32,
}

/// What a crafter must satisfy before a recipe can be used.
#[derive(Debug, Clone)]
pub struct RecipeRequirements {
    pub needs_equipped_item_tag: Option<String>,
}

} // verus!
