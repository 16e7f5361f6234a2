//! Item components and the slots they refer to.

use vstd::prelude::*;

verus! {

/// Where on a character an item can be worn or held.
#[derive(Debug, Clone)]
pub enum EquipSlot {
    Head,
    Body,
    Feet,
    Tail,
    Teeth,
    WeaponMain,
    WeaponOff,
    Trinket1,
    Trinket2,
}

/// Where on a host item a gadget can be mounted.
#[derive(Debug, Clone)]
pub enum GadgetSlot {
    Edge,
    Handle,
    Plating,
    Lining,
}

/// An item that stacks, up to `max` per stack.
#[derive(Debug, Clone)]
pub struct StackableDef {
    pub max: u32,
}

/// A statistic that a modifier can scale.
#[derive(Debug, Clone)]
pub enum StatId {
    Damage,
    Cooldown,
    Defense,
    Durability,
}

/// An item that offers `count` mounting points of one kind.
#[derive(Debug, Clone)]
pub struct GadgetHostDef {
    pub slot: GadgetSlot,
    pub count: u8,
}

/// An item that can be equipped in one slot.
#[derive(Debug, Clone)]
pub struct EquipableDef {
    pub slot: EquipSlot,
}

/// The two ways a gadget's slots may be written down: a single slot, or a
/// list of them.
#[derive(Debug, Clone)]
pub enum SlotList {
    One(GadgetSlot),
    Many(Vec<GadgetSlot>),
}

impl SlotList {
    /// The slots as a sequence: a single slot stands for the list that holds
    /// just that slot.
    pub open spec fn slots(self) -> Seq<GadgetSlot> {
        match self {
            SlotList::One(slot) => seq![slot],
            SlotList::Many(slots) => slots@,
        }
    }
}

/// Turns either written form of a gadget's slots into the list of slots.
pub fn deserialize_gadget_slots(list: SlotList) -> (slots: Vec<GadgetSlot>)
    ensures
        slots@ == list.slots(),
{
    match list {
        SlotList::One(slot) => {
            let mut slots = Vec::new();
            slots.push(slot);
            slots
        },
        SlotList::Many(slots) => slots,
    }
}

} // verus!
