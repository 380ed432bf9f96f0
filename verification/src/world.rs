//! Identifiers of things in the game world, as the map server hands them out.

use vstd::prelude::*;

verus! {

/// An entity on the map: a player, a monster, an NPC or an item on the ground.
#[derive(Clone, Copy, Debug, PartialEq, Eq, Structural, Hash)]
pub struct EntityId(pub u32);

/// A skill, as numbered by the server.
#[derive(Clone, Copy, Debug, PartialEq, Eq, Structural, Hash)]
pub struct SkillId(pub u16);

/// The level a skill is learned or cast at.
#[derive(Clone, Copy, Debug, PartialEq, Eq, Structural, Hash)]
pub struct SkillLevel(pub u16);

/// A slot of the hotbar.
#[derive(Clone, Copy, Debug, PartialEq, Eq, Structural, Hash)]
pub struct HotbarSlot(pub u16);

/// A tile of the map grid.
#[derive(Clone, Copy, Debug, PartialEq, Eq, Structural, Hash)]
pub struct TilePosition {
    pub x: u16,
    pub y: u16,
}

/// How a skill is aimed.
#[derive(Clone, Copy, Debug, PartialEq, Eq, Structural, Hash)]
pub enum SkillType {
    Passive,
    Attack,
    Ground,
    SelfCast,
    Support,
    Trap,
}

/// The slot of an item in the inventory, as the server numbers it.
#[derive(Clone, Copy, Debug, PartialEq, Eq, Structural, Hash)]
pub struct InventoryIndex(pub u16);

/// A kind of item.
#[derive(Clone, Copy, Debug, PartialEq, Eq, Structural, Hash)]
pub struct ItemId(pub u32);

/// The equipment slots an item is worn in, as a bit set.
#[derive(Clone, Copy, Debug, PartialEq, Eq, Structural, Hash)]
pub struct EquipPosition(pub u32);

} // verus!
