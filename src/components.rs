use vstd::prelude::*;

verus! {

/// An entity is an index into the world's component storages.
pub type Entity = usize;

/// A tile coordinate.
#[derive(Clone, Copy, Debug, PartialEq, Eq, Structural)]
pub struct Position {
    pub x: i32,
    pub y: i32,
}

/// The colours that renderables are drawn in.
#[derive(Clone, Copy, Debug, PartialEq, Eq, Structural)]
pub enum Color {
    Black,
    Cyan,
    Red,
    GhostWhite,
    GreenYellow,
    Yellow,
    Yellow2,
    White,
}

/// How an entity is drawn; a lower `render_order` draws on top.
#[derive(Clone, Copy, Debug, PartialEq, Eq, Structural)]
pub struct Renderable {
    pub glyph: char,
    pub fg: Color,
    pub bg: Color,
    pub render_order: i32,
}

/// The tiles an entity currently sees, recomputed when `dirty`.
pub struct Viewshed {
    pub visible_tiles: Vec<Position>,
    pub range: i32,
    pub dirty: bool,
}

#[derive(Clone, Copy, Debug, PartialEq, Eq, Structural)]
pub struct CombatStats {
    pub max_hp: i32,
    pub hp: i32,
    pub defense: i32,
    pub power: i32,
}

#[derive(Clone, Copy, Debug, PartialEq, Eq, Structural)]
pub enum EquipmentSlot {
    Melee,
    Shield,
}

/// The optional effects an item carries; any subset may be present.
#[derive(Clone, Copy, Debug, PartialEq, Eq, Structural)]
pub struct ItemFacets {
    pub consumable: bool,
    pub healing: Option<i32>,
    pub damage: Option<i32>,
    pub aoe_radius: Option<i32>,
    pub range: Option<i32>,
    pub disable_turns: Option<i32>,
    pub slot: Option<EquipmentSlot>,
    pub atk_bonus: Option<i32>,
    pub def_bonus: Option<i32>,
}

/// An item worn by `owner` in `slot`.
#[derive(Clone, Copy, Debug, PartialEq, Eq, Structural)]
pub struct Equipped {
    pub owner: Entity,
    pub slot: EquipmentSlot,
}

#[derive(Clone, Copy, Debug, PartialEq, Eq, Structural)]
pub struct WantsToPickupItem {
    pub collected_by: Entity,
    pub item: Entity,
}

/// A request to use `item`, on `target` when given. `blast` holds the tiles
/// that the item's area of effect reaches from the target point, as field
/// of view computes them; it is read only for items with an area of effect.
pub struct WantsToUseItem {
    pub item: Entity,
    pub target: Option<Position>,
    pub blast: Vec<Position>,
}

} // verus!
