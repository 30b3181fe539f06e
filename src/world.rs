use vstd::prelude::*;
use crate::components::{
    CombatStats, Entity, Equipped, ItemFacets, Position, Renderable, Viewshed, WantsToPickupItem,
    WantsToUseItem,
};
use crate::map::{GameMap, in_bounds, MAPCOUNT};

verus! {

/// One entry of the message log.
#[derive(Debug)]
pub enum LogEntry {
    Welcome,
    NotPossible,
    NothingToPickup,
    Recharging,
    NextLevel,
    PickUp { item: String },
    Drop { item: String },
    Unequip { item: String },
    Equip { item: String },
    Heal { item: String, amount: i32 },
    UseOn { item: String, target: String, damage: i32 },
    DisableOn { item: String, target: String },
    Hit { attacker: String, target: String, damage: i32 },
    NoHarm { attacker: String, target: String },
}

/// A log entry as the contracts see it: names as character sequences.
pub enum LogView {
    Welcome,
    NotPossible,
    NothingToPickup,
    Recharging,
    NextLevel,
    PickUp { item: Seq<char> },
    Drop { item: Seq<char> },
    Unequip { item: Seq<char> },
    Equip { item: Seq<char> },
    Heal { item: Seq<char>, amount: i32 },
    UseOn { item: Seq<char>, target: Seq<char>, damage: i32 },
    DisableOn { item: Seq<char>, target: Seq<char> },
    Hit { attacker: Seq<char>, target: Seq<char>, damage: i32 },
    NoHarm { attacker: Seq<char>, target: Seq<char> },
}

impl View for LogEntry {
    type V = LogView;

    open spec fn view(&self) -> LogView {
        match self {
            LogEntry::Welcome => LogView::Welcome,
            LogEntry::NotPossible => LogView::NotPossible,
            LogEntry::NothingToPickup => LogView::NothingToPickup,
            LogEntry::Recharging => LogView::Recharging,
            LogEntry::NextLevel => LogView::NextLevel,
            LogEntry::PickUp { item } => LogView::PickUp { item: item@ },
            LogEntry::Drop { item } => LogView::Drop { item: item@ },
            LogEntry::Unequip { item } => LogView::Unequip { item: item@ },
            LogEntry::Equip { item } => LogView::Equip { item: item@ },
            LogEntry::Heal { item, amount } => LogView::Heal { item: item@, amount: *amount },
            LogEntry::UseOn { item, target, damage } => LogView::UseOn {
                item: item@,
                target: target@,
                damage: *damage,
            },
            LogEntry::DisableOn { item, target } => LogView::DisableOn { item: item@, target: target@ },
            LogEntry::Hit { attacker, target, damage } => LogView::Hit {
                attacker: attacker@,
                target: target@,
                damage: *damage,
            },
            LogEntry::NoHarm { attacker, target } => LogView::NoHarm {
                attacker: attacker@,
                target: target@,
            },
        }
    }
}

/// The message log as the contracts see it.
pub open spec fn log_view(w: World) -> Seq<LogView> {
    w.log@.map_values(|e: LogEntry| e@)
}

/// Appending an entry appends its view.
pub proof fn lemma_log_push(a: World, b: World, e: LogEntry)
    requires
        b.log@ == a.log@.push(e),
    ensures
        log_view(b) == log_view(a).push(e@),
{
    assert(log_view(b) =~= log_view(a).push(e@));
}

/// Every entity's components, one storage per kind indexed by entity, with
/// the current level, the player and the message log.
///
/// The storages are the library's own rather than an ECS crate's: such a
/// crate reaches its storages through generic traits (component, system and
/// join traits) that the component types would have to implement and that
/// verified code cannot call through.
pub struct World {
    pub alive: Vec<bool>,
    pub names: Vec<Option<String>>,
    pub positions: Vec<Option<Position>>,
    pub renderables: Vec<Option<Renderable>>,
    pub viewsheds: Vec<Option<Viewshed>>,
    pub monsters: Vec<bool>,
    pub blocks_tile: Vec<bool>,
    pub stats: Vec<Option<CombatStats>>,
    pub suffer_damage: Vec<Vec<i32>>,
    pub items: Vec<Option<ItemFacets>>,
    pub in_backpack: Vec<Option<Entity>>,
    pub equipped: Vec<Option<Equipped>>,
    pub disabled: Vec<Option<i32>>,
    pub wants_melee: Vec<Option<Entity>>,
    pub wants_pickup: Vec<Option<WantsToPickupItem>>,
    pub wants_drop: Vec<Option<Entity>>,
    pub wants_use: Vec<Option<WantsToUseItem>>,
    pub wants_remove: Vec<Option<Entity>>,
    pub map: GameMap,
    pub player: Entity,
    pub player_pos: Position,
    pub log: Vec<LogEntry>,
}

/// Whether `a` and `b` agree on everything but the message log.
pub open spec fn same_but_log(a: World, b: World) -> bool {
    &&& a.alive == b.alive
    &&& a.names == b.names
    &&& a.positions == b.positions
    &&& a.renderables == b.renderables
    &&& a.viewsheds == b.viewsheds
    &&& a.monsters == b.monsters
    &&& a.blocks_tile == b.blocks_tile
    &&& a.stats == b.stats
    &&& a.suffer_damage == b.suffer_damage
    &&& a.items == b.items
    &&& a.in_backpack == b.in_backpack
    &&& a.equipped == b.equipped
    &&& a.disabled == b.disabled
    &&& a.wants_melee == b.wants_melee
    &&& a.wants_pickup == b.wants_pickup
    &&& a.wants_drop == b.wants_drop
    &&& a.wants_use == b.wants_use
    &&& a.wants_remove == b.wants_remove
    &&& a.map == b.map
    &&& a.player == b.player
    &&& a.player_pos == b.player_pos
}

/// Whether a position lies on the grid.
pub open spec fn pos_in_bounds(p: Position) -> bool {
    in_bounds(p.x as int, p.y as int)
}

impl World {
    /// The number of entities ever created.
    pub open spec fn n(&self) -> nat {
        self.alive@.len()
    }

    pub open spec fn lens_ok(&self) -> bool {
        let n = self.alive@.len();
        &&& self.names@.len() == n
        &&& self.positions@.len() == n
        &&& self.renderables@.len() == n
        &&& self.viewsheds@.len() == n
        &&& self.monsters@.len() == n
        &&& self.blocks_tile@.len() == n
        &&& self.stats@.len() == n
        &&& self.suffer_damage@.len() == n
        &&& self.items@.len() == n
        &&& self.in_backpack@.len() == n
        &&& self.equipped@.len() == n
        &&& self.disabled@.len() == n
        &&& self.wants_melee@.len() == n
        &&& self.wants_pickup@.len() == n
        &&& self.wants_drop@.len() == n
        &&& self.wants_use@.len() == n
        &&& self.wants_remove@.len() == n
    }

    /// Every entity that a component or the occupancy cache names exists.
    pub open spec fn refs_ok(&self) -> bool {
        let n = self.alive@.len();
        &&& forall|e: int|
            0 <= e < n && (#[trigger] self.in_backpack@[e]).is_some() ==> self.in_backpack@[e].unwrap()
                < n
        &&& forall|e: int|
            0 <= e < n && (#[trigger] self.equipped@[e]).is_some() ==> self.equipped@[e].unwrap().owner
                < n
        &&& forall|e: int|
            0 <= e < n && (#[trigger] self.wants_melee@[e]).is_some() ==> self.wants_melee@[e].unwrap()
                < n
        &&& forall|e: int|
            0 <= e < n && (#[trigger] self.wants_pickup@[e]).is_some()
                ==> self.wants_pickup@[e].unwrap().item < n
                && self.wants_pickup@[e].unwrap().collected_by < n
        &&& forall|e: int|
            0 <= e < n && (#[trigger] self.wants_drop@[e]).is_some() ==> self.wants_drop@[e].unwrap()
                < n
        &&& forall|e: int|
            0 <= e < n && (#[trigger] self.wants_use@[e]).is_some() ==> self.wants_use@[e].unwrap().item
                < n
        &&& forall|e: int|
            0 <= e < n && (#[trigger] self.wants_remove@[e]).is_some()
                ==> self.wants_remove@[e].unwrap() < n
        &&& forall|i: int, k: int|
            0 <= i < MAPCOUNT && 0 <= k < self.map.tile_content@[i]@.len()
                ==> #[trigger] self.map.tile_content@[i]@[k] < n
    }

    /// Every position lies on the grid.
    pub open spec fn positions_ok(&self) -> bool {
        &&& forall|e: int|
            0 <= e < self.positions@.len() && (#[trigger] self.positions@[e]).is_some()
                ==> pos_in_bounds(self.positions@[e].unwrap())
        &&& pos_in_bounds(self.player_pos)
    }

    /// Well-formed but for naming an existing player.
    pub open spec fn wf_but_player(&self) -> bool {
        &&& self.lens_ok()
        &&& self.map.wf()
        &&& self.refs_ok()
        &&& self.positions_ok()
    }

    pub open spec fn wf(&self) -> bool {
        &&& self.wf_but_player()
        &&& self.player < self.n()
    }

    /// Whether no owner wears two items in one slot.
    pub open spec fn equip_exclusive(&self) -> bool {
        forall|i: int, j: int|
            #![trigger self.equipped@[i], self.equipped@[j]]
            0 <= i < self.equipped@.len() && 0 <= j < self.equipped@.len() && i != j
                && self.equipped@[i].is_some() && self.equipped@[j].is_some()
                ==> self.equipped@[i].unwrap() != self.equipped@[j].unwrap()
    }

    pub open spec fn melee_drained(&self) -> bool {
        forall|e: int| 0 <= e < self.wants_melee@.len() ==> (#[trigger] self.wants_melee@[e]).is_none()
    }

    pub open spec fn pickup_drained(&self) -> bool {
        forall|e: int| 0 <= e < self.wants_pickup@.len() ==> (#[trigger] self.wants_pickup@[e]).is_none()
    }

    pub open spec fn drop_drained(&self) -> bool {
        forall|e: int| 0 <= e < self.wants_drop@.len() ==> (#[trigger] self.wants_drop@[e]).is_none()
    }

    pub open spec fn use_drained(&self) -> bool {
        forall|e: int| 0 <= e < self.wants_use@.len() ==> (#[trigger] self.wants_use@[e]).is_none()
    }

    pub open spec fn remove_drained(&self) -> bool {
        forall|e: int| 0 <= e < self.wants_remove@.len() ==> (#[trigger] self.wants_remove@[e]).is_none()
    }

    /// Whether every one-shot intent storage is empty.
    pub open spec fn intents_drained(&self) -> bool {
        &&& self.melee_drained()
        &&& self.pickup_drained()
        &&& self.drop_drained()
        &&& self.use_drained()
        &&& self.remove_drained()
    }

    /// An empty world on the given level, whose player is yet to be created.
    pub fn new(map: GameMap) -> (w: World)
        requires
            map.wf(),
            forall|i: int, k: int|
                0 <= i < MAPCOUNT && 0 <= k < map.tile_content@[i]@.len() ==> #[trigger] map.tile_content@[i]@[k]
                    < 0,
        ensures
            w.wf_but_player(),
            w.n() == 0,
            w.map == map,
            w.log@.len() == 0,
    {
        World {
            alive: Vec::new(),
            names: Vec::new(),
            positions: Vec::new(),
            renderables: Vec::new(),
            viewsheds: Vec::new(),
            monsters: Vec::new(),
            blocks_tile: Vec::new(),
            stats: Vec::new(),
            suffer_damage: Vec::new(),
            items: Vec::new(),
            in_backpack: Vec::new(),
            equipped: Vec::new(),
            disabled: Vec::new(),
            wants_melee: Vec::new(),
            wants_pickup: Vec::new(),
            wants_drop: Vec::new(),
            wants_use: Vec::new(),
            wants_remove: Vec::new(),
            map,
            player: 0,
            player_pos: Position { x: 0, y: 0 },
            log: Vec::new(),
        }
    }

    /// Adds an entity with no components and returns it.
    pub fn create_entity(&mut self) -> (e: Entity)
        requires
            old(self).lens_ok(),
            old(self).refs_ok(),
            old(self).positions_ok(),
            old(self).n() < usize::MAX,
        ensures
            e == old(self).n(),
            final(self).lens_ok(),
            final(self).refs_ok(),
            final(self).positions_ok(),
            final(self).alive@ == old(self).alive@.push(true),
            final(self).names@ == old(self).names@.push(None),
            final(self).positions@ == old(self).positions@.push(None),
            final(self).renderables@ == old(self).renderables@.push(None),
            final(self).viewsheds@ == old(self).viewsheds@.push(None),
            final(self).monsters@ == old(self).monsters@.push(false),
            final(self).blocks_tile@ == old(self).blocks_tile@.push(false),
            final(self).stats@ == old(self).stats@.push(None),
            final(self).suffer_damage@.len() == old(self).n() + 1,
            final(self).suffer_damage@.drop_last() == old(self).suffer_damage@,
            final(self).suffer_damage@.last()@.len() == 0,
            final(self).items@ == old(self).items@.push(None),
            final(self).in_backpack@ == old(self).in_backpack@.push(None),
            final(self).equipped@ == old(self).equipped@.push(None),
            final(self).disabled@ == old(self).disabled@.push(None),
            final(self).wants_melee@ == old(self).wants_melee@.push(None),
            final(self).wants_pickup@ == old(self).wants_pickup@.push(None),
            final(self).wants_drop@ == old(self).wants_drop@.push(None),
            final(self).wants_use@ == old(self).wants_use@.push(None),
            final(self).wants_remove@ == old(self).wants_remove@.push(None),
            final(self).map == old(self).map,
            final(self).player == old(self).player,
            final(self).player_pos == old(self).player_pos,
            final(self).log == old(self).log,
    {
        let e = self.alive.len();
        self.alive.push(true);
        self.names.push(None);
        self.positions.push(None);
        self.renderables.push(None);
        self.viewsheds.push(None);
        self.monsters.push(false);
        self.blocks_tile.push(false);
        self.stats.push(None);
        self.suffer_damage.push(Vec::new());
        self.items.push(None);
        self.in_backpack.push(None);
        self.equipped.push(None);
        self.disabled.push(None);
        self.wants_melee.push(None);
        self.wants_pickup.push(None);
        self.wants_drop.push(None);
        self.wants_use.push(None);
        self.wants_remove.push(None);
        e
    }

    /// The name of `e`, empty where it has none.
    pub open spec fn name_view(&self, e: int) -> Seq<char> {
        match self.names@[e] {
            Some(s) => s@,
            None => Seq::empty(),
        }
    }

    pub fn name_of(&self, e: Entity) -> (r: String)
        requires
            e < self.names@.len(),
        ensures
            r@ == self.name_view(e as int),
    {
        match &self.names[e] {
            Some(s) => s.clone(),
            None => String::new(),
        }
    }

    /// Removes `e` from the world, with every component it holds.
    pub fn delete_entity(&mut self, e: Entity)
        requires
            old(self).wf(),
            e < old(self).n(),
        ensures
            final(self).wf(),
            final(self).alive@ == old(self).alive@.update(e as int, false),
            final(self).names@ == old(self).names@.update(e as int, None),
            final(self).positions@ == old(self).positions@.update(e as int, None),
            final(self).renderables@ == old(self).renderables@.update(e as int, None),
            final(self).viewsheds@.len() == old(self).viewsheds@.len(),
            final(self).viewsheds@[e as int].is_none(),
            forall|k: int|
                0 <= k < old(self).n() && k != e ==> #[trigger] final(self).viewsheds@[k]
                    == old(self).viewsheds@[k],
            final(self).monsters@ == old(self).monsters@.update(e as int, false),
            final(self).blocks_tile@ == old(self).blocks_tile@.update(e as int, false),
            final(self).stats@ == old(self).stats@.update(e as int, None),
            final(self).suffer_damage@.len() == old(self).suffer_damage@.len(),
            final(self).suffer_damage@[e as int]@.len() == 0,
            forall|k: int|
                0 <= k < old(self).n() && k != e ==> #[trigger] final(self).suffer_damage@[k]
                    == old(self).suffer_damage@[k],
            final(self).items@ == old(self).items@.update(e as int, None),
            final(self).in_backpack@ == old(self).in_backpack@.update(e as int, None),
            final(self).equipped@ == old(self).equipped@.update(e as int, None),
            final(self).disabled@ == old(self).disabled@.update(e as int, None),
            final(self).wants_melee@ == old(self).wants_melee@.update(e as int, None),
            final(self).wants_pickup@ == old(self).wants_pickup@.update(e as int, None),
            final(self).wants_drop@ == old(self).wants_drop@.update(e as int, None),
            final(self).wants_use@.len() == old(self).wants_use@.len(),
            final(self).wants_use@[e as int].is_none(),
            forall|k: int|
                0 <= k < old(self).n() && k != e ==> #[trigger] final(self).wants_use@[k]
                    == old(self).wants_use@[k],
            final(self).wants_remove@ == old(self).wants_remove@.update(e as int, None),
            final(self).map == old(self).map,
            final(self).player == old(self).player,
            final(self).player_pos == old(self).player_pos,
            final(self).log == old(self).log,
    {
        self.alive.set(e, false);
        self.names.set(e, None);
        self.positions.set(e, None);
        self.renderables.set(e, None);
        self.viewsheds.set(e, None);
        self.monsters.set(e, false);
        self.blocks_tile.set(e, false);
        self.stats.set(e, None);
        self.suffer_damage.set(e, Vec::new());
        self.items.set(e, None);
        self.in_backpack.set(e, None);
        self.equipped.set(e, None);
        self.disabled.set(e, None);
        self.wants_melee.set(e, None);
        self.wants_pickup.set(e, None);
        self.wants_drop.set(e, None);
        self.wants_use.set(e, None);
        self.wants_remove.set(e, None);
    }
}

} // verus!
