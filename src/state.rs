use vstd::prelude::*;
use crate::components::{Entity, Position, Viewshed, WantsToUseItem};
use crate::damage::{damage_pass, damaged, dead_pass, DamageSystem};
use crate::inventory::{
    drop_pass, lemma_no_use_keeps, pickup_pass, remove_pass, use_pass, uses_in_order, InventorySystem, ItemDropSystem, ItemRemoveSystem,
    ItemUseSystem,
};
use crate::connectivity::all_linked;
use crate::map::{GameMap, room_fits, TileType};
use crate::map_indexing::{indexing_pass, MapIndexingSystem};
use crate::melee::{lemma_no_attack_no_hits, melee_pass, MeleeCombatSystem};
use crate::monster_ai::{spotters, MonsterAI};
use crate::player::{input_effect, intent_state, player_input};
use crate::rect::half_spec;
use crate::spawner::{fresh, grows, player, spawn_room};
use crate::visibility::{vis_pass, Sight, VisibilitySystem};
use crate::world::{LogEntry, World};
use rltk::RandomNumberGenerator;

verus! {

#[derive(Clone, Copy, Debug, PartialEq, Eq, Structural)]
pub enum MainMenuSelection {
    NewGame,
    LoadGame,
    Quit,
}

/// The phase the game is in, which decides what a tick does.
#[derive(Clone, Copy, Debug, PartialEq, Eq, Structural)]
pub enum RunState {
    AwaitingInput,
    PreRun,
    PlayerTurn,
    MonsterTurn,
    ShowInventory,
    ShowDropItem,
    ShowTargeting { range: i32, item: Entity },
    MainMenu { menu_selection: MainMenuSelection },
    SaveGame,
    NextLevel,
}

/// What the player asks for, decoded from a key.
#[derive(Clone, Copy, Debug, PartialEq, Eq, Structural)]
pub enum PlayerIntent {
    Move { dx: i32, dy: i32 },
    Wait,
    Pickup,
    OpenInventory,
    OpenDropMenu,
    Descend,
    Save,
}

/// What the outside hands a tick: a key's request, or what a menu returned.
pub enum TickInput {
    /// Nothing was pressed or chosen this frame.
    Idle,
    Key(PlayerIntent),
    Cancel,
    /// An item was chosen in the inventory or drop menu.
    PickItem(Entity),
    /// A target tile was chosen, with the tiles that field of view reaches
    /// from it within the item's radius.
    PickTarget { target: Position, blast: Vec<Position> },
    /// The main menu's highlight moved.
    MenuHighlight(MainMenuSelection),
    /// A main menu entry was chosen.
    MenuChoose(MainMenuSelection),
}

/// What a tick reports besides the new phase.
pub struct TickReport {
    /// The monsters that saw the player, when the systems ran.
    pub spotted: Vec<Entity>,
    /// Whether the player's hit points have run out.
    pub player_dead: bool,
}

/// The game: its world and the phase it is in.
pub struct State {
    pub ecs: World,
    pub run_state: RunState,
}

/// Whether `st` lists the worlds of one turn, from `w` to `v`: each system
/// in its fixed order takes one to the next (visibility from `sights`,
/// map indexing, melee, damage, pickup, item use, drop, taking off), and
/// `spotted` are the monsters that see the player once views are updated.
pub open spec fn turn_trace(st: Seq<World>, w: World, v: World, sights: Seq<Sight>, spotted: Seq<
    Entity,
>) -> bool {
    &&& st.len() == 9
    &&& st[0] == w
    &&& st[8] == v
    &&& vis_pass(st[0], st[1], sights)
    &&& spotted == spotters(st[1], st[1].n() as int)
    &&& indexing_pass(st[1], st[2])
    &&& melee_pass(st[2], st[3])
    &&& damage_pass(st[3], st[4])
    &&& pickup_pass(st[4], st[5])
    &&& use_pass(st[5], st[6])
    &&& drop_pass(st[6], st[7])
    &&& remove_pass(st[7], st[8])
}

/// A turn with no attack and no item use pending applies each entity's
/// pending damage exactly once: hit points fall by the pending total and
/// the list is left empty, so a second such turn changes nothing more.
pub proof fn lemma_turn_applies_damage_once(
    st: Seq<World>,
    w: World,
    v: World,
    sights: Seq<Sight>,
    spotted: Seq<Entity>,
    e: Entity,
)
    requires
        w.wf(),
        turn_trace(st, w, v, sights, spotted),
        forall|j: int| 0 <= j < w.n() ==> (#[trigger] w.wants_melee@[j]).is_none(),
        forall|j: int| 0 <= j < w.n() ==> (#[trigger] w.wants_use@[j]).is_none(),
        e < w.n(),
        w.stats@[e as int].is_some(),
    ensures
        v.stats@[e as int] == Some(damaged(w.stats@[e as int].unwrap(), w.suffer_damage@[e as int]@)),
        v.suffer_damage@[e as int]@.len() == 0,
{
    let (s0, s1, s2, s3, s4, s5, s6, s7, s8) = (st[0], st[1], st[2], st[3], st[4], st[5], st[6], st[7], st[8]);
    assert(s2.wants_melee == w.wants_melee);
    lemma_no_attack_no_hits(s2, e, s2.n() as int);
    assert(s3.suffer_damage@[e as int]@ == s2.suffer_damage@[e as int]@ + Seq::<i32>::empty());
    assert(s3.suffer_damage@[e as int]@ =~= w.suffer_damage@[e as int]@);
    assert(s4.stats@[e as int] == Some(damaged(w.stats@[e as int].unwrap(), w.suffer_damage@[e as int]@)));
    assert(s5.wants_use == w.wants_use);
    let ws = choose|ws: Seq<World>| #[trigger] uses_in_order(ws, s5, s6);
    lemma_no_use_keeps(ws, s5, s6, s5.n() as int);
    assert(s6.stats == s5.stats && s6.suffer_damage == s5.suffer_damage);
}

/// Whether `b` is `a` moved to a new level one deeper; see `goto_next_level`.
pub open spec fn level_advanced(a: World, b: World) -> bool {
    &&& b.n() >= a.n()
    &&& b.player == a.player
    &&& forall|e: int|
        0 <= e < a.n() ==> #[trigger] b.alive@[e] == (a.alive@[e] && !wiped(a, e))
    &&& forall|e: int|
        0 <= e < a.n() && !wiped(a, e) && e != a.player
            ==> #[trigger] b.in_backpack@[e] == a.in_backpack@[e]
            && b.items@[e] == a.items@[e]
            && b.names@[e] == a.names@[e]
            && b.renderables@[e] == a.renderables@[e]
    &&& b.map.depth == a.map.depth + 1
    &&& b.map.rooms@.len() >= 1
    &&& b.map.rooms_disjoint()
    &&& b.map.rooms_fit()
    &&& all_linked(b.map)
    &&& b.map.tile(b.map.rooms@.last().center_spec().0, b.map.rooms@.last().center_spec().1)
        == TileType::DownStairs
    &&& b.player_pos.x == b.map.rooms@[0].center_spec().0
    &&& b.player_pos.y == b.map.rooms@[0].center_spec().1
    &&& a.positions@[a.player as int].is_some() ==> b.positions@[a.player as int] == Some(b.player_pos)
    &&& a.viewsheds@[a.player as int].is_some() ==> b.viewsheds@[a.player as int].is_some()
        && b.viewsheds@[a.player as int].unwrap().dirty
    &&& b.stats@[a.player as int] == match a.stats@[a.player as int] {
        Some(s) => Some(
            crate::components::CombatStats {
                hp: recharged_hp(s.hp as int, s.max_hp as int) as i32,
                ..s
            },
        ),
        None => None,
    }
    &&& b.log@ == a.log@.push(LogEntry::NextLevel)
}

/// Whether `e` goes when the level changes: everything but the player and
/// what the player carries in the backpack.
pub open spec fn wiped(w: World, e: int) -> bool {
    w.alive@[e] && e != w.player && w.in_backpack@[e] != Some(w.player)
}

/// The player's hit points on a new level: at least half the maximum.
pub open spec fn recharged_hp(hp: int, max_hp: int) -> int {
    if hp > half_spec(max_hp) {
        hp
    } else {
        half_spec(max_hp)
    }
}

/// Appending to a sequence adds exactly the appended element.
pub proof fn lemma_push_contains(s: Seq<Entity>, v: Entity, x: Entity)
    ensures
        s.push(v).contains(x) <==> (s.contains(x) || x == v),
{
    if s.contains(x) {
        let k = choose|k: int| 0 <= k < s.len() && s[k] == x;
        assert(s.push(v)[k] == x);
    }
    if x == v {
        assert(s.push(v)[s.len() as int] == v);
    }
    if s.push(v).contains(x) && x != v {
        let k = choose|k: int| 0 <= k < s.len() + 1 && s.push(v)[k] == x;
        assert(s[k] == x);
    }
}

impl World {
    /// Removes every entity of `doomed` from the world.
    pub fn delete_all(&mut self, doomed: &Vec<Entity>)
        requires
            old(self).wf(),
            forall|j: int| 0 <= j < doomed@.len() ==> #[trigger] doomed@[j] < old(self).n(),
        ensures
            final(self).wf(),
            final(self).n() == old(self).n(),
            final(self).player == old(self).player,
            final(self).player_pos == old(self).player_pos,
            final(self).map == old(self).map,
            final(self).log == old(self).log,
            forall|e: Entity|
                e < old(self).n() ==> #[trigger] final(self).alive@[e as int] == (old(self).alive@[e as int]
                    && !doomed@.contains(e)),
            forall|e: Entity|
                e < old(self).n() && !doomed@.contains(e) ==> #[trigger] final(self).in_backpack@[e as int]
                    == old(self).in_backpack@[e as int] && final(self).items@[e as int] == old(self).items@[e as int]
                    && final(self).positions@[e as int] == old(self).positions@[e as int]
                    && final(self).viewsheds@[e as int] == old(self).viewsheds@[e as int]
                    && final(self).stats@[e as int] == old(self).stats@[e as int]
                    && final(self).names@[e as int] == old(self).names@[e as int]
                    && final(self).renderables@[e as int] == old(self).renderables@[e as int],
    {
        let n0 = self.alive.len();
        let mut k: usize = 0;
        while k < doomed.len()
            invariant
                self.wf(),
                self.n() == n0,
                n0 == old(self).n(),
                k <= doomed@.len(),
                forall|j: int| 0 <= j < doomed@.len() ==> #[trigger] doomed@[j] < n0,
                self.player == old(self).player,
                self.player_pos == old(self).player_pos,
                self.map == old(self).map,
                self.log == old(self).log,
                forall|e: Entity|
                    e < n0 ==> #[trigger] self.alive@[e as int] == (old(self).alive@[e as int]
                        && !doomed@.subrange(0, k as int).contains(e)),
                forall|e: Entity|
                    e < n0 && !doomed@.subrange(0, k as int).contains(e) ==> #[trigger] self.in_backpack@[e as int]
                        == old(self).in_backpack@[e as int] && self.items@[e as int] == old(self).items@[e as int]
                        && self.positions@[e as int] == old(self).positions@[e as int]
                        && self.viewsheds@[e as int] == old(self).viewsheds@[e as int]
                        && self.stats@[e as int] == old(self).stats@[e as int],
                forall|e: Entity|
                    e < n0 && !doomed@.subrange(0, k as int).contains(e) ==> #[trigger] self.names@[e as int]
                        == old(self).names@[e as int] && self.renderables@[e as int] == old(self).renderables@[e as int],
            decreases doomed@.len() - k,
        {
            let d = doomed[k];
            let ghost before = *self;
            self.delete_entity(d);
            assert forall|x: Entity| x < n0 implies #[trigger] self.alive@[x as int] == (old(self).alive@[x as int]
                && !doomed@.subrange(0, k + 1).contains(x)) by {
                crate::effects::lemma_prefix_contains(doomed@, k as int, x);
                assert(before.alive@[x as int] == (old(self).alive@[x as int] && !doomed@.subrange(
                    0,
                    k as int,
                ).contains(x)));
            }
            assert forall|x: Entity|
                x < n0 && !doomed@.subrange(0, k + 1).contains(x) implies #[trigger] self.in_backpack@[x as int]
                == old(self).in_backpack@[x as int] && self.items@[x as int] == old(self).items@[x as int]
                && self.positions@[x as int] == old(self).positions@[x as int]
                && self.viewsheds@[x as int] == old(self).viewsheds@[x as int]
                && self.stats@[x as int] == old(self).stats@[x as int] by {
                crate::effects::lemma_prefix_contains(doomed@, k as int, x);
                assert(before.in_backpack@[x as int] == old(self).in_backpack@[x as int]);
            }
            assert forall|x: Entity|
                x < n0 && !doomed@.subrange(0, k + 1).contains(x) implies #[trigger] self.names@[x as int]
                == old(self).names@[x as int] && self.renderables@[x as int] == old(self).renderables@[x as int] by {
                crate::effects::lemma_prefix_contains(doomed@, k as int, x);
                assert(before.names@[x as int] == old(self).names@[x as int]);
            }
            k = k + 1;
        }
        assert(doomed@.subrange(0, doomed@.len() as int) =~= doomed@);
    }
}

impl World {
    /// Puts the player at `target` on a fresh level: its position and view
    /// are updated, its hit points raised to at least half the maximum, and
    /// the log notes the descent.
    pub fn place_player(&mut self, target: Position)
        requires
            old(self).wf(),
            crate::world::pos_in_bounds(target),
        ensures
            final(self).wf(),
            final(self).n() == old(self).n(),
            final(self).player == old(self).player,
            final(self).player_pos == target,
            final(self).map == old(self).map,
            final(self).alive == old(self).alive,
            final(self).in_backpack == old(self).in_backpack,
            final(self).items == old(self).items,
            final(self).names == old(self).names,
            final(self).renderables == old(self).renderables,
            final(self).positions@ == if old(self).positions@[old(self).player as int].is_some() {
                old(self).positions@.update(old(self).player as int, Some(target))
            } else {
                old(self).positions@
            },
            old(self).viewsheds@[old(self).player as int].is_some() ==> final(self).viewsheds@[old(self).player as int].is_some()
                && final(self).viewsheds@[old(self).player as int].unwrap().dirty,
            final(self).stats@ == match old(self).stats@[old(self).player as int] {
                Some(s) => old(self).stats@.update(
                    old(self).player as int,
                    Some(
                        crate::components::CombatStats {
                            hp: recharged_hp(s.hp as int, s.max_hp as int) as i32,
                            ..s
                        },
                    ),
                ),
                None => old(self).stats@,
            },
            final(self).log@ == old(self).log@.push(LogEntry::NextLevel),
    {
        let player = self.player;
        self.player_pos = target;
        if self.positions[player].is_some() {
            self.positions.set(player, Some(target));
        }
        let mut taken: Option<Viewshed> = None;
        self.viewsheds.set_and_swap(player, &mut taken);
        match taken {
            Some(vs) => {
                self.viewsheds.set(
                    player,
                    Some(Viewshed { visible_tiles: vs.visible_tiles, range: vs.range, dirty: true }),
                );
            },
            None => {},
        }
        self.log.push(LogEntry::NextLevel);
        match self.stats[player] {
            Some(s) => {
                let half: i32 = if s.max_hp >= 0 {
                    s.max_hp / 2
                } else {
                    -((-(s.max_hp as i64)) / 2) as i32
                };
                assert(half == half_spec(s.max_hp as int));
                let hp = if s.hp > half {
                    s.hp
                } else {
                    half
                };
                self.stats.set(
                    player,
                    Some(
                        crate::components::CombatStats {
                            max_hp: s.max_hp,
                            hp,
                            defense: s.defense,
                            power: s.power,
                        },
                    ),
                );
            },
            None => {},
        }
    }
}

impl State {
    /// Runs one turn of the systems in their fixed order: visibility (from
    /// the given sights), monster reactions, map indexing, melee, damage,
    /// pickup, item use, drop and taking off. Returns the monsters that
    /// saw the player.
    pub fn run_systems(&mut self, sights: &Vec<Sight>) -> (r: Vec<Entity>)
        requires
            old(self).ecs.wf(),
        ensures
            final(self).ecs.wf(),
            final(self).ecs.intents_drained(),
            final(self).ecs.n() == old(self).ecs.n(),
            final(self).ecs.player == old(self).ecs.player,
            old(self).ecs.equip_exclusive() ==> final(self).ecs.equip_exclusive(),
            final(self).run_state == old(self).run_state,
            forall|k: int|
                0 <= k < r@.len() ==> #[trigger] r@[k] < old(self).ecs.n() && old(self).ecs.monsters@[r@[k] as int],
            exists|st: Seq<World>| #[trigger] turn_trace(st, old(self).ecs, final(self).ecs, sights@, r@),
    {
        let ghost s0 = self.ecs;
        let mut vis = VisibilitySystem {};
        vis.run(&mut self.ecs, sights);
        let ghost s1 = self.ecs;
        assert(vis_pass(s0, s1, sights@));
        let mut mob = MonsterAI {};
        let spotted = mob.run(&self.ecs);
        let count = self.ecs.alive.len();
        proof {
            assert(count == self.ecs.n());
            crate::monster_ai::lemma_spotters_see(self.ecs, self.ecs.n() as int);
        }
        let mut map_index = MapIndexingSystem {};
        map_index.run(&mut self.ecs);
        let ghost s2 = self.ecs;
        assert(indexing_pass(s1, s2));
        let mut melee = MeleeCombatSystem {};
        melee.run(&mut self.ecs);
        let ghost s3 = self.ecs;
        assert(melee_pass(s2, s3));
        let mut damage = DamageSystem {};
        damage.run(&mut self.ecs);
        let ghost s4 = self.ecs;
        assert(damage_pass(s3, s4));
        let mut pickup = InventorySystem {};
        pickup.run(&mut self.ecs);
        let ghost s5 = self.ecs;
        assert(pickup_pass(s4, s5));
        let mut use_items = ItemUseSystem {};
        use_items.run(&mut self.ecs);
        let ghost s6 = self.ecs;
        assert(use_pass(s5, s6));
        let mut drop_items = ItemDropSystem {};
        drop_items.run(&mut self.ecs);
        let ghost s7 = self.ecs;
        assert(drop_pass(s6, s7));
        let mut remove_items = ItemRemoveSystem {};
        remove_items.run(&mut self.ecs);
        let ghost s8 = self.ecs;
        assert(remove_pass(s7, s8));
        assert(turn_trace(seq![s0, s1, s2, s3, s4, s5, s6, s7, s8], s0, s8, sights@, spotted@));
        spotted
    }

    /// The entities that leave when the level changes; see `wiped`.
    pub fn wipe_entities_on_refresh(&self) -> (r: Vec<Entity>)
        requires
            self.ecs.wf(),
        ensures
            r@.no_duplicates(),
            forall|k: int| 0 <= k < r@.len() ==> #[trigger] r@[k] < self.ecs.n(),
            forall|e: Entity| e < self.ecs.n() ==> (r@.contains(e) <==> wiped(self.ecs, e as int)),
    {
        let w = &self.ecs;
        let n = w.alive.len();
        let mut to_delete: Vec<Entity> = Vec::new();
        let mut e: usize = 0;
        while e < n
            invariant
                w.wf(),
                n == w.n(),
                e <= n,
                to_delete@.no_duplicates(),
                forall|k: int| 0 <= k < to_delete@.len() ==> #[trigger] to_delete@[k] < e,
                forall|x: Entity| x < e ==> (to_delete@.contains(x) <==> wiped(*w, x as int)),
            decreases n - e,
        {
            let ghost before = to_delete@;
            if w.alive[e] && e != w.player && w.in_backpack[e] != Some(w.player) {
                to_delete.push(e);
            }
            assert forall|x: Entity| x < e + 1 implies (to_delete@.contains(x) <==> wiped(*w, x as int)) by {
                lemma_push_contains(before, e, x);
                if to_delete@ != before {
                    assert(to_delete@ == before.push(e));
                }
            }
            e = e + 1;
        }
        to_delete
    }

    /// Moves the game to a new level one deeper: everything but the player
    /// and what the player carries leaves, a new map is built and filled,
    /// the player stands at the center of its first room with a view to
    /// recompute and at least half the maximum hit points, and the log
    /// says so.
    #[verifier::rlimit(40)]
    pub fn goto_next_level(&mut self, rng: &mut RandomNumberGenerator)
        requires
            old(self).ecs.wf(),
            old(self).ecs.map.depth < i32::MAX,
        ensures
            final(self).ecs.wf(),
            final(self).ecs.n() >= old(self).ecs.n(),
            final(self).ecs.player == old(self).ecs.player,
            forall|e: int|
                0 <= e < old(self).ecs.n() ==> #[trigger] final(self).ecs.alive@[e] == (old(self).ecs.alive@[e] && !wiped(old(self).ecs, e)),
            forall|e: int|
                0 <= e < old(self).ecs.n() && !wiped(old(self).ecs, e) && e != old(self).ecs.player
                    ==> #[trigger] final(self).ecs.in_backpack@[e] == old(self).ecs.in_backpack@[e]
                    && final(self).ecs.items@[e] == old(self).ecs.items@[e]
                    && final(self).ecs.names@[e] == old(self).ecs.names@[e]
                    && final(self).ecs.renderables@[e] == old(self).ecs.renderables@[e],
            final(self).ecs.map.depth == old(self).ecs.map.depth + 1,
            final(self).ecs.map.rooms@.len() >= 1,
            final(self).ecs.map.rooms_disjoint(),
            final(self).ecs.map.rooms_fit(),
            all_linked(final(self).ecs.map),
            final(self).ecs.map.tile(
                final(self).ecs.map.rooms@.last().center_spec().0,
                final(self).ecs.map.rooms@.last().center_spec().1,
            ) == TileType::DownStairs,
            final(self).ecs.player_pos.x == final(self).ecs.map.rooms@[0].center_spec().0,
            final(self).ecs.player_pos.y == final(self).ecs.map.rooms@[0].center_spec().1,
            old(self).ecs.positions@[old(self).ecs.player as int].is_some() ==> final(self).ecs.positions@[old(self).ecs.player as int] == Some(final(self).ecs.player_pos),
            old(self).ecs.viewsheds@[old(self).ecs.player as int].is_some() ==> final(self).ecs.viewsheds@[old(self).ecs.player as int].is_some() && final(self).ecs.viewsheds@[old(self).ecs.player as int].unwrap().dirty,
            final(self).ecs.stats@[old(self).ecs.player as int] == match old(self).ecs.stats@[old(self).ecs.player as int] {
                Some(s) => Some(
                    crate::components::CombatStats {
                        hp: recharged_hp(s.hp as int, s.max_hp as int) as i32,
                        ..s
                    },
                ),
                None => None,
            },
            final(self).ecs.log@ == old(self).ecs.log@.push(LogEntry::NextLevel),
            final(self).run_state == old(self).run_state,
    {
        let to_delete = self.wipe_entities_on_refresh();
        let ghost w0 = self.ecs;
        let n0 = self.ecs.alive.len();
        self.ecs.delete_all(&to_delete);
        let ghost wa = self.ecs;
        let depth = self.ecs.map.depth + 1;
        let map = GameMap::new_map_rooms_and_corridors(depth, rng);
        let (px, py) = map.rooms[0].center();
        proof {
            crate::map::lemma_center_in_room(map.rooms@[0]);
        }
        let ghost fresh_map = map;
        self.ecs.map = map;
        let ghost w1 = self.ecs;
        let nrooms = self.ecs.map.rooms.len();
        let mut r: usize = 1;
        while r < nrooms
            invariant
                self.ecs.wf(),
                grows(w1, self.ecs),
                1 <= r <= nrooms,
                nrooms == self.ecs.map.rooms@.len(),
                self.ecs.map.rooms_fit(),
                self.ecs.map.depth == depth,
                self.run_state == old(self).run_state,
            decreases nrooms - r,
        {
            let room = self.ecs.map.rooms[r];
            let ghost before = self.ecs;
            proof {
                assert(room_fits(self.ecs.map.rooms@[r as int]));
            }
            spawn_room(&mut self.ecs, &room, depth, rng);
            proof {
                crate::spawner::lemma_grows_trans(w1, before, self.ecs);
            }
            r = r + 1;
        }
        let ghost wc = self.ecs;
        assert forall|e: int| 0 <= e < n0 && !wiped(w0, e) implies #[trigger] wc.in_backpack@[e]
            == w0.in_backpack@[e] && wc.items@[e] == w0.items@[e] && wc.positions@[e] == w0.positions@[e]
            && wc.viewsheds@[e] == w0.viewsheds@[e] && wc.stats@[e] == w0.stats@[e] && wc.alive@[e]
            == w0.alive@[e] && wc.names@[e] == w0.names@[e] && wc.renderables@[e] == w0.renderables@[e] by {
            let x = e as Entity;
            assert(!to_delete@.contains(x));
            assert(wa.in_backpack@[x as int] == w0.in_backpack@[x as int]);
            assert(wa.alive@[x as int] == (w0.alive@[x as int] && !to_delete@.contains(x)));
            assert(wc.in_backpack@[e] == wa.in_backpack@[e]);
        }
        assert forall|e: int| 0 <= e < n0 && wiped(w0, e) implies !(#[trigger] wc.alive@[e]) by {
            let x = e as Entity;
            assert(to_delete@.contains(x));
            assert(wa.alive@[x as int] == (w0.alive@[x as int] && !to_delete@.contains(x)));
            assert(wc.alive@[e] == wa.alive@[e]);
        }
        assert(!wiped(w0, w0.player as int));
        assert(wc.in_backpack@[w0.player as int] == w0.in_backpack@[w0.player as int]);
        assert(wc.positions@[w0.player as int] == w0.positions@[w0.player as int]);
        assert(wc.viewsheds@[w0.player as int] == w0.viewsheds@[w0.player as int]);
        assert(wc.stats@[w0.player as int] == w0.stats@[w0.player as int]);
        self.ecs.place_player(Position { x: px, y: py });
        assert(self.ecs.in_backpack == wc.in_backpack);
        assert(self.ecs.items == wc.items);
        assert(self.ecs.names == wc.names);
        assert(self.ecs.renderables == wc.renderables);
        assert(self.ecs.map == fresh_map);
        assert forall|e: int|
            0 <= e < old(self).ecs.n() && !wiped(old(self).ecs, e) && e != old(self).ecs.player
                implies #[trigger] self.ecs.in_backpack@[e] == old(self).ecs.in_backpack@[e]
            && self.ecs.items@[e] == old(self).ecs.items@[e] && self.ecs.names@[e] == old(self).ecs.names@[e] && self.ecs.renderables@[e] == old(self).ecs.renderables@[e] by {
            assert(wc.in_backpack@[e] == w0.in_backpack@[e]);
            assert(wc.items@[e] == w0.items@[e]);
            assert(wc.names@[e] == w0.names@[e]);
            assert(wc.renderables@[e] == w0.renderables@[e]);
        }
        assert forall|e: int| 0 <= e < old(self).ecs.n() implies #[trigger] self.ecs.alive@[e] == (old(self).ecs.alive@[e] && !wiped(old(self).ecs, e)) by {
            assert(self.ecs.alive@[e] == wc.alive@[e]);
            if !wiped(w0, e) {
                assert(wc.alive@[e] == w0.alive@[e]);
            } else {
                assert(!wc.alive@[e]);
            }
        }
    }
}

/// A new game: a first level with the player at the center of its first
/// room, the other rooms filled, a welcome in the log, and the main menu
/// showing.
pub fn new_game(rng: &mut RandomNumberGenerator) -> (st: State)
    ensures
        st.ecs.wf(),
        st.ecs.map.depth == 1,
        st.ecs.map.rooms@.len() >= 1,
        st.ecs.player_pos.x == st.ecs.map.rooms@[0].center_spec().0,
        st.ecs.player_pos.y == st.ecs.map.rooms@[0].center_spec().1,
        st.ecs.positions@[st.ecs.player as int] == Some(st.ecs.player_pos),
        st.ecs.stats@[st.ecs.player as int] == Some(
            crate::components::CombatStats { max_hp: 100, hp: 100, defense: 2, power: 40 },
        ),
        st.ecs.log@ == seq![LogEntry::Welcome],
        st.ecs.intents_drained(),
        st.ecs.equip_exclusive(),
        st.run_state == (RunState::MainMenu { menu_selection: MainMenuSelection::NewGame }),
{
    let map = GameMap::new_map_rooms_and_corridors(1, rng);
    let (px, py) = map.rooms[0].center();
    proof {
        crate::map::lemma_center_in_room(map.rooms@[0]);
    }
    let mut world = World::new(map);
    let ghost w_empty = world;
    let hero = player(&mut world, px, py);
    assert(fresh(world, 0));
    world.player = hero;
    world.player_pos = Position { x: px, y: py };
    let ghost w1 = world;
    let nrooms = world.map.rooms.len();
    let mut r: usize = 1;
    while r < nrooms
        invariant
            world.wf(),
            grows(w1, world),
            1 <= r <= nrooms,
            nrooms == world.map.rooms@.len(),
            world.map.rooms_fit(),
            world.map.depth == 1,
        decreases nrooms - r,
    {
        let room = world.map.rooms[r];
        let ghost before = world;
        proof {
            assert(room_fits(world.map.rooms@[r as int]));
        }
        spawn_room(&mut world, &room, 1, rng);
        proof {
            crate::spawner::lemma_grows_trans(w1, before, world);
        }
        r = r + 1;
    }
    assert forall|e: int| 0 <= e < world.n() implies fresh(world, e) by {
        if e < w1.n() {
            assert(e == 0);
            assert(fresh(w1, 0));
            crate::spawner::lemma_fresh_kept(w1, world, e);
        }
    }
    let ghost w2 = world;
    world.log.push(LogEntry::Welcome);
    assert(world.log@ =~= seq![LogEntry::Welcome]);
    assert forall|e: int| 0 <= e < world.n() implies fresh(world, e) by {
        assert(fresh(w2, e));
    }
    assert(world.intents_drained()) by {
        assert forall|e: int| 0 <= e < world.n() implies (#[trigger] world.wants_melee@[e]).is_none() by {
            assert(fresh(world, e));
        }
        assert forall|e: int| 0 <= e < world.n() implies (#[trigger] world.wants_pickup@[e]).is_none() by {
            assert(fresh(world, e));
        }
        assert forall|e: int| 0 <= e < world.n() implies (#[trigger] world.wants_drop@[e]).is_none() by {
            assert(fresh(world, e));
        }
        assert forall|e: int| 0 <= e < world.n() implies (#[trigger] world.wants_use@[e]).is_none() by {
            assert(fresh(world, e));
        }
        assert forall|e: int| 0 <= e < world.n() implies (#[trigger] world.wants_remove@[e]).is_none() by {
            assert(fresh(world, e));
        }
    }
    assert(world.equip_exclusive()) by {
        assert forall|a: int, b: int|
            #![trigger world.equipped@[a], world.equipped@[b]]
            0 <= a < world.equipped@.len() && 0 <= b < world.equipped@.len() && a != b
                && world.equipped@[a].is_some() && world.equipped@[b].is_some() implies world.equipped@[a].unwrap()
            != world.equipped@[b].unwrap() by {
            assert(fresh(world, a));
        }
    }
    State { ecs: world, run_state: RunState::MainMenu { menu_selection: MainMenuSelection::NewGame } }
}

/// Whether `a` and `b` agree on everything but the use and drop requests.
pub open spec fn same_but_requests(a: World, b: World) -> bool {
    &&& a.alive == b.alive
    &&& a.names == b.names
    &&& a.positions == b.positions
    &&& a.renderables == b.renderables
    &&& a.viewsheds == b.viewsheds
    &&& a.monsters == b.monsters
    &&& a.blocks_tile == b.blocks_tile
    &&& a.stats == b.stats
    &&& a.suffer_damage == b.suffer_damage
    &&& a.items == b.items
    &&& a.in_backpack == b.in_backpack
    &&& a.equipped == b.equipped
    &&& a.disabled == b.disabled
    &&& a.wants_melee == b.wants_melee
    &&& a.wants_pickup == b.wants_pickup
    &&& a.wants_remove == b.wants_remove
    &&& a.map == b.map
    &&& a.player == b.player
    &&& a.player_pos == b.player_pos
    &&& a.log == b.log
}

/// Whether `v` is `w` with the player asking to use `item` on `target`,
/// with the given blast tiles.
pub open spec fn requested_use(
    w: World,
    v: World,
    item: Entity,
    target: Option<Position>,
    blast: Seq<Position>,
) -> bool {
    let p = w.player as int;
    &&& same_but_requests(w, v)
    &&& v.wants_drop == w.wants_drop
    &&& v.wants_use@.len() == w.wants_use@.len()
    &&& forall|j: int| 0 <= j < w.wants_use@.len() && j != p ==> #[trigger] v.wants_use@[j] == w.wants_use@[j]
    &&& v.wants_use@[p].is_some()
    &&& v.wants_use@[p].unwrap().item == item
    &&& v.wants_use@[p].unwrap().target == target
    &&& v.wants_use@[p].unwrap().blast@ == blast
}

/// Whether `v` is what a tick in phase `st` with input `input` makes of `w`
/// before the dead are removed: a turn of the systems in the turn phases;
/// the player's request while awaiting input; a use or drop request when a
/// menu returns an item or a target; a new level; else nothing. `spotted`
/// are the monsters that saw the player, empty when no turn ran.
pub open spec fn tick_effect(
    st: RunState,
    input: TickInput,
    w: World,
    v: World,
    sights: Seq<Sight>,
    spotted: Seq<Entity>,
) -> bool {
    match st {
        RunState::PreRun | RunState::PlayerTurn | RunState::MonsterTurn => exists|t: Seq<World>|
            #[trigger] turn_trace(t, w, v, sights, spotted),
        RunState::AwaitingInput => {
            &&& spotted.len() == 0
            &&& input_effect(
                w,
                v,
                match input {
                    TickInput::Key(k) => Some(k),
                    _ => None,
                },
            )
        },
        RunState::ShowInventory => spotted.len() == 0 && match input {
            TickInput::PickItem(item) => if item < w.n() && ranged_of(w, item).is_none() {
                requested_use(w, v, item, None, Seq::empty())
            } else {
                v == w
            },
            _ => v == w,
        },
        RunState::ShowTargeting { range: _, item } => spotted.len() == 0 && match input {
            TickInput::PickTarget { target, blast } => if item < w.n() {
                requested_use(w, v, item, Some(target), blast@)
            } else {
                v == w
            },
            _ => v == w,
        },
        RunState::ShowDropItem => spotted.len() == 0 && match input {
            TickInput::PickItem(item) => if item < w.n() {
                &&& same_but_requests(w, v)
                &&& v.wants_use == w.wants_use
                &&& v.wants_drop@ == w.wants_drop@.update(w.player as int, Some(item))
            } else {
                v == w
            },
            _ => v == w,
        },
        RunState::NextLevel => spotted.len() == 0 && if w.map.depth < i32::MAX {
            level_advanced(w, v)
        } else {
            v == w
        },
        _ => spotted.len() == 0 && v == w,
    }
}

/// The range of `item` when it is an item that must be aimed.
pub open spec fn ranged_of(w: World, item: Entity) -> Option<i32> {
    if item < w.n() && w.items@[item as int].is_some() {
        w.items@[item as int].unwrap().range
    } else {
        None
    }
}

/// The phase after a tick in phase `st` with input `input`.
pub open spec fn next_run_state(st: RunState, input: TickInput, w: World) -> RunState {
    match st {
        RunState::PreRun => RunState::AwaitingInput,
        RunState::PlayerTurn => RunState::MonsterTurn,
        RunState::MonsterTurn => RunState::AwaitingInput,
        RunState::AwaitingInput => match input {
            TickInput::Key(k) => intent_state(w, Some(k)),
            _ => intent_state(w, None),
        },
        RunState::ShowInventory => match input {
            TickInput::Cancel => RunState::AwaitingInput,
            TickInput::PickItem(item) => if item >= w.n() {
                RunState::AwaitingInput
            } else if ranged_of(w, item).is_some() {
                RunState::ShowTargeting { range: ranged_of(w, item).unwrap(), item }
            } else {
                RunState::PlayerTurn
            },
            _ => st,
        },
        RunState::ShowTargeting { range: _, item } => match input {
            TickInput::Cancel => RunState::AwaitingInput,
            TickInput::PickTarget { .. } => if item >= w.n() {
                RunState::AwaitingInput
            } else {
                RunState::PlayerTurn
            },
            _ => st,
        },
        RunState::ShowDropItem => match input {
            TickInput::Cancel => RunState::AwaitingInput,
            TickInput::PickItem(item) => if item >= w.n() {
                RunState::AwaitingInput
            } else {
                RunState::PlayerTurn
            },
            _ => st,
        },
        RunState::MainMenu { .. } => match input {
            TickInput::MenuHighlight(sel) => RunState::MainMenu { menu_selection: sel },
            TickInput::MenuChoose(MainMenuSelection::NewGame) => RunState::PreRun,
            TickInput::MenuChoose(MainMenuSelection::LoadGame) => RunState::AwaitingInput,
            _ => st,
        },
        RunState::SaveGame => RunState::MainMenu { menu_selection: MainMenuSelection::Quit },
        RunState::NextLevel => if w.map.depth < i32::MAX {
            RunState::PreRun
        } else {
            RunState::AwaitingInput
        },
    }
}

impl State {
    /// One frame of the game: does what the phase calls for with the
    /// input, moves to the next phase, and removes the dead. Saving,
    /// loading and quitting are left to the caller, who sees the phase
    /// and the input.
    pub fn tick(&mut self, input: TickInput, sights: &Vec<Sight>, rng: &mut RandomNumberGenerator) -> (r:
        TickReport)
        requires
            old(self).ecs.wf(),
        ensures
            final(self).ecs.wf(),
            final(self).run_state == next_run_state(old(self).run_state, input, old(self).ecs),
            old(self).run_state == RunState::PreRun || old(self).run_state == RunState::PlayerTurn
                || old(self).run_state == RunState::MonsterTurn ==> final(self).ecs.intents_drained(),
            exists|mid: World|
                #[trigger] tick_effect(old(self).run_state, input, old(self).ecs, mid, sights@, r.spotted@)
                    && dead_pass(mid, final(self).ecs, r.player_dead),
            r.player_dead == (final(self).ecs.stats@[final(self).ecs.player as int].is_some()
                && final(self).ecs.stats@[final(self).ecs.player as int].unwrap().hp <= 0),
    {
        let mut spotted: Vec<Entity> = Vec::new();
        let next = match self.run_state {
            RunState::PreRun => {
                spotted = self.run_systems(sights);
                RunState::AwaitingInput
            },
            RunState::PlayerTurn => {
                spotted = self.run_systems(sights);
                RunState::MonsterTurn
            },
            RunState::MonsterTurn => {
                spotted = self.run_systems(sights);
                RunState::AwaitingInput
            },
            RunState::AwaitingInput => {
                let intent = match input {
                    TickInput::Key(k) => Some(k),
                    _ => None,
                };
                player_input(self, intent)
            },
            RunState::ShowInventory => match input {
                TickInput::Cancel => RunState::AwaitingInput,
                TickInput::PickItem(item) => {
                    if item >= self.ecs.alive.len() {
                        RunState::AwaitingInput
                    } else {
                        let range = match self.ecs.items[item] {
                            Some(f) => f.range,
                            None => None,
                        };
                        match range {
                            Some(range) => RunState::ShowTargeting { range, item },
                            None => {
                                let player = self.ecs.player;
                                self.ecs.wants_use.set(
                                    player,
                                    Some(WantsToUseItem { item, target: None, blast: Vec::new() }),
                                );
                                RunState::PlayerTurn
                            },
                        }
                    }
                },
                _ => self.run_state,
            },
            RunState::ShowTargeting { range: _, item } => match input {
                TickInput::Cancel => RunState::AwaitingInput,
                TickInput::PickTarget { target, blast } => {
                    if item >= self.ecs.alive.len() {
                        RunState::AwaitingInput
                    } else {
                        let player = self.ecs.player;
                        self.ecs.wants_use.set(
                            player,
                            Some(WantsToUseItem { item, target: Some(target), blast }),
                        );
                        RunState::PlayerTurn
                    }
                },
                _ => self.run_state,
            },
            RunState::ShowDropItem => match input {
                TickInput::Cancel => RunState::AwaitingInput,
                TickInput::PickItem(item) => {
                    if item >= self.ecs.alive.len() {
                        RunState::AwaitingInput
                    } else {
                        let player = self.ecs.player;
                        self.ecs.wants_drop.set(player, Some(item));
                        RunState::PlayerTurn
                    }
                },
                _ => self.run_state,
            },
            RunState::MainMenu { .. } => match input {
                TickInput::MenuHighlight(sel) => RunState::MainMenu { menu_selection: sel },
                TickInput::MenuChoose(MainMenuSelection::NewGame) => RunState::PreRun,
                TickInput::MenuChoose(MainMenuSelection::LoadGame) => RunState::AwaitingInput,
                _ => self.run_state,
            },
            RunState::SaveGame => RunState::MainMenu { menu_selection: MainMenuSelection::Quit },
            RunState::NextLevel => {
                if self.ecs.map.depth < i32::MAX {
                    self.goto_next_level(rng);
                    RunState::PreRun
                } else {
                    RunState::AwaitingInput
                }
            },
        };
        self.run_state = next;
        let ghost mid = self.ecs;
        proof {
            assert(tick_effect(old(self).run_state, input, old(self).ecs, mid, sights@, spotted@));
        }
        let player_dead = self.ecs.delete_the_dead();
        let ghost sp = spotted@;
        let report = TickReport { spotted, player_dead };
        proof {
            assert(report.spotted@ == sp);
            assert(tick_effect(old(self).run_state, input, old(self).ecs, mid, sights@, report.spotted@)
                && dead_pass(mid, self.ecs, report.player_dead));
        }
        report
    }
}

} // verus!
