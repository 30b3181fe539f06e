use vstd::prelude::*;
use crate::components::{Entity, Position, Viewshed, WantsToPickupItem};
use crate::map::{idx_of, MAPCOUNT, MAPHEIGHT, MAPWIDTH, TileType};
use crate::state::{PlayerIntent, RunState, State};
use crate::world::{LogEntry, World, pos_in_bounds, same_but_log};

verus! {

/// The first entity of `s` from place `k` on that has combat stats.
pub open spec fn fighter_from(w: World, s: Seq<Entity>, k: int) -> Option<Entity>
    decreases s.len() - k,
{
    if k < 0 || k >= s.len() {
        None
    } else if w.stats@[s[k] as int].is_some() {
        Some(s[k])
    } else {
        fighter_from(w, s, k + 1)
    }
}

/// Where the player would step: `None` when the player has no position or
/// view, or the step leaves the grid's inner part (the last row and column
/// may be entered, the first may not).
pub open spec fn step_target(w: World, dx: int, dy: int) -> Option<Position> {
    let p = w.positions@[w.player as int];
    if p.is_none() || w.viewsheds@[w.player as int].is_none() {
        None
    } else {
        let x = p.unwrap().x + dx;
        let y = p.unwrap().y + dy;
        if x < 1 || x > MAPWIDTH - 1 || y < 1 || y > MAPHEIGHT - 1 {
            None
        } else {
            Some(Position { x: x as i32, y: y as i32 })
        }
    }
}

/// The last item among the first `k` entities that lies on the player's tile.
pub open spec fn item_at_player(w: World, k: int) -> Option<Entity>
    decreases k,
{
    if k <= 0 {
        None
    } else if w.items@[k - 1].is_some() && w.positions@[k - 1] == Some(w.player_pos) {
        Some((k - 1) as Entity)
    } else {
        item_at_player(w, k - 1)
    }
}

/// Whether a monster stands on one of the first `k` tiles the player sees.
pub open spec fn monster_in_view(w: World, k: int) -> bool {
    exists|j: int, m: Entity|
        #![trigger w.viewsheds@[w.player as int].unwrap().visible_tiles@[j], w.monsters@[m as int]]
        0 <= j < k && pos_in_bounds(w.viewsheds@[w.player as int].unwrap().visible_tiles@[j])
            && w.map.tile_content@[idx_of(
            w.viewsheds@[w.player as int].unwrap().visible_tiles@[j].x as int,
            w.viewsheds@[w.player as int].unwrap().visible_tiles@[j].y as int,
        )]@.contains(m) && m < w.n() && w.monsters@[m as int]
}

/// The player's hit points after a turn of rest: one more, up to the maximum.
pub open spec fn rested_hp(hp: int, max_hp: int) -> int {
    if hp < max_hp {
        hp + 1
    } else {
        max_hp
    }
}

/// Whether `v` is `w` after the player's step by `(dx, dy)`: nothing when
/// the step leaves the inner grid; an attack on the first fighter on the
/// target tile; else a move there unless it is blocked.
pub open spec fn stepped(w: World, v: World, dx: int, dy: int) -> bool {
    match step_target(w, dx, dy) {
        None => v == w,
        Some(t) => {
            let here = w.map.tile_content@[idx_of(t.x as int, t.y as int)]@;
            match fighter_from(w, here, 0) {
                Some(f) => {
                    &&& v.wants_melee@ == w.wants_melee@.update(w.player as int, Some(f))
                    &&& v.positions == w.positions
                    &&& v.player_pos == w.player_pos
                    &&& v.viewsheds == w.viewsheds
                },
                None => if w.map.blocked@[idx_of(t.x as int, t.y as int)] {
                    v == w
                } else {
                    &&& v.positions@ == w.positions@.update(w.player as int, Some(t))
                    &&& v.player_pos == t
                    &&& v.viewsheds@[w.player as int].unwrap().dirty
                    &&& v.viewsheds@[w.player as int].unwrap().range
                        == w.viewsheds@[w.player as int].unwrap().range
                    &&& v.wants_melee == w.wants_melee
                },
            }
        },
    }
}

/// Whether `v` is `w` after the player looks for something to pick up: a
/// request for the last item on the player's tile, or a note that there is
/// none.
pub open spec fn pickup_requested(w: World, v: World) -> bool {
    match item_at_player(w, w.n() as int) {
        None => {
            &&& v.wants_pickup == w.wants_pickup
            &&& v.log@ == w.log@.push(LogEntry::NothingToPickup)
        },
        Some(item) => {
            &&& v.wants_pickup@ == w.wants_pickup@.update(
                w.player as int,
                Some(WantsToPickupItem { collected_by: w.player, item }),
            )
            &&& v.log == w.log
        },
    }
}

/// Whether `v` is `w` after a turn of rest: with combat stats, a view and
/// no monster in it, the player gains a hit point up to the maximum and the
/// log says so; else nothing changes.
pub open spec fn rested(w: World, v: World) -> bool {
    let p = w.player as int;
    let rests = w.viewsheds@[p].is_some() && w.stats@[p].is_some() && !monster_in_view(
        w,
        w.viewsheds@[p].unwrap().visible_tiles@.len() as int,
    );
    if rests {
        &&& v.stats@ == w.stats@.update(
            p,
            Some(
                crate::components::CombatStats {
                    max_hp: w.stats@[p].unwrap().max_hp,
                    hp: rested_hp(w.stats@[p].unwrap().hp as int, w.stats@[p].unwrap().max_hp as int)
                        as i32,
                    defense: w.stats@[p].unwrap().defense,
                    power: w.stats@[p].unwrap().power,
                },
            ),
        )
        &&& v.log@ == w.log@.push(LogEntry::Recharging)
    } else {
        v == w
    }
}

/// Whether the player stands on the stairs down; logs that it is not
/// possible when not.
pub fn try_next_level(ecs: &mut World) -> (r: bool)
    requires
        old(ecs).wf(),
    ensures
        r == (old(ecs).map.tile(old(ecs).player_pos.x as int, old(ecs).player_pos.y as int)
            == TileType::DownStairs),
        same_but_log(*final(ecs), *old(ecs)),
        r ==> final(ecs).log == old(ecs).log,
        !r ==> final(ecs).log@ == old(ecs).log@.push(LogEntry::NotPossible),
{
    let idx = ecs.map.xy_idx(ecs.player_pos.x, ecs.player_pos.y);
    if ecs.map.tiles[idx] == TileType::DownStairs {
        true
    } else {
        ecs.log.push(LogEntry::NotPossible);
        false
    }
}

/// Moves the player by `(dx, dy)`, or attacks what stands there.
pub fn try_move_player(dx: i32, dy: i32, ecs: &mut World)
    requires
        old(ecs).wf(),
    ensures
        final(ecs).wf(),
        stepped(*old(ecs), *final(ecs), dx as int, dy as int),
        final(ecs).alive == old(ecs).alive,
        final(ecs).stats == old(ecs).stats,
        final(ecs).items == old(ecs).items,
        final(ecs).map == old(ecs).map,
        final(ecs).player == old(ecs).player,
        final(ecs).log == old(ecs).log,
{
    let player = ecs.player;
    let pos = match ecs.positions[player] {
        Some(p) => p,
        None => {
            return ;
        },
    };
    if ecs.viewsheds[player].is_none() {
        return ;
    }
    let x: i64 = pos.x as i64 + dx as i64;
    let y: i64 = pos.y as i64 + dy as i64;
    if x < 1 || x > ecs.map.width as i64 - 1 || y < 1 || y > ecs.map.height as i64 - 1 {
        return ;
    }
    let t = Position { x: x as i32, y: y as i32 };
    let dest = ecs.map.xy_idx(t.x, t.y);
    let n = ecs.alive.len();
    assert(step_target(*ecs, dx as int, dy as int) == Some(t));
    let mut k: usize = 0;
    while k < ecs.map.tile_content[dest].len()
        invariant
            ecs.wf(),
            step_target(*ecs, dx as int, dy as int) == Some(t),
            dest == idx_of(t.x as int, t.y as int),
            *ecs == *old(ecs),
            player == ecs.player,
            n == ecs.n(),
            dest < MAPCOUNT,
            k <= ecs.map.tile_content@[dest as int]@.len(),
            fighter_from(*ecs, ecs.map.tile_content@[dest as int]@, 0) == fighter_from(
                *ecs,
                ecs.map.tile_content@[dest as int]@,
                k as int,
            ),
        decreases ecs.map.tile_content@[dest as int]@.len() - k,
    {
        let candidate = ecs.map.tile_content[dest][k];
        if ecs.stats[candidate].is_some() {
            assert(fighter_from(*ecs, ecs.map.tile_content@[dest as int]@, k as int) == Some(
                candidate,
            ));
            ecs.wants_melee.set(player, Some(candidate));
            return ;
        }
        k = k + 1;
    }
    if !ecs.map.blocked[dest] {
        ecs.positions.set(player, Some(t));
        let mut taken: Option<Viewshed> = None;
        ecs.viewsheds.set_and_swap(player, &mut taken);
        match taken {
            Some(vs) => {
                ecs.viewsheds.set(
                    player,
                    Some(Viewshed { visible_tiles: vs.visible_tiles, range: vs.range, dirty: true }),
                );
            },
            None => {},
        }
        ecs.player_pos = t;
    }
}

/// Asks to pick up the last item lying on the player's tile; logs that
/// there is nothing when there is none.
pub fn get_item(ecs: &mut World)
    requires
        old(ecs).wf(),
    ensures
        final(ecs).wf(),
        pickup_requested(*old(ecs), *final(ecs)),
        final(ecs).alive == old(ecs).alive,
        final(ecs).positions == old(ecs).positions,
        final(ecs).in_backpack == old(ecs).in_backpack,
        final(ecs).stats == old(ecs).stats,
        final(ecs).map == old(ecs).map,
        final(ecs).player == old(ecs).player,
        final(ecs).player_pos == old(ecs).player_pos,
{
    let n = ecs.alive.len();
    let mut found: Option<Entity> = None;
    let mut e: usize = 0;
    while e < n
        invariant
            ecs.wf(),
            n == ecs.n(),
            e <= n,
            found == item_at_player(*ecs, e as int),
            found.is_some() ==> found.unwrap() < n,
        decreases n - e,
    {
        if ecs.items[e].is_some() && ecs.positions[e] == Some(ecs.player_pos) {
            found = Some(e);
        }
        e = e + 1;
    }
    match found {
        None => {
            ecs.log.push(LogEntry::NothingToPickup);
        },
        Some(item) => {
            let player = ecs.player;
            ecs.wants_pickup.set(player, Some(WantsToPickupItem { collected_by: player, item }));
        },
    }
}

/// Rests a turn: when no monster is in sight and the player has combat
/// stats, the player regains one hit point, up to the maximum.
pub fn skip_turn(ecs: &mut World) -> (r: RunState)
    requires
        old(ecs).wf(),
    ensures
        r == RunState::PlayerTurn,
        final(ecs).wf(),
        rested(*old(ecs), *final(ecs)),
        final(ecs).alive == old(ecs).alive,
        final(ecs).positions == old(ecs).positions,
        final(ecs).map == old(ecs).map,
        final(ecs).player == old(ecs).player,
        final(ecs).player_pos == old(ecs).player_pos,
{
    let player = ecs.player;
    let stats = match ecs.stats[player] {
        Some(s) => s,
        None => {
            return RunState::PlayerTurn;
        },
    };
    let seen = match &ecs.viewsheds[player] {
        Some(vs) => {
            let mut can_heal = true;
            let mut j: usize = 0;
            while j < vs.visible_tiles.len()
                invariant
                    ecs.wf(),
                    player == ecs.player,
                    ecs.viewsheds@[player as int] == Some(*vs),
                    j <= vs.visible_tiles@.len(),
                    can_heal == !monster_in_view(*ecs, j as int),
                decreases vs.visible_tiles@.len() - j,
            {
                let t = vs.visible_tiles[j];
                if 0 <= t.x && t.x < ecs.map.width && 0 <= t.y && t.y < ecs.map.height {
                    let idx = ecs.map.xy_idx(t.x, t.y);
                    let mut m: usize = 0;
                    while m < ecs.map.tile_content[idx].len()
                        invariant
                            ecs.wf(),
                            player == ecs.player,
                            ecs.viewsheds@[player as int] == Some(*vs),
                            j < vs.visible_tiles@.len(),
                            t == vs.visible_tiles@[j as int],
                            pos_in_bounds(t),
                            idx == idx_of(t.x as int, t.y as int),
                            idx < MAPCOUNT,
                            m <= ecs.map.tile_content@[idx as int]@.len(),
                            can_heal ==> forall|q: int|
                                0 <= q < m ==> !ecs.monsters@[#[trigger] ecs.map.tile_content@[idx as int]@[q] as int],
                            !can_heal ==> monster_in_view(*ecs, j + 1),
                            can_heal ==> !monster_in_view(*ecs, j as int),
                        decreases ecs.map.tile_content@[idx as int]@.len() - m,
                    {
                        let occupant = ecs.map.tile_content[idx][m];
                        if ecs.monsters[occupant] {
                            if can_heal {
                                assert(ecs.map.tile_content@[idx as int]@[m as int] == occupant);
                                assert(ecs.viewsheds@[player as int].unwrap().visible_tiles@[j as int] == t);
                                assert(monster_in_view(*ecs, j + 1));
                            }
                            can_heal = false;
                        }
                        m = m + 1;
                    }
                    proof {
                        if can_heal {
                            assert forall|jj: int, mm: Entity|
                                #![trigger ecs.viewsheds@[ecs.player as int].unwrap().visible_tiles@[jj], ecs.monsters@[mm as int]]
                                0 <= jj < j + 1 && pos_in_bounds(ecs.viewsheds@[ecs.player as int].unwrap().visible_tiles@[jj])
                                    && ecs.map.tile_content@[idx_of(
                                    ecs.viewsheds@[ecs.player as int].unwrap().visible_tiles@[jj].x as int,
                                    ecs.viewsheds@[ecs.player as int].unwrap().visible_tiles@[jj].y as int,
                                )]@.contains(mm) && mm < ecs.n() implies !ecs.monsters@[mm as int] by {
                                if jj == j {
                                    let q = choose|q: int|
                                        0 <= q < ecs.map.tile_content@[idx as int]@.len()
                                            && ecs.map.tile_content@[idx as int]@[q] == mm;
                                    assert(!ecs.monsters@[ecs.map.tile_content@[idx as int]@[q] as int]);
                                }
                            }
                        }
                    }
                } else {
                    proof {
                        if can_heal {
                            assert forall|jj: int, mm: Entity|
                                #![trigger ecs.viewsheds@[ecs.player as int].unwrap().visible_tiles@[jj], ecs.monsters@[mm as int]]
                                0 <= jj < j + 1 && pos_in_bounds(ecs.viewsheds@[ecs.player as int].unwrap().visible_tiles@[jj])
                                    && ecs.map.tile_content@[idx_of(
                                    ecs.viewsheds@[ecs.player as int].unwrap().visible_tiles@[jj].x as int,
                                    ecs.viewsheds@[ecs.player as int].unwrap().visible_tiles@[jj].y as int,
                                )]@.contains(mm) && mm < ecs.n() implies !ecs.monsters@[mm as int] by {
                                if jj == j {
                                    assert(ecs.viewsheds@[ecs.player as int].unwrap().visible_tiles@[jj] == t);
                                }
                            }
                        }
                    }
                }
                if !can_heal {
                    assert(monster_in_view(*ecs, vs.visible_tiles@.len() as int)) by {
                        let (jj, mm) = choose|jj: int, mm: Entity|
                            #![trigger ecs.viewsheds@[ecs.player as int].unwrap().visible_tiles@[jj], ecs.monsters@[mm as int]]
                            0 <= jj < j + 1 && pos_in_bounds(ecs.viewsheds@[ecs.player as int].unwrap().visible_tiles@[jj])
                                && ecs.map.tile_content@[idx_of(
                                ecs.viewsheds@[ecs.player as int].unwrap().visible_tiles@[jj].x as int,
                                ecs.viewsheds@[ecs.player as int].unwrap().visible_tiles@[jj].y as int,
                            )]@.contains(mm) && mm < ecs.n() && ecs.monsters@[mm as int];
                    }
                    j = vs.visible_tiles.len();
                } else {
                    j = j + 1;
                }
            }
            can_heal
        },
        None => {
            return RunState::PlayerTurn;
        },
    };
    if seen {
        let hp = if stats.hp < stats.max_hp {
            stats.hp + 1
        } else {
            stats.max_hp
        };
        ecs.stats.set(
            player,
            Some(
                crate::components::CombatStats {
                    max_hp: stats.max_hp,
                    hp,
                    defense: stats.defense,
                    power: stats.power,
                },
            ),
        );
        ecs.log.push(LogEntry::Recharging);
    }
    RunState::PlayerTurn
}

/// The phase that follows what the player asked for: descending needs the
/// stairs, menus and saving have phases of their own, and everything else
/// takes the player's turn.
pub open spec fn intent_state(w: World, intent: Option<PlayerIntent>) -> RunState {
    match intent {
        None => RunState::AwaitingInput,
        Some(PlayerIntent::Descend) => if w.map.tile(w.player_pos.x as int, w.player_pos.y as int)
            == TileType::DownStairs {
            RunState::NextLevel
        } else {
            RunState::PlayerTurn
        },
        Some(PlayerIntent::Save) => RunState::SaveGame,
        Some(PlayerIntent::OpenDropMenu) => RunState::ShowDropItem,
        Some(PlayerIntent::OpenInventory) => RunState::ShowInventory,
        _ => RunState::PlayerTurn,
    }
}

/// Whether `v` is what the player's request makes of `w`: a step, a pickup
/// request or a rest as asked; asking to descend off the stairs only logs
/// that it is not possible; anything else changes nothing.
pub open spec fn input_effect(w: World, v: World, intent: Option<PlayerIntent>) -> bool {
    match intent {
        Some(PlayerIntent::Move { dx, dy }) => stepped(w, v, dx as int, dy as int),
        Some(PlayerIntent::Pickup) => pickup_requested(w, v),
        Some(PlayerIntent::Wait) => rested(w, v),
        Some(PlayerIntent::Descend) => {
            &&& same_but_log(v, w)
            &&& if w.map.tile(w.player_pos.x as int, w.player_pos.y as int) == TileType::DownStairs {
                v.log == w.log
            } else {
                v.log@ == w.log@.push(LogEntry::NotPossible)
            }
        },
        _ => v == w,
    }
}

/// Acts on what the player asked for and says which phase follows.
pub fn player_input(gs: &mut State, intent: Option<PlayerIntent>) -> (r: RunState)
    requires
        old(gs).ecs.wf(),
    ensures
        final(gs).ecs.wf(),
        final(gs).run_state == old(gs).run_state,
        r == intent_state(old(gs).ecs, intent),
        input_effect(old(gs).ecs, final(gs).ecs, intent),
{
    match intent {
        None => RunState::AwaitingInput,
        Some(PlayerIntent::Descend) => {
            if try_next_level(&mut gs.ecs) {
                RunState::NextLevel
            } else {
                RunState::PlayerTurn
            }
        },
        Some(PlayerIntent::Wait) => skip_turn(&mut gs.ecs),
        Some(PlayerIntent::Save) => RunState::SaveGame,
        Some(PlayerIntent::OpenDropMenu) => RunState::ShowDropItem,
        Some(PlayerIntent::OpenInventory) => RunState::ShowInventory,
        Some(PlayerIntent::Pickup) => {
            get_item(&mut gs.ecs);
            RunState::PlayerTurn
        },
        Some(PlayerIntent::Move { dx, dy }) => {
            try_move_player(dx, dy, &mut gs.ecs);
            RunState::PlayerTurn
        },
    }
}

} // verus!
