use mainframe::components::{CombatStats, EquipmentSlot, Equipped, Position, WantsToPickupItem, WantsToUseItem};
use mainframe::damage::DamageSystem;
use mainframe::effects::heal;
use mainframe::inventory::{InventorySystem, ItemDropSystem, ItemRemoveSystem, ItemUseSystem};
use mainframe::map::{GameMap, TileType, MAPHEIGHT, MAPWIDTH};
use mainframe::map_indexing::MapIndexingSystem;
use mainframe::melee::MeleeCombatSystem;
use mainframe::player::{get_item, skip_turn, try_move_player, try_next_level};
use mainframe::rand_table::{RandomTable, SpawnKind};
use mainframe::rect::Rect;
use mainframe::spawner::{monster, player, powerglove, shieldplus, shockwave, volt_pack};
use mainframe::state::{new_game, PlayerIntent, RunState, TickInput};
use mainframe::visibility::Sight;
use mainframe::world::{LogEntry, World};
use rltk::RandomNumberGenerator;

fn world_with_player(x: i32, y: i32) -> World {
    let mut w = World::new(GameMap::new_solid(1));
    let p = player(&mut w, x, y);
    w.player = p;
    w.player_pos = Position { x, y };
    w
}

fn disk(cx: i32, cy: i32, r: i32) -> Vec<Position> {
    let mut out = Vec::new();
    for y in (cy - r)..=(cy + r) {
        for x in (cx - r)..=(cx + r) {
            let dx = x - cx;
            let dy = y - cy;
            if dx * dx + dy * dy <= r * r {
                out.push(Position { x, y });
            }
        }
    }
    out
}

#[test]
fn rect_new_intersect_center() {
    let a = Rect::new(2, 3, 6, 8);
    assert_eq!((a.x1, a.y1, a.x2, a.y2), (2, 3, 8, 11));
    assert_eq!(a.center(), (5, 7));
    let b = Rect::new(8, 11, 4, 4);
    assert!(a.intersect(&b));
    assert!(b.intersect(&a));
    let c = Rect::new(9, 3, 4, 4);
    assert!(!a.intersect(&c));
    assert_eq!(Rect::new(-5, -5, 2, 2).center(), (-4, -4));
}

#[test]
fn melee_resolution_with_bonuses() {
    let mut w = world_with_player(10, 10);
    let p = w.player;
    w.stats[p] = Some(CombatStats { max_hp: 100, hp: 100, defense: 0, power: 10 });
    let foe = monster(&mut w, 11, 10, 'R', "Robot".to_string());
    w.stats[foe] = Some(CombatStats { max_hp: 100, hp: 100, defense: 2, power: 6 });
    let glove = powerglove(&mut w, 1, 1);
    w.equip_item(glove, p, EquipmentSlot::Melee);
    let shield = shieldplus(&mut w, 1, 2);
    w.equip_item(shield, foe, EquipmentSlot::Shield);
    w.wants_melee[p] = Some(foe);
    MeleeCombatSystem {}.run(&mut w);
    assert_eq!(w.suffer_damage[foe], vec![38]);
    assert!(w.wants_melee.iter().all(|m| m.is_none()));
    DamageSystem {}.run(&mut w);
    assert_eq!(w.stats[foe].unwrap().hp, 62);
    assert!(w.suffer_damage[foe].is_empty());
    assert!(matches!(w.log.last(), Some(LogEntry::Hit { damage: 38, .. })));
}

#[test]
fn melee_without_effect_logs_no_harm() {
    let mut w = world_with_player(10, 10);
    let p = w.player;
    w.stats[p] = Some(CombatStats { max_hp: 100, hp: 100, defense: 0, power: 1 });
    let foe = monster(&mut w, 11, 10, 'R', "Robot".to_string());
    w.wants_melee[p] = Some(foe);
    MeleeCombatSystem {}.run(&mut w);
    assert!(w.suffer_damage[foe].is_empty());
    assert!(matches!(w.log.last(), Some(LogEntry::NoHarm { .. })));
}

#[test]
fn dead_target_is_not_hit() {
    let mut w = world_with_player(10, 10);
    let p = w.player;
    let foe = monster(&mut w, 11, 10, 'R', "Robot".to_string());
    w.stats[foe] = Some(CombatStats { max_hp: 20, hp: 0, defense: 0, power: 6 });
    w.wants_melee[p] = Some(foe);
    MeleeCombatSystem {}.run(&mut w);
    assert!(w.suffer_damage[foe].is_empty());
}

#[test]
fn aoe_consumable_hits_only_in_radius() {
    let mut w = world_with_player(10, 10);
    let p = w.player;
    let item = shockwave(&mut w, 10, 10);
    w.positions[item] = None;
    w.in_backpack[item] = Some(p);
    let a = monster(&mut w, 20, 20, 'R', "Robot".to_string());
    let b = monster(&mut w, 22, 21, 'R', "Robot".to_string());
    let c = monster(&mut w, 30, 30, 'R', "Robot".to_string());
    MapIndexingSystem {}.run(&mut w);
    let target = Position { x: 20, y: 20 };
    w.wants_use[p] = Some(WantsToUseItem { item, target: Some(target), blast: disk(20, 20, 3) });
    ItemUseSystem {}.run(&mut w);
    assert_eq!(w.suffer_damage[a], vec![30]);
    assert_eq!(w.suffer_damage[b], vec![30]);
    assert!(w.suffer_damage[c].is_empty());
    assert!(!w.alive[item]);
    assert!(w.items[item].is_none());
    assert!(w.wants_use.iter().all(|u| u.is_none()));
}

#[test]
fn aoe_blast_skips_the_border() {
    let mut w = world_with_player(10, 10);
    let p = w.player;
    let item = shockwave(&mut w, 10, 10);
    let edge = monster(&mut w, 0, 5, 'R', "Robot".to_string());
    MapIndexingSystem {}.run(&mut w);
    w.wants_use[p] = Some(WantsToUseItem { item, target: Some(Position { x: 1, y: 5 }), blast: disk(1, 5, 3) });
    ItemUseSystem {}.run(&mut w);
    assert!(w.suffer_damage[edge].is_empty());
    // A consumable that fires is used up even when it reaches nobody.
    assert!(!w.alive[item]);
}

#[test]
fn healing_item_heals_user_and_is_consumed() {
    let mut w = world_with_player(10, 10);
    let p = w.player;
    w.stats[p] = Some(CombatStats { max_hp: 100, hp: 95, defense: 2, power: 40 });
    let pack = volt_pack(&mut w, 10, 10);
    w.wants_use[p] = Some(WantsToUseItem { item: pack, target: None, blast: Vec::new() });
    ItemUseSystem {}.run(&mut w);
    assert_eq!(w.stats[p].unwrap().hp, 100);
    assert!(!w.alive[pack]);
    assert!(matches!(w.log.last(), Some(LogEntry::Heal { amount: 10, .. })));
}

#[test]
fn healing_clamps_at_maximum() {
    let s = CombatStats { max_hp: 50, hp: 45, defense: 0, power: 0 };
    assert_eq!(heal(s, 10).hp, 50);
    assert_eq!(heal(s, 3).hp, 48);
    assert_eq!(heal(s, 0).hp, 45);
    let low = CombatStats { max_hp: 50, hp: i32::MIN + 1, defense: 0, power: 0 };
    assert_eq!(heal(low, -5).hp, i32::MIN);
}

#[test]
fn damage_totals_entries_once() {
    let mut w = world_with_player(10, 10);
    let foe = monster(&mut w, 11, 10, 'R', "Robot".to_string());
    w.suffer_damage[foe] = vec![3, 4, 5];
    DamageSystem {}.run(&mut w);
    assert_eq!(w.stats[foe].unwrap().hp, 8);
    DamageSystem {}.run(&mut w);
    assert_eq!(w.stats[foe].unwrap().hp, 8);
    w.suffer_damage[foe] = vec![10];
    DamageSystem {}.run(&mut w);
    assert_eq!(w.stats[foe].unwrap().hp, -2);
}

#[test]
fn the_dead_leave_but_the_player_is_reported() {
    let mut w = world_with_player(10, 10);
    let p = w.player;
    let foe = monster(&mut w, 11, 10, 'R', "Robot".to_string());
    w.stats[foe] = Some(CombatStats { max_hp: 20, hp: 0, defense: 1, power: 6 });
    assert!(!w.delete_the_dead());
    assert!(!w.alive[foe]);
    assert!(w.positions[foe].is_none());
    w.stats[p] = Some(CombatStats { max_hp: 100, hp: -3, defense: 2, power: 40 });
    assert!(w.delete_the_dead());
    assert!(w.alive[p]);
}

#[test]
fn pickup_drop_round_trip() {
    let mut w = world_with_player(5, 5);
    let p = w.player;
    let item = volt_pack(&mut w, 5, 5);
    get_item(&mut w);
    assert_eq!(w.wants_pickup[p], Some(WantsToPickupItem { collected_by: p, item }));
    InventorySystem {}.run(&mut w);
    assert_eq!(w.in_backpack[item], Some(p));
    assert!(w.positions[item].is_none());
    w.wants_drop[p] = Some(item);
    ItemDropSystem {}.run(&mut w);
    assert_eq!(w.positions[item], Some(Position { x: 5, y: 5 }));
    assert!(w.in_backpack[item].is_none());
    assert!(w.wants_pickup.iter().all(|x| x.is_none()));
    assert!(w.wants_drop.iter().all(|x| x.is_none()));
}

#[test]
fn nothing_to_pick_up() {
    let mut w = world_with_player(5, 5);
    get_item(&mut w);
    assert!(w.wants_pickup.iter().all(|x| x.is_none()));
    assert!(matches!(w.log.last(), Some(LogEntry::NothingToPickup)));
}

#[test]
fn equipping_replaces_the_item_in_the_slot() {
    let mut w = world_with_player(5, 5);
    let p = w.player;
    let first = powerglove(&mut w, 1, 1);
    let second = powerglove(&mut w, 1, 2);
    w.wants_use[p] = Some(WantsToUseItem { item: first, target: None, blast: Vec::new() });
    ItemUseSystem {}.run(&mut w);
    assert_eq!(w.equipped[first], Some(Equipped { owner: p, slot: EquipmentSlot::Melee }));
    w.wants_use[p] = Some(WantsToUseItem { item: second, target: None, blast: Vec::new() });
    ItemUseSystem {}.run(&mut w);
    assert_eq!(w.equipped[second], Some(Equipped { owner: p, slot: EquipmentSlot::Melee }));
    assert!(w.equipped[first].is_none());
    assert_eq!(w.in_backpack[first], Some(p));
    assert!(w.alive[first] && w.alive[second]);
    let worn = w.equipped.iter().filter(|e| **e == Some(Equipped { owner: p, slot: EquipmentSlot::Melee })).count();
    assert_eq!(worn, 1);
}

#[test]
fn remove_puts_item_in_backpack() {
    let mut w = world_with_player(5, 5);
    let p = w.player;
    let glove = powerglove(&mut w, 1, 1);
    w.equip_item(glove, p, EquipmentSlot::Melee);
    w.wants_remove[p] = Some(glove);
    ItemRemoveSystem {}.run(&mut w);
    assert!(w.equipped[glove].is_none());
    assert_eq!(w.in_backpack[glove], Some(p));
}

#[test]
fn moving_into_a_monster_attacks_it() {
    let mut w = world_with_player(10, 10);
    for i in 0..w.map.tiles.len() {
        w.map.tiles[i] = TileType::Floor;
    }
    let p = w.player;
    let foe = monster(&mut w, 11, 10, 'R', "Robot".to_string());
    MapIndexingSystem {}.run(&mut w);
    try_move_player(1, 0, &mut w);
    assert_eq!(w.wants_melee[p], Some(foe));
    assert_eq!(w.positions[p], Some(Position { x: 10, y: 10 }));
    w.wants_melee[p] = None;
    try_move_player(0, 1, &mut w);
    assert_eq!(w.positions[p], Some(Position { x: 10, y: 11 }));
    assert_eq!(w.player_pos, Position { x: 10, y: 11 });
    assert!(w.viewsheds[p].as_ref().unwrap().dirty);
}

#[test]
fn walls_and_edges_stop_movement() {
    let mut w = world_with_player(1, 1);
    let p = w.player;
    MapIndexingSystem {}.run(&mut w);
    try_move_player(-1, 0, &mut w);
    assert_eq!(w.positions[p], Some(Position { x: 1, y: 1 }));
    try_move_player(1, 0, &mut w);
    assert_eq!(w.positions[p], Some(Position { x: 1, y: 1 }));
}

#[test]
fn descending_needs_stairs() {
    let mut w = world_with_player(3, 3);
    assert!(!try_next_level(&mut w));
    assert!(matches!(w.log.last(), Some(LogEntry::NotPossible)));
    let idx = w.map.xy_idx(3, 3);
    w.map.tiles[idx] = TileType::DownStairs;
    assert!(try_next_level(&mut w));
}

#[test]
fn resting_recharges_one_point_out_of_sight() {
    let mut w = world_with_player(10, 10);
    let p = w.player;
    w.stats[p] = Some(CombatStats { max_hp: 100, hp: 50, defense: 2, power: 40 });
    assert_eq!(skip_turn(&mut w), RunState::PlayerTurn);
    assert_eq!(w.stats[p].unwrap().hp, 51);
    let foe = monster(&mut w, 12, 10, 'R', "Robot".to_string());
    MapIndexingSystem {}.run(&mut w);
    w.viewsheds[p].as_mut().unwrap().visible_tiles = vec![Position { x: 12, y: 10 }];
    assert_eq!(skip_turn(&mut w), RunState::PlayerTurn);
    assert_eq!(w.stats[p].unwrap().hp, 51);
    assert!(w.alive[foe]);
}

#[test]
fn generated_rooms_do_not_overlap_and_connect() {
    for seed in 1..20u64 {
        let mut rng = RandomNumberGenerator::seeded(seed);
        let map = GameMap::new_map_rooms_and_corridors(1, &mut rng);
        assert!(!map.rooms.is_empty());
        for i in 0..map.rooms.len() {
            for j in 0..map.rooms.len() {
                if i != j {
                    assert!(!map.rooms[i].intersect(&map.rooms[j]));
                }
            }
        }
        let (sx, sy) = map.rooms[0].center();
        let mut seen = vec![false; MAPWIDTH * MAPHEIGHT];
        let mut stack = vec![(sx, sy)];
        while let Some((x, y)) = stack.pop() {
            let idx = map.xy_idx(x, y);
            if seen[idx] || map.tiles[idx] == TileType::Wall {
                continue;
            }
            seen[idx] = true;
            stack.push((x + 1, y));
            stack.push((x - 1, y));
            stack.push((x, y + 1));
            stack.push((x, y - 1));
        }
        for idx in 0..map.tiles.len() {
            if map.tiles[idx] != TileType::Wall {
                assert!(seen[idx], "seed {} tile {} unreachable", seed, idx);
            }
        }
        let (lx, ly) = map.rooms[map.rooms.len() - 1].center();
        assert_eq!(map.tiles[map.xy_idx(lx, ly)], TileType::DownStairs);
    }
}

#[test]
fn level_transition_keeps_carried_items() {
    let mut rng = RandomNumberGenerator::seeded(7);
    let mut st = new_game(&mut rng);
    let p = st.ecs.player;
    let (px, py) = (st.ecs.player_pos.x, st.ecs.player_pos.y);
    let carried = volt_pack(&mut st.ecs, px, py);
    st.ecs.positions[carried] = None;
    st.ecs.in_backpack[carried] = Some(p);
    let left = volt_pack(&mut st.ecs, px, py);
    let old_count = st.ecs.alive.len();
    st.ecs.stats[p] = Some(CombatStats { max_hp: 100, hp: 10, defense: 2, power: 40 });
    st.goto_next_level(&mut rng);
    assert_eq!(st.ecs.map.depth, 2);
    assert!(st.ecs.alive[carried]);
    assert_eq!(st.ecs.in_backpack[carried], Some(p));
    assert!(!st.ecs.alive[left]);
    for e in 0..old_count {
        if e != p && e != carried {
            assert!(!st.ecs.alive[e]);
        }
    }
    let (cx, cy) = st.ecs.map.rooms[0].center();
    assert_eq!(st.ecs.positions[p], Some(Position { x: cx, y: cy }));
    assert_eq!(st.ecs.stats[p].unwrap().hp, 50);
    assert!(st.ecs.viewsheds[p].as_ref().unwrap().dirty);
    assert!(matches!(st.ecs.log.last(), Some(LogEntry::NextLevel)));
}

#[test]
fn a_turn_drains_every_intent() {
    let mut rng = RandomNumberGenerator::seeded(3);
    let mut st = new_game(&mut rng);
    let p = st.ecs.player;
    st.run_state = RunState::PlayerTurn;
    let (px, py) = (st.ecs.player_pos.x, st.ecs.player_pos.y);
    let carried = volt_pack(&mut st.ecs, px, py);
    st.ecs.positions[carried] = None;
    st.ecs.in_backpack[carried] = Some(p);
    let glove = powerglove(&mut st.ecs, px, py);
    st.ecs.positions[glove] = None;
    st.ecs.equip_item(glove, p, EquipmentSlot::Melee);
    st.ecs.wants_drop[p] = Some(carried);
    st.ecs.wants_remove[p] = Some(glove);
    st.ecs.wants_pickup[p] = Some(WantsToPickupItem { collected_by: p, item: carried });
    let sights: Vec<Sight> = Vec::new();
    let report = st.tick(TickInput::Idle, &sights, &mut rng);
    assert!(!report.player_dead);
    assert_eq!(st.run_state, RunState::MonsterTurn);
    let w = &st.ecs;
    assert!(w.wants_melee.iter().all(|x| x.is_none()));
    assert!(w.wants_pickup.iter().all(|x| x.is_none()));
    assert!(w.wants_drop.iter().all(|x| x.is_none()));
    assert!(w.wants_use.iter().all(|x| x.is_none()));
    assert!(w.wants_remove.iter().all(|x| x.is_none()));
    assert_eq!(w.in_backpack[glove], Some(p));
    assert_eq!(w.positions[carried], Some(Position { x: px, y: py }));
}

#[test]
fn menus_and_keys_move_between_phases() {
    let mut rng = RandomNumberGenerator::seeded(5);
    let mut st = new_game(&mut rng);
    let sights: Vec<Sight> = Vec::new();
    st.tick(TickInput::MenuChoose(mainframe::state::MainMenuSelection::NewGame), &sights, &mut rng);
    assert_eq!(st.run_state, RunState::PreRun);
    st.tick(TickInput::Idle, &sights, &mut rng);
    assert_eq!(st.run_state, RunState::AwaitingInput);
    st.tick(TickInput::Key(PlayerIntent::OpenInventory), &sights, &mut rng);
    assert_eq!(st.run_state, RunState::ShowInventory);
    st.tick(TickInput::Cancel, &sights, &mut rng);
    assert_eq!(st.run_state, RunState::AwaitingInput);
    st.tick(TickInput::Key(PlayerIntent::Save), &sights, &mut rng);
    assert_eq!(st.run_state, RunState::SaveGame);
}

#[test]
fn random_table_picks_by_weight() {
    let t = RandomTable::new().add(SpawnKind::Robot, 3).add(SpawnKind::Buster, 0).add(SpawnKind::Android, 2);
    assert_eq!(t.total_weight, 5);
    assert_eq!(t.entries.len(), 2);
    assert_eq!(t.pick(0), Some(SpawnKind::Robot));
    assert_eq!(t.pick(2), Some(SpawnKind::Robot));
    assert_eq!(t.pick(3), Some(SpawnKind::Android));
    assert_eq!(t.pick(5), None);
    let mut rng = RandomNumberGenerator::seeded(11);
    for _ in 0..50 {
        assert!(t.roll(&mut rng).is_some());
    }
    assert_eq!(RandomTable::new().roll(&mut rng), None);
}

#[test]
fn room_table_weights_follow_depth() {
    let first = mainframe::spawner::room_table(1);
    assert!(first.entries.iter().all(|e| e.kind != SpawnKind::VoltPack && e.kind != SpawnKind::Overload));
    assert_eq!(first.total_weight, 2 + 9 + 4 + 2 + 9 + 9);
    let sixth = mainframe::spawner::room_table(6);
    assert!(sixth.entries.iter().any(|e| e.kind == SpawnKind::VoltPack && e.weight == 1));
    assert!(sixth.entries.iter().any(|e| e.kind == SpawnKind::Overload && e.weight == 3));
}

#[test]
fn render_list_draws_lowest_order_last() {
    let mut w = world_with_player(10, 10);
    let pack = volt_pack(&mut w, 3, 3);
    let foe = monster(&mut w, 12, 10, 'R', "Robot".to_string());
    let idx = w.map.xy_idx(12, 10);
    w.map.visible_tiles[idx] = true;
    let list = w.render_list();
    let order: Vec<i32> = list.iter().map(|it| it.render.render_order).collect();
    assert_eq!(order, vec![2, 1, 0]);
    assert_eq!(list[0].entity, pack);
    assert_eq!(list[1].entity, foe);
    assert!(list[1].visible);
    assert!(!list[0].visible);
    assert_eq!(list[2].entity, w.player);
}

#[test]
fn snapshot_round_trip_renumbers_relations() {
    let mut w = world_with_player(5, 5);
    let p = w.player;
    let gone = volt_pack(&mut w, 6, 6);
    let glove = powerglove(&mut w, 1, 1);
    w.positions[glove] = None;
    w.equip_item(glove, p, EquipmentSlot::Melee);
    let pack = volt_pack(&mut w, 7, 7);
    w.positions[pack] = None;
    w.in_backpack[pack] = Some(p);
    w.delete_entity(gone);
    let snap = w.snapshot();
    assert_eq!(snap.entities.len(), 3);
    assert_eq!(snap.player, 0);
    assert_eq!(snap.entities[1].equipped, Some((0, EquipmentSlot::Melee)));
    assert_eq!(snap.entities[2].in_backpack, Some(0));
    let back = mainframe::snapshot::restore(snap).expect("restorable");
    assert_eq!(back.alive.len(), 3);
    assert_eq!(back.player, 0);
    assert_eq!(back.player_pos, Position { x: 5, y: 5 });
    assert_eq!(back.equipped[1], Some(Equipped { owner: 0, slot: EquipmentSlot::Melee }));
    assert_eq!(back.in_backpack[2], Some(0));
    assert_eq!(back.names[0].as_deref(), Some("Hero"));
    assert!(back.viewsheds[0].as_ref().unwrap().dirty);
}

#[test]
fn snapshot_with_dangling_owner_is_refused() {
    let w = world_with_player(5, 5);
    let mut snap = w.snapshot();
    snap.entities[0].in_backpack = Some(9);
    assert!(mainframe::snapshot::restore(snap).is_none());
    let mut short = w.snapshot();
    short.tiles.pop();
    assert!(mainframe::snapshot::restore(short).is_none());
}

#[test]
fn item_used_without_target_reaches_its_user() {
    let mut w = world_with_player(10, 10);
    let p = w.player;
    let foe = monster(&mut w, 12, 10, 'R', "Robot".to_string());
    w.stats[foe] = Some(CombatStats { max_hp: 20, hp: 5, defense: 1, power: 6 });
    w.stats[p] = Some(CombatStats { max_hp: 100, hp: 50, defense: 2, power: 40 });
    let pack = volt_pack(&mut w, 12, 10);
    w.wants_use[foe] = Some(WantsToUseItem { item: pack, target: None, blast: Vec::new() });
    ItemUseSystem {}.run(&mut w);
    assert_eq!(w.stats[foe].unwrap().hp, 15);
    assert_eq!(w.stats[p].unwrap().hp, 50);
    assert!(!w.alive[pack]);
}

#[test]
fn two_use_requests_resolve_in_entity_order() {
    let mut w = world_with_player(10, 10);
    let p = w.player;
    let foe = monster(&mut w, 12, 10, 'R', "Robot".to_string());
    let glove = powerglove(&mut w, 1, 1);
    let pack = volt_pack(&mut w, 1, 2);
    w.stats[foe] = Some(CombatStats { max_hp: 20, hp: 5, defense: 1, power: 6 });
    w.wants_use[p] = Some(WantsToUseItem { item: glove, target: None, blast: Vec::new() });
    w.wants_use[foe] = Some(WantsToUseItem { item: pack, target: None, blast: Vec::new() });
    ItemUseSystem {}.run(&mut w);
    assert_eq!(w.equipped[glove], Some(Equipped { owner: p, slot: EquipmentSlot::Melee }));
    assert_eq!(w.stats[foe].unwrap().hp, 15);
    assert!(!w.alive[pack]);
}

#[test]
fn melee_then_damage_in_one_turn() {
    let mut rng = RandomNumberGenerator::seeded(9);
    let mut st = new_game(&mut rng);
    let p = st.ecs.player;
    let (px, py) = (st.ecs.player_pos.x, st.ecs.player_pos.y);
    st.ecs.stats[p] = Some(CombatStats { max_hp: 50, hp: 50, defense: 0, power: 10 });
    let foe = monster(&mut st.ecs, px, py, 'R', "Robot".to_string());
    st.ecs.stats[foe] = Some(CombatStats { max_hp: 50, hp: 50, defense: 2, power: 0 });
    let glove = powerglove(&mut st.ecs, px, py);
    st.ecs.positions[glove] = None;
    st.ecs.equip_item(glove, p, EquipmentSlot::Melee);
    let shield = shieldplus(&mut st.ecs, px, py);
    st.ecs.positions[shield] = None;
    st.ecs.equip_item(shield, foe, EquipmentSlot::Shield);
    st.ecs.wants_melee[p] = Some(foe);
    let sights: Vec<Sight> = Vec::new();
    st.run_systems(&sights);
    assert_eq!(st.ecs.stats[foe].unwrap().hp, 12);
    assert!(st.ecs.suffer_damage[foe].is_empty());
}

#[test]
fn build_map_keeps_rooms_that_meet_no_earlier_room() {
    let draws = vec![
        mainframe::map::RoomDraw { room: Rect::new(2, 2, 6, 6), row_first: true },
        mainframe::map::RoomDraw { room: Rect::new(5, 5, 6, 6), row_first: false },
        mainframe::map::RoomDraw { room: Rect::new(20, 10, 7, 6), row_first: false },
    ];
    let map = GameMap::build_map(3, &draws);
    assert_eq!(map.rooms.len(), 2);
    assert_eq!((map.rooms[0].x1, map.rooms[1].x1), (2, 20));
    assert_eq!(map.depth, 3);
    let (cx, cy) = map.rooms[1].center();
    assert_eq!(map.tiles[map.xy_idx(cx, cy)], TileType::DownStairs);
    let (ax, ay) = map.rooms[0].center();
    assert_eq!(map.tiles[map.xy_idx(ax, cy)], TileType::Floor);
}

#[test]
fn placed_spawns_follow_the_points() {
    let mut w = world_with_player(5, 5);
    let before = w.alive.len();
    let pts = vec![(3, 4, SpawnKind::Robot), (6, 7, SpawnKind::Shockwave)];
    mainframe::spawner::place_spawns(&mut w, &pts);
    assert_eq!(w.alive.len(), before + 2);
    assert!(w.monsters[before] && w.alive[before]);
    assert_eq!(w.positions[before], Some(Position { x: 3, y: 4 }));
    assert_eq!(w.items[before + 1].unwrap().aoe_radius, Some(3));
    assert_eq!(w.positions[before + 1], Some(Position { x: 6, y: 7 }));
}

#[test]
fn deep_rooms_are_never_empty() {
    let mut rng = RandomNumberGenerator::seeded(21);
    let room = Rect::new(10, 10, 8, 8);
    for depth in [4, 5, 40] {
        let pts = mainframe::spawner::draw_spawn_points(&room, depth, &mut rng);
        assert!(!pts.is_empty());
        assert!(pts.len() as i32 <= depth + 3);
    }
}

#[test]
fn descending_from_a_deep_level() {
    let mut rng = RandomNumberGenerator::seeded(2);
    let mut st = new_game(&mut rng);
    st.ecs.map.depth = 5_000;
    st.run_state = RunState::NextLevel;
    let sights: Vec<Sight> = Vec::new();
    st.tick(TickInput::Idle, &sights, &mut rng);
    assert_eq!(st.run_state, RunState::PreRun);
    assert_eq!(st.ecs.map.depth, 5_001);
}
