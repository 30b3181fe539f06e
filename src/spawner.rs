use vstd::prelude::*;
use crate::components::{
    Color, CombatStats, Entity, EquipmentSlot, ItemFacets, Position, Renderable, Viewshed,
};
use crate::map::{in_room, room_fits};
use crate::rand_table::{RandomEntry, RandomTable, SpawnKind};
use crate::rect::Rect;
use crate::rng::roll_dice;
use crate::world::{World, pos_in_bounds};
use rltk::RandomNumberGenerator;

verus! {

const MAX_MONSTERS: i32 = 4;

/// Whether `b` holds every entity of `a` as it was, and maybe more.
pub open spec fn grows(a: World, b: World) -> bool {
    let n = a.n() as int;
    &&& b.n() >= a.n()
    &&& forall|i: int| 0 <= i < n ==> #[trigger] b.alive@[i] == a.alive@[i]
    &&& forall|i: int| 0 <= i < n ==> #[trigger] b.names@[i] == a.names@[i]
    &&& forall|i: int| 0 <= i < n ==> #[trigger] b.positions@[i] == a.positions@[i]
    &&& forall|i: int| 0 <= i < n ==> #[trigger] b.renderables@[i] == a.renderables@[i]
    &&& forall|i: int| 0 <= i < n ==> #[trigger] b.viewsheds@[i] == a.viewsheds@[i]
    &&& forall|i: int| 0 <= i < n ==> #[trigger] b.monsters@[i] == a.monsters@[i]
    &&& forall|i: int| 0 <= i < n ==> #[trigger] b.blocks_tile@[i] == a.blocks_tile@[i]
    &&& forall|i: int| 0 <= i < n ==> #[trigger] b.stats@[i] == a.stats@[i]
    &&& forall|i: int| 0 <= i < n ==> #[trigger] b.suffer_damage@[i] == a.suffer_damage@[i]
    &&& forall|i: int| 0 <= i < n ==> #[trigger] b.items@[i] == a.items@[i]
    &&& forall|i: int| 0 <= i < n ==> #[trigger] b.in_backpack@[i] == a.in_backpack@[i]
    &&& forall|i: int| 0 <= i < n ==> #[trigger] b.equipped@[i] == a.equipped@[i]
    &&& forall|i: int| 0 <= i < n ==> #[trigger] b.disabled@[i] == a.disabled@[i]
    &&& forall|i: int| 0 <= i < n ==> #[trigger] b.wants_melee@[i] == a.wants_melee@[i]
    &&& forall|i: int| 0 <= i < n ==> #[trigger] b.wants_pickup@[i] == a.wants_pickup@[i]
    &&& forall|i: int| 0 <= i < n ==> #[trigger] b.wants_drop@[i] == a.wants_drop@[i]
    &&& forall|i: int| 0 <= i < n ==> #[trigger] b.wants_use@[i] == a.wants_use@[i]
    &&& forall|i: int| 0 <= i < n ==> #[trigger] b.wants_remove@[i] == a.wants_remove@[i]
    &&& forall|i: int| n <= i < b.n() ==> fresh(b, i)
    &&& b.map == a.map
    &&& b.player == a.player
    &&& b.player_pos == a.player_pos
    &&& b.log == a.log
}

/// Whether entity `e` is a thing of kind `k` as the spawners make it: a
/// monster drawn with the kind's letter, or an item with the kind's facets.
pub open spec fn spawned_as(w: World, e: int, k: SpawnKind) -> bool {
    match k {
        SpawnKind::Android => w.monsters@[e] && w.renderables@[e].is_some()
            && w.renderables@[e].unwrap().glyph == 'A',
        SpawnKind::Robot => w.monsters@[e] && w.renderables@[e].is_some()
            && w.renderables@[e].unwrap().glyph == 'R',
        SpawnKind::VoltPack => w.items@[e] == Some(
            ItemFacets { consumable: true, healing: Some(10), ..crate::inventory::no_facets() },
        ),
        SpawnKind::Buster => w.items@[e] == Some(
            ItemFacets {
                consumable: true,
                range: Some(8),
                damage: Some(12),
                ..crate::inventory::no_facets()
            },
        ),
        SpawnKind::Shockwave => w.items@[e] == Some(
            ItemFacets {
                consumable: true,
                range: Some(6),
                damage: Some(30),
                aoe_radius: Some(3),
                ..crate::inventory::no_facets()
            },
        ),
        SpawnKind::Overload => w.items@[e] == Some(
            ItemFacets {
                consumable: true,
                range: Some(8),
                disable_turns: Some(6),
                ..crate::inventory::no_facets()
            },
        ),
        SpawnKind::PowerGlove => w.items@[e] == Some(
            ItemFacets {
                atk_bonus: Some(50),
                slot: Some(EquipmentSlot::Melee),
                ..crate::inventory::no_facets()
            },
        ),
        SpawnKind::ShieldPlus => w.items@[e] == Some(
            ItemFacets {
                def_bonus: Some(20),
                slot: Some(EquipmentSlot::Shield),
                ..crate::inventory::no_facets()
            },
        ),
    }
}

/// Whether `k` is a kind that the table of depth `d` can draw.
pub open spec fn table_kind(d: int, k: SpawnKind) -> bool {
    exists|i: int| 0 <= i < room_entries(d).len() && (#[trigger] room_entries(d)[i]).kind == k
}

/// Whether entity `e` is a thing of a kind that the table of depth `d` can
/// draw.
pub open spec fn kind_ok(w: World, e: int, d: int) -> bool {
    exists|k: SpawnKind| table_kind(d, k) && #[trigger] spawned_as(w, e, k)
}

/// Whether `e` has no request pending and is neither carried nor worn.
pub open spec fn fresh(w: World, e: int) -> bool {
    &&& w.wants_melee@[e].is_none()
    &&& w.wants_pickup@[e].is_none()
    &&& w.wants_drop@[e].is_none()
    &&& w.wants_use@[e].is_none()
    &&& w.wants_remove@[e].is_none()
    &&& w.in_backpack@[e].is_none()
    &&& w.equipped@[e].is_none()
}

/// Adds an entity standing at `(x, y)`, drawn as `r` and called `name`.
fn spawn_at(ecs: &mut World, x: i32, y: i32, r: Renderable, name: String) -> (e: Entity)
    requires
        old(ecs).wf_but_player(),
        old(ecs).n() < usize::MAX,
        pos_in_bounds(Position { x, y }),
    ensures
        final(ecs).wf_but_player(),
        old(ecs).wf() ==> final(ecs).wf(),
        e == old(ecs).n(),
        final(ecs).n() == old(ecs).n() + 1,
        grows(*old(ecs), *final(ecs)),
        final(ecs).alive@[e as int],
        final(ecs).alive@[e as int],
        final(ecs).positions@[e as int] == Some(Position { x, y }),
        final(ecs).renderables@[e as int] == Some(r),
        final(ecs).names@[e as int].is_some(),
        final(ecs).names@[e as int].unwrap()@ == name@,
        final(ecs).viewsheds@[e as int].is_none(),
        !final(ecs).monsters@[e as int],
        !final(ecs).blocks_tile@[e as int],
        final(ecs).stats@[e as int].is_none(),
        final(ecs).items@[e as int].is_none(),
        final(ecs).in_backpack@[e as int].is_none(),
        final(ecs).equipped@[e as int].is_none(),
        final(ecs).wants_use@[e as int].is_none(),
        fresh(*final(ecs), e as int),
{
    let e = ecs.create_entity();
    ecs.positions.set(e, Some(Position { x, y }));
    ecs.renderables.set(e, Some(r));
    ecs.names.set(e, Some(name));
    e
}

/// Adds the player at `(x, y)`.
pub fn player(ecs: &mut World, player_x: i32, player_y: i32) -> (e: Entity)
    requires
        old(ecs).wf_but_player(),
        old(ecs).n() < usize::MAX,
        pos_in_bounds(Position { x: player_x, y: player_y }),
    ensures
        final(ecs).wf_but_player(),
        old(ecs).wf() ==> final(ecs).wf(),
        e == old(ecs).n(),
        final(ecs).n() == old(ecs).n() + 1,
        grows(*old(ecs), *final(ecs)),
        final(ecs).alive@[e as int],
        final(ecs).positions@[e as int] == Some(Position { x: player_x, y: player_y }),
        final(ecs).stats@[e as int] == Some(CombatStats { max_hp: 100, hp: 100, defense: 2, power: 40 }),
        final(ecs).viewsheds@[e as int].is_some(),
        final(ecs).viewsheds@[e as int].unwrap().range == 8,
        final(ecs).viewsheds@[e as int].unwrap().dirty,
        final(ecs).viewsheds@[e as int].unwrap().visible_tiles@.len() == 0,
        final(ecs).renderables@[e as int] == Some(
            Renderable { glyph: '@', fg: Color::Cyan, bg: Color::Black, render_order: 0 },
        ),
        final(ecs).names@[e as int].is_some(),
        final(ecs).names@[e as int].unwrap()@ == "Hero"@,
        !final(ecs).monsters@[e as int],
        final(ecs).items@[e as int].is_none(),
{
    let r = Renderable { glyph: '@', fg: Color::Cyan, bg: Color::Black, render_order: 0 };
    let name = "Hero".to_string();
    proof {
        reveal_strlit("Hero");
    }
    let e = spawn_at(ecs, player_x, player_y, r, name);
    ecs.viewsheds.set(e, Some(Viewshed { visible_tiles: Vec::new(), range: 8, dirty: true }));
    ecs.stats.set(e, Some(CombatStats { max_hp: 100, hp: 100, defense: 2, power: 40 }));
    assert(fresh(*ecs, e as int));
    e
}

/// Adds a monster at `(x, y)`.
pub fn monster(ecs: &mut World, x: i32, y: i32, glyph: char, name: String) -> (e: Entity)
    requires
        old(ecs).wf(),
        old(ecs).n() < usize::MAX,
        pos_in_bounds(Position { x, y }),
    ensures
        final(ecs).wf(),
        e == old(ecs).n(),
        final(ecs).n() == old(ecs).n() + 1,
        grows(*old(ecs), *final(ecs)),
        final(ecs).alive@[e as int],
        final(ecs).positions@[e as int] == Some(Position { x, y }),
        final(ecs).monsters@[e as int],
        final(ecs).blocks_tile@[e as int],
        final(ecs).stats@[e as int] == Some(CombatStats { max_hp: 20, hp: 20, defense: 1, power: 6 }),
        final(ecs).viewsheds@[e as int].is_some(),
        final(ecs).viewsheds@[e as int].unwrap().range == 14,
        final(ecs).viewsheds@[e as int].unwrap().dirty,
        final(ecs).viewsheds@[e as int].unwrap().visible_tiles@.len() == 0,
        final(ecs).items@[e as int].is_none(),
        final(ecs).renderables@[e as int] == Some(
            Renderable { glyph, fg: Color::Red, bg: Color::Black, render_order: 1 },
        ),
        final(ecs).names@[e as int].is_some(),
        final(ecs).names@[e as int].unwrap()@ == name@,
{
    let r = Renderable { glyph, fg: Color::Red, bg: Color::Black, render_order: 1 };
    let e = spawn_at(ecs, x, y, r, name);
    ecs.viewsheds.set(e, Some(Viewshed { visible_tiles: Vec::new(), range: 14, dirty: true }));
    ecs.monsters.set(e, true);
    ecs.blocks_tile.set(e, true);
    ecs.stats.set(e, Some(CombatStats { max_hp: 20, hp: 20, defense: 1, power: 6 }));
    assert(fresh(*ecs, e as int));
    e
}

pub fn android(ecs: &mut World, x: i32, y: i32) -> (e: Entity)
    requires
        old(ecs).wf(),
        old(ecs).n() < usize::MAX,
        pos_in_bounds(Position { x, y }),
    ensures
        final(ecs).wf(),
        e == old(ecs).n(),
        final(ecs).n() == old(ecs).n() + 1,
        grows(*old(ecs), *final(ecs)),
        final(ecs).alive@[e as int],
        final(ecs).positions@[e as int] == Some(Position { x, y }),
        spawned_as(*final(ecs), e as int, SpawnKind::Android),
        final(ecs).monsters@[e as int],
{
    monster(ecs, x, y, 'A', "Android".to_string())
}

pub fn robot(ecs: &mut World, x: i32, y: i32) -> (e: Entity)
    requires
        old(ecs).wf(),
        old(ecs).n() < usize::MAX,
        pos_in_bounds(Position { x, y }),
    ensures
        final(ecs).wf(),
        e == old(ecs).n(),
        final(ecs).n() == old(ecs).n() + 1,
        grows(*old(ecs), *final(ecs)),
        final(ecs).alive@[e as int],
        final(ecs).positions@[e as int] == Some(Position { x, y }),
        spawned_as(*final(ecs), e as int, SpawnKind::Robot),
        final(ecs).monsters@[e as int],
{
    monster(ecs, x, y, 'R', "Robot".to_string())
}

/// Adds an item at `(x, y)` with the given look, name and facets.
pub fn item(ecs: &mut World, x: i32, y: i32, r: Renderable, name: String, facets: ItemFacets) -> (e:
    Entity)
    requires
        old(ecs).wf(),
        old(ecs).n() < usize::MAX,
        pos_in_bounds(Position { x, y }),
    ensures
        final(ecs).wf(),
        e == old(ecs).n(),
        final(ecs).n() == old(ecs).n() + 1,
        grows(*old(ecs), *final(ecs)),
        final(ecs).alive@[e as int],
        final(ecs).positions@[e as int] == Some(Position { x, y }),
        final(ecs).items@[e as int] == Some(facets),
        final(ecs).stats@[e as int].is_none(),
        !final(ecs).monsters@[e as int],
        final(ecs).in_backpack@[e as int].is_none(),
        final(ecs).equipped@[e as int].is_none(),
{
    let e = spawn_at(ecs, x, y, r, name);
    ecs.items.set(e, Some(facets));
    assert(fresh(*ecs, e as int));
    e
}

/// No facets at all; each item kind sets its own.
pub fn plain_facets() -> (f: ItemFacets)
    ensures
        f == crate::inventory::no_facets(),
{
    ItemFacets {
        consumable: false,
        healing: None,
        damage: None,
        aoe_radius: None,
        range: None,
        disable_turns: None,
        slot: None,
        atk_bonus: None,
        def_bonus: None,
    }
}

/// A consumable that heals its user by 10.
pub fn volt_pack(ecs: &mut World, x: i32, y: i32) -> (e: Entity)
    requires
        old(ecs).wf(),
        old(ecs).n() < usize::MAX,
        pos_in_bounds(Position { x, y }),
    ensures
        final(ecs).wf(),
        e == old(ecs).n(),
        final(ecs).n() == old(ecs).n() + 1,
        grows(*old(ecs), *final(ecs)),
        final(ecs).alive@[e as int],
        final(ecs).positions@[e as int] == Some(Position { x, y }),
        final(ecs).items@[e as int] == Some(
            ItemFacets { consumable: true, healing: Some(10), ..crate::inventory::no_facets() },
        ),
        spawned_as(*final(ecs), e as int, SpawnKind::VoltPack),
{
    let r = Renderable { glyph: '±', fg: Color::GhostWhite, bg: Color::Black, render_order: 2 };
    let f = ItemFacets { consumable: true, healing: Some(10), ..plain_facets() };
    item(ecs, x, y, r, "Volt Pack(HP)".to_string(), f)
}

/// A consumable that deals 12 damage at range 8.
pub fn buster(ecs: &mut World, x: i32, y: i32) -> (e: Entity)
    requires
        old(ecs).wf(),
        old(ecs).n() < usize::MAX,
        pos_in_bounds(Position { x, y }),
    ensures
        final(ecs).wf(),
        e == old(ecs).n(),
        final(ecs).n() == old(ecs).n() + 1,
        grows(*old(ecs), *final(ecs)),
        final(ecs).alive@[e as int],
        final(ecs).positions@[e as int] == Some(Position { x, y }),
        final(ecs).items@[e as int] == Some(
            ItemFacets {
                consumable: true,
                range: Some(8),
                damage: Some(12),
                ..crate::inventory::no_facets()
            },
        ),
        spawned_as(*final(ecs), e as int, SpawnKind::Buster),
{
    let r = Renderable { glyph: 'Θ', fg: Color::GreenYellow, bg: Color::Black, render_order: 2 };
    let f = ItemFacets { consumable: true, range: Some(8), damage: Some(12), ..plain_facets() };
    item(ecs, x, y, r, "Buster Chip".to_string(), f)
}

/// A consumable that deals 30 damage in a radius of 3, at range 6.
pub fn shockwave(ecs: &mut World, x: i32, y: i32) -> (e: Entity)
    requires
        old(ecs).wf(),
        old(ecs).n() < usize::MAX,
        pos_in_bounds(Position { x, y }),
    ensures
        final(ecs).wf(),
        e == old(ecs).n(),
        final(ecs).n() == old(ecs).n() + 1,
        grows(*old(ecs), *final(ecs)),
        final(ecs).alive@[e as int],
        final(ecs).positions@[e as int] == Some(Position { x, y }),
        final(ecs).items@[e as int] == Some(
            ItemFacets {
                consumable: true,
                range: Some(6),
                damage: Some(30),
                aoe_radius: Some(3),
                ..crate::inventory::no_facets()
            },
        ),
        spawned_as(*final(ecs), e as int, SpawnKind::Shockwave),
{
    let r = Renderable { glyph: '≡', fg: Color::Yellow2, bg: Color::Black, render_order: 2 };
    let f = ItemFacets {
        consumable: true,
        range: Some(6),
        damage: Some(30),
        aoe_radius: Some(3),
        ..plain_facets()
    };
    item(ecs, x, y, r, "Shockwave Chip".to_string(), f)
}

/// A consumable that disables its target for 6 turns, at range 8.
pub fn overload(ecs: &mut World, x: i32, y: i32) -> (e: Entity)
    requires
        old(ecs).wf(),
        old(ecs).n() < usize::MAX,
        pos_in_bounds(Position { x, y }),
    ensures
        final(ecs).wf(),
        e == old(ecs).n(),
        final(ecs).n() == old(ecs).n() + 1,
        grows(*old(ecs), *final(ecs)),
        final(ecs).alive@[e as int],
        final(ecs).positions@[e as int] == Some(Position { x, y }),
        final(ecs).items@[e as int] == Some(
            ItemFacets {
                consumable: true,
                range: Some(8),
                disable_turns: Some(6),
                ..crate::inventory::no_facets()
            },
        ),
        spawned_as(*final(ecs), e as int, SpawnKind::Overload),
{
    let r = Renderable { glyph: '¿', fg: Color::White, bg: Color::Black, render_order: 2 };
    let f = ItemFacets { consumable: true, range: Some(8), disable_turns: Some(6), ..plain_facets() };
    item(ecs, x, y, r, "Overload Chip".to_string(), f)
}

/// A melee-slot item with an attack bonus of 50.
pub fn powerglove(ecs: &mut World, x: i32, y: i32) -> (e: Entity)
    requires
        old(ecs).wf(),
        old(ecs).n() < usize::MAX,
        pos_in_bounds(Position { x, y }),
    ensures
        final(ecs).wf(),
        e == old(ecs).n(),
        final(ecs).n() == old(ecs).n() + 1,
        grows(*old(ecs), *final(ecs)),
        final(ecs).alive@[e as int],
        final(ecs).positions@[e as int] == Some(Position { x, y }),
        final(ecs).items@[e as int] == Some(
            ItemFacets {
                atk_bonus: Some(50),
                slot: Some(EquipmentSlot::Melee),
                ..crate::inventory::no_facets()
            },
        ),
        spawned_as(*final(ecs), e as int, SpawnKind::PowerGlove),
{
    let r = Renderable { glyph: 'B', fg: Color::Yellow, bg: Color::Black, render_order: 2 };
    let f = ItemFacets { atk_bonus: Some(50), slot: Some(EquipmentSlot::Melee), ..plain_facets() };
    item(ecs, x, y, r, "Powerglove".to_string(), f)
}

/// A shield-slot item with a defense bonus of 20.
pub fn shieldplus(ecs: &mut World, x: i32, y: i32) -> (e: Entity)
    requires
        old(ecs).wf(),
        old(ecs).n() < usize::MAX,
        pos_in_bounds(Position { x, y }),
    ensures
        final(ecs).wf(),
        e == old(ecs).n(),
        final(ecs).n() == old(ecs).n() + 1,
        grows(*old(ecs), *final(ecs)),
        final(ecs).alive@[e as int],
        final(ecs).positions@[e as int] == Some(Position { x, y }),
        final(ecs).items@[e as int] == Some(
            ItemFacets {
                def_bonus: Some(20),
                slot: Some(EquipmentSlot::Shield),
                ..crate::inventory::no_facets()
            },
        ),
        spawned_as(*final(ecs), e as int, SpawnKind::ShieldPlus),
{
    let r = Renderable { glyph: 'O', fg: Color::Yellow, bg: Color::Black, render_order: 2 };
    let f = ItemFacets { def_bonus: Some(20), slot: Some(EquipmentSlot::Shield), ..plain_facets() };
    item(ecs, x, y, r, "Shield+".to_string(), f)
}

/// `s` with an entry for `kind` added when `w` is positive.
pub open spec fn with_entry(s: Seq<RandomEntry>, kind: SpawnKind, w: int) -> Seq<RandomEntry> {
    if w > 0 {
        s.push(RandomEntry { kind, weight: w as i64 })
    } else {
        s
    }
}

/// What rooms hold at a depth, by weight: deeper levels bring more androids,
/// shockwaves and overloads, and volt packs only from the second level.
pub open spec fn room_entries(d: int) -> Seq<RandomEntry> {
    let s0 = with_entry(Seq::empty(), SpawnKind::Android, 1 + d);
    let s1 = with_entry(s0, SpawnKind::Robot, 9);
    let s2 = with_entry(s1, SpawnKind::VoltPack, if 1 < 4 + (d - 5) { 1 } else { 4 + (d - 5) });
    let s3 = with_entry(s2, SpawnKind::Buster, 4);
    let s4 = with_entry(s3, SpawnKind::Shockwave, 1 + d);
    let s5 = with_entry(s4, SpawnKind::Overload, 1 + (d - 4));
    let s6 = with_entry(s5, SpawnKind::PowerGlove, 9);
    with_entry(s6, SpawnKind::ShieldPlus, 9)
}

/// The spawn table of a level at `map_depth`.
pub fn room_table(map_depth: i32) -> (t: RandomTable)
    ensures
        t.wf(),
        t.entries@ == room_entries(map_depth as int),
        t.entries@.len() >= 1,
{
    let d = map_depth as i64;
    let mut t = RandomTable::new();
    t = t.add(SpawnKind::Android, 1 + d);
    t = t.add(SpawnKind::Robot, 9);
    let volt = if 1 < 4 + (d - 5) {
        1
    } else {
        4 + (d - 5)
    };
    t = t.add(SpawnKind::VoltPack, volt);
    t = t.add(SpawnKind::Buster, 4);
    t = t.add(SpawnKind::Shockwave, 1 + d);
    t = t.add(SpawnKind::Overload, 1 + (d - 4));
    t = t.add(SpawnKind::PowerGlove, 9);
    t = t.add(SpawnKind::ShieldPlus, 9);
    t
}

/// An entity that was fresh stays so while the world grows.
pub proof fn lemma_fresh_kept(a: World, b: World, i: int)
    requires
        grows(a, b),
        0 <= i < a.n(),
        fresh(a, i),
    ensures
        fresh(b, i),
{
    assert(b.wants_melee@[i] == a.wants_melee@[i]);
    assert(b.wants_pickup@[i] == a.wants_pickup@[i]);
    assert(b.wants_drop@[i] == a.wants_drop@[i]);
    assert(b.wants_use@[i] == a.wants_use@[i]);
    assert(b.wants_remove@[i] == a.wants_remove@[i]);
    assert(b.in_backpack@[i] == a.in_backpack@[i]);
    assert(b.equipped@[i] == a.equipped@[i]);
}

/// Growing twice is growing.
pub proof fn lemma_grows_trans(a: World, b: World, c: World)
    requires
        grows(a, b),
        grows(b, c),
    ensures
        grows(a, c),
{
    assert forall|i: int| a.n() <= i < c.n() implies fresh(c, i) by {
        if i < b.n() {
            assert(fresh(b, i));
            lemma_fresh_kept(b, c, i);
        }
    }
}

/// Whether no two points share a tile.
pub open spec fn distinct_points(points: Seq<(i32, i32, SpawnKind)>) -> bool {
    forall|a: int, b: int|
        #![trigger points[a], points[b]]
        0 <= a < points.len() && 0 <= b < points.len() && a != b ==> !(points[a].0 == points[b].0
            && points[a].1 == points[b].1)
}

/// Whether `pos` is the tile of one of the first `k` points.
pub open spec fn at_point(points: Seq<(i32, i32, SpawnKind)>, k: int, pos: Option<Position>) -> bool {
    pos.is_some() && exists|j: int|
        0 <= j < k && (#[trigger] points[j]).0 == pos.unwrap().x && points[j].1 == pos.unwrap().y
}

fn has_point(points: &Vec<(i32, i32, SpawnKind)>, x: i32, y: i32) -> (r: bool)
    ensures
        r == exists|k: int| 0 <= k < points@.len() && (#[trigger] points@[k]).0 == x && points@[k].1 == y,
{
    let mut i: usize = 0;
    while i < points.len()
        invariant
            i <= points@.len(),
            forall|k: int| 0 <= k < i ==> !((#[trigger] points@[k]).0 == x && points@[k].1 == y),
        decreases points@.len() - i,
    {
        if points[i].0 == x && points[i].1 == y {
            return true;
        }
        i = i + 1;
    }
    false
}

/// Adds a thing of the given kind at `(x, y)`.
fn spawn_kind(ecs: &mut World, kind: SpawnKind, x: i32, y: i32) -> (e: Entity)
    requires
        old(ecs).wf(),
        old(ecs).n() < usize::MAX,
        pos_in_bounds(Position { x, y }),
    ensures
        final(ecs).wf(),
        e == old(ecs).n(),
        final(ecs).n() == old(ecs).n() + 1,
        grows(*old(ecs), *final(ecs)),
        final(ecs).alive@[e as int],
        final(ecs).positions@[e as int] == Some(Position { x, y }),
        spawned_as(*final(ecs), e as int, kind),
{
    match kind {
        SpawnKind::Android => android(ecs, x, y),
        SpawnKind::Robot => robot(ecs, x, y),
        SpawnKind::VoltPack => volt_pack(ecs, x, y),
        SpawnKind::Buster => buster(ecs, x, y),
        SpawnKind::Shockwave => shockwave(ecs, x, y),
        SpawnKind::Overload => overload(ecs, x, y),
        SpawnKind::PowerGlove => powerglove(ecs, x, y),
        SpawnKind::ShieldPlus => shieldplus(ecs, x, y),
    }
}

/// Whether `pts` could be what is drawn for `room` at depth `d`: distinct
/// tiles inside the room, kinds the depth's table can draw, no more than
/// `d + 3` of them, and at least one from depth 4 on.
pub open spec fn spawn_points_ok(pts: Seq<(i32, i32, SpawnKind)>, room: Rect, d: int) -> bool {
    &&& distinct_points(pts)
    &&& forall|k: int|
        0 <= k < pts.len() ==> in_room(room, (#[trigger] pts[k]).0 as int, pts[k].1 as int)
            && table_kind(d, pts[k].2)
    &&& pts.len() <= if d + 3 > 0 { d + 3 } else { 0 }
    &&& d >= 4 ==> pts.len() >= 1
}

/// Whether `b` is `a` with one new entity for each point, in order, of the
/// point's kind and on its tile.
pub open spec fn placed(a: World, b: World, pts: Seq<(i32, i32, SpawnKind)>) -> bool {
    &&& grows(a, b)
    &&& b.n() == a.n() + pts.len()
    &&& placed_upto(a, b, pts, pts.len() as int)
}

/// Whether the first `k` points have their entities in `b`, after those of `a`.
pub open spec fn placed_upto(a: World, b: World, pts: Seq<(i32, i32, SpawnKind)>, k: int) -> bool {
    forall|j: int|
        0 <= j < k ==> {
            &&& b.alive@[a.n() + j]
            &&& #[trigger] b.positions@[a.n() + j] == Some(Position { x: pts[j].0, y: pts[j].1 })
            &&& spawned_as(b, a.n() + j, pts[j].2)
        }
}

/// Draws what a room at `map_depth` holds: how many things (one die of
/// seven, plus the depth, less four), and for each a free tile of the room
/// (up to twenty tries) and a kind from the depth's table.
pub fn draw_spawn_points(room: &Rect, map_depth: i32, rng: &mut RandomNumberGenerator) -> (pts: Vec<
    (i32, i32, SpawnKind),
>)
    requires
        room_fits(*room),
    ensures
        spawn_points_ok(pts@, *room, map_depth as int),
{
    let table = room_table(map_depth);
    let mut points: Vec<(i32, i32, SpawnKind)> = Vec::new();
    let num_spawns: i64 = roll_dice(rng, 1, MAX_MONSTERS + 3) as i64 + (map_depth as i64 - 1) - 3;
    let mut i: i64 = 0;
    while i < num_spawns
        invariant
            table.wf(),
            table.entries@ == room_entries(map_depth as int),
            table.entries@.len() >= 1,
            room_fits(*room),
            distinct_points(points@),
            0 <= i,
            i <= num_spawns || i == 0,
            points@.len() <= i,
            num_spawns <= map_depth + 3,
            map_depth >= 4 ==> num_spawns >= 1,
            i > 0 ==> points@.len() >= 1,
            forall|k: int|
                0 <= k < points@.len() ==> in_room(
                    *room,
                    (#[trigger] points@[k]).0 as int,
                    points@[k].1 as int,
                ) && table_kind(map_depth as int, points@[k].2),
        decreases num_spawns - i,
    {
        let mut added = false;
        let mut tries: i32 = 0;
        while !added && tries < 20
            invariant
                table.wf(),
                table.entries@ == room_entries(map_depth as int),
                table.entries@.len() >= 1,
                room_fits(*room),
                distinct_points(points@),
                0 <= tries <= 20,
                points@.len() <= i + if added { 1int } else { 0int },
                points@.len() == 0 ==> !added && tries == 0,
                i > 0 ==> points@.len() >= 1,
                forall|k: int|
                    0 <= k < points@.len() ==> in_room(
                        *room,
                        (#[trigger] points@[k]).0 as int,
                        points@[k].1 as int,
                    ) && table_kind(map_depth as int, points@[k].2),
            decreases 20 - tries + if added { 0int } else { 1int },
        {
            let x = room.x1 + roll_dice(rng, 1, room.x2 - room.x1);
            let y = room.y1 + roll_dice(rng, 1, room.y2 - room.y1);
            if !has_point(&points, x, y) {
                match table.roll(rng) {
                    Some(kind) => {
                        let ghost before = points@;
                        points.push((x, y, kind));
                        assert forall|a: int, b: int|
                            #![trigger points@[a], points@[b]]
                            0 <= a < points@.len() && 0 <= b < points@.len() && a != b implies !(
                            points@[a].0 == points@[b].0 && points@[a].1 == points@[b].1) by {
                            if a < before.len() && b < before.len() {
                                assert(before[a] == points@[a] && before[b] == points@[b]);
                            } else if a < before.len() {
                                assert(before[a] == points@[a]);
                            } else if b < before.len() {
                                assert(before[b] == points@[b]);
                            }
                        }
                        assert forall|k: int| 0 <= k < points@.len() implies in_room(
                            *room,
                            (#[trigger] points@[k]).0 as int,
                            points@[k].1 as int,
                        ) && table_kind(map_depth as int, points@[k].2) by {
                            if k < before.len() {
                                assert(before[k] == points@[k]);
                            }
                        }
                    },
                    None => {},
                }
                added = true;
            } else {
                tries = tries + 1;
            }
        }
        i = i + 1;
    }
    points
}

/// Adds one thing per point, in order: the point's kind on its tile.
pub fn place_spawns(ecs: &mut World, pts: &Vec<(i32, i32, SpawnKind)>)
    requires
        old(ecs).wf(),
        old(ecs).n() + pts@.len() <= usize::MAX,
        forall|k: int| 0 <= k < pts@.len() ==> pos_in_bounds(
            Position { x: (#[trigger] pts@[k]).0, y: pts@[k].1 },
        ),
    ensures
        final(ecs).wf(),
        placed(*old(ecs), *final(ecs), pts@),
{
    let ghost start = *ecs;
    let mut k: usize = 0;
    while k < pts.len()
        invariant
            ecs.wf(),
            start == *old(ecs),
            start.n() + pts@.len() <= usize::MAX,
            forall|j: int| 0 <= j < pts@.len() ==> pos_in_bounds(
                Position { x: (#[trigger] pts@[j]).0, y: pts@[j].1 },
            ),
            k <= pts@.len(),
            grows(start, *ecs),
            ecs.n() == start.n() + k,
            placed_upto(start, *ecs, pts@, k as int),
        decreases pts@.len() - k,
    {
        let (x, y, kind) = pts[k];
        assert(pos_in_bounds(Position { x: pts@[k as int].0, y: pts@[k as int].1 }));
        let ghost before = *ecs;
        let e = spawn_kind(ecs, kind, x, y);
        proof {
            lemma_grows_trans(start, before, *ecs);
            assert forall|j: int| 0 <= j < k + 1 implies {
                &&& ecs.alive@[start.n() + j]
                &&& #[trigger] ecs.positions@[start.n() + j] == Some(Position { x: pts@[j].0, y: pts@[j].1 })
                &&& spawned_as(*ecs, start.n() + j, pts@[j].2)
            } by {
                if j < k {
                    let i = start.n() + j;
                    assert(before.positions@[i] == Some(Position { x: pts@[j].0, y: pts@[j].1 }));
                    assert(spawned_as(before, i, pts@[j].2));
                    assert(before.alive@[i] == ecs.alive@[i]);
                    assert(before.positions@[i] == ecs.positions@[i]);
                    assert(before.monsters@[i] == ecs.monsters@[i]);
                    assert(before.renderables@[i] == ecs.renderables@[i]);
                    assert(before.items@[i] == ecs.items@[i]);
                }
            }
            assert(placed_upto(start, *ecs, pts@, k + 1));
        }
        k = k + 1;
    }
}

/// Fills `room` with what is drawn for it at `map_depth` (see
/// `draw_spawn_points`), each thing on a tile of its own inside the room;
/// nothing is added when the world has no room left for that many entities.
pub fn spawn_room(ecs: &mut World, room: &Rect, map_depth: i32, rng: &mut RandomNumberGenerator)
    requires
        old(ecs).wf(),
        room_fits(*room),
    ensures
        final(ecs).wf(),
        grows(*old(ecs), *final(ecs)),
        exists|pts: Seq<(i32, i32, SpawnKind)>|
            #[trigger] spawn_points_ok(pts, *room, map_depth as int) && if old(ecs).n() + pts.len()
                <= usize::MAX {
                placed(*old(ecs), *final(ecs), pts)
            } else {
                *final(ecs) == *old(ecs)
            },
        final(ecs).n() <= old(ecs).n() + if map_depth + 3 > 0 { map_depth + 3 } else { 0 },
        map_depth >= 4 && old(ecs).n() + map_depth + 3 <= usize::MAX ==> final(ecs).n() > old(ecs).n(),
        forall|e: int|
            old(ecs).n() <= e < final(ecs).n() ==> (#[trigger] final(ecs).positions@[e]).is_some()
                && in_room(
                *room,
                final(ecs).positions@[e].unwrap().x as int,
                final(ecs).positions@[e].unwrap().y as int,
            ),
        forall|e: int|
            old(ecs).n() <= e < final(ecs).n() ==> #[trigger] kind_ok(*final(ecs), e, map_depth as int),
{
    let pts = draw_spawn_points(room, map_depth, rng);
    proof {
        assert forall|k: int| 0 <= k < pts@.len() implies pos_in_bounds(
            Position { x: (#[trigger] pts@[k]).0, y: pts@[k].1 },
        ) by {
            assert(in_room(*room, pts@[k].0 as int, pts@[k].1 as int));
        }
    }
    let ghost start = *ecs;
    if ecs.alive.len() <= usize::MAX - pts.len() {
        place_spawns(ecs, &pts);
        proof {
            assert forall|e: int| start.n() <= e < ecs.n() implies (#[trigger] ecs.positions@[e]).is_some()
                && in_room(
                *room,
                ecs.positions@[e].unwrap().x as int,
                ecs.positions@[e].unwrap().y as int,
            ) && kind_ok(*ecs, e, map_depth as int) by {
                let j = e - start.n();
                assert(ecs.positions@[start.n() + j] == Some(Position { x: pts@[j].0, y: pts@[j].1 }));
                assert(in_room(*room, pts@[j].0 as int, pts@[j].1 as int) && table_kind(
                    map_depth as int,
                    pts@[j].2,
                ));
                assert(spawned_as(*ecs, e, pts@[j].2));
            }
            assert forall|e: int| start.n() <= e < ecs.n() implies #[trigger] kind_ok(
                *ecs,
                e,
                map_depth as int,
            ) by {
                let j = e - start.n();
                assert(ecs.positions@[start.n() + j] == Some(Position { x: pts@[j].0, y: pts@[j].1 }));
                assert(table_kind(map_depth as int, pts@[j].2));
                assert(spawned_as(*ecs, e, pts@[j].2));
            }
        }
    }
    proof {
        assert(spawn_points_ok(pts@, *room, map_depth as int));
    }
}

} // verus!
