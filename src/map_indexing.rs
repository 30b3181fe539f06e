use vstd::prelude::*;
use crate::components::Entity;
use crate::map::{idx_of, MAPCOUNT, TileType};
use crate::world::World;

verus! {

/// Whether `e` stands on the tile of index `i`.
pub open spec fn occupies(w: World, e: int, i: int) -> bool {
    w.positions@[e].is_some() && idx_of(
        w.positions@[e].unwrap().x as int,
        w.positions@[e].unwrap().y as int,
    ) == i
}

/// The entities among the first `k` that stand on tile `i`, in order.
pub open spec fn occupants(w: World, i: int, k: int) -> Seq<Entity>
    decreases k,
{
    if k <= 0 {
        Seq::empty()
    } else if occupies(w, k - 1, i) {
        occupants(w, i, k - 1).push((k - 1) as Entity)
    } else {
        occupants(w, i, k - 1)
    }
}

/// Whether one of the first `k` entities stands on tile `i` and blocks it.
pub open spec fn blocker_at(w: World, i: int, k: int) -> bool
    decreases k,
{
    if k <= 0 {
        false
    } else {
        (occupies(w, k - 1, i) && w.blocks_tile@[k - 1]) || blocker_at(w, i, k - 1)
    }
}

/// Whether `b` is what the indexing pass makes of `a`.
pub open spec fn indexing_pass(a: World, b: World) -> bool {
    &&& b.n() == a.n()
    &&& forall|i: int|
        0 <= i < MAPCOUNT ==> #[trigger] b.map.tile_content@[i]@ == occupants(
            a,
            i,
            a.n() as int,
        )
    &&& forall|i: int|
        0 <= i < MAPCOUNT ==> #[trigger] b.map.blocked@[i] == (
        a.map.tiles@[i] == TileType::Wall || blocker_at(
            a,
            i,
            a.n() as int,
        ))
    &&& b.map.tiles == a.map.tiles
    &&& b.map.rooms == a.map.rooms
    &&& b.map.depth == a.map.depth
    &&& b.map.visible_tiles == a.map.visible_tiles
    &&& b.map.revealed_tiles == a.map.revealed_tiles
    &&& same_but_map(b, a)
}

/// Rebuilds the map's blocking flags and the occupancy of every tile.
pub struct MapIndexingSystem {}

impl MapIndexingSystem {
    pub fn run(&mut self, world: &mut World)
        requires
            old(world).wf(),
        ensures
            final(world).wf(),
            final(world).n() == old(world).n(),
            forall|i: int|
                0 <= i < MAPCOUNT ==> #[trigger] final(world).map.tile_content@[i]@ == occupants(
                    *old(world),
                    i,
                    old(world).n() as int,
                ),
            forall|i: int|
                0 <= i < MAPCOUNT ==> #[trigger] final(world).map.blocked@[i] == (
                old(world).map.tiles@[i] == TileType::Wall || blocker_at(
                    *old(world),
                    i,
                    old(world).n() as int,
                )),
            final(world).map.tiles == old(world).map.tiles,
            final(world).map.rooms == old(world).map.rooms,
            final(world).map.depth == old(world).map.depth,
            final(world).map.visible_tiles == old(world).map.visible_tiles,
            final(world).map.revealed_tiles == old(world).map.revealed_tiles,
            same_but_map(*final(world), *old(world)),
    {
        let n = world.alive.len();
        let mut content: Vec<Vec<Entity>> = Vec::new();
        let mut blocked: Vec<bool> = Vec::new();
        let mut i: usize = 0;
        while i < MAPCOUNT
            invariant
                world.wf(),
                i <= MAPCOUNT,
                content@.len() == i,
                blocked@.len() == i,
                forall|j: int| 0 <= j < i ==> (#[trigger] content@[j])@.len() == 0,
                forall|j: int|
                    0 <= j < i ==> #[trigger] blocked@[j] == (world.map.tiles@[j] == TileType::Wall),
            decreases MAPCOUNT - i,
        {
            content.push(Vec::new());
            blocked.push(world.map.tiles[i] == TileType::Wall);
            i = i + 1;
        }
        let mut e: usize = 0;
        while e < n
            invariant
                world.wf(),
                n == world.n(),
                e <= n,
                content@.len() == MAPCOUNT,
                blocked@.len() == MAPCOUNT,
                forall|j: int|
                    0 <= j < MAPCOUNT ==> #[trigger] content@[j]@ == occupants(*world, j, e as int),
                forall|j: int|
                    0 <= j < MAPCOUNT ==> #[trigger] blocked@[j] == (world.map.tiles@[j] == TileType::Wall
                        || blocker_at(*world, j, e as int)),
                forall|j: int, m: int|
                    0 <= j < MAPCOUNT && 0 <= m < content@[j]@.len() ==> #[trigger] content@[j]@[m] < n,
            decreases n - e,
        {
            match world.positions[e] {
                Some(p) => {
                    let idx = world.map.xy_idx(p.x, p.y);
                    let mut here: Vec<Entity> = Vec::new();
                    content.set_and_swap(idx, &mut here);
                    here.push(e);
                    content.set_and_swap(idx, &mut here);
                    if world.blocks_tile[e] {
                        blocked.set(idx, true);
                    }
                },
                None => {},
            }
            e = e + 1;
        }
        let ghost w0 = *world;
        world.map.tile_content = content;
        world.map.blocked = blocked;
        assert forall|j: int| 0 <= j < MAPCOUNT implies #[trigger] world.map.tile_content@[j]@
            == occupants(*old(world), j, old(world).n() as int) by {
            lemma_occupancy_frame(w0, *old(world), j, n as int);
        }
        assert forall|j: int| 0 <= j < MAPCOUNT implies #[trigger] world.map.blocked@[j] == (
        old(world).map.tiles@[j] == TileType::Wall || blocker_at(*old(world), j, n as int)) by {
            lemma_occupancy_frame(w0, *old(world), j, n as int);
        }
    }
}

/// Occupancy depends on positions and blocking tags alone.
proof fn lemma_occupancy_frame(w1: World, w2: World, i: int, k: int)
    requires
        w1.positions == w2.positions,
        w1.blocks_tile == w2.blocks_tile,
    ensures
        occupants(w1, i, k) == occupants(w2, i, k),
        blocker_at(w1, i, k) == blocker_at(w2, i, k),
    decreases k,
{
    if k > 0 {
        lemma_occupancy_frame(w1, w2, i, k - 1);
    }
}

/// Whether `a` and `b` agree on everything but the map.
pub open spec fn same_but_map(a: World, b: World) -> bool {
    &&& a.alive == b.alive
    &&& a.names == b.names
    &&& a.positions == b.positions
    &&& a.renderables == b.renderables
    &&& a.viewsheds == b.viewsheds
    &&& a.monsters == b.monsters
    &&& a.blocks_tile == b.blocks_tile
    &&& a.stats == b.stats
    &&& a.suffer_damage == b.suffer_damage
    &&& a.items == b.items
    &&& a.in_backpack == b.in_backpack
    &&& a.equipped == b.equipped
    &&& a.disabled == b.disabled
    &&& a.wants_melee == b.wants_melee
    &&& a.wants_pickup == b.wants_pickup
    &&& a.wants_drop == b.wants_drop
    &&& a.wants_use == b.wants_use
    &&& a.wants_remove == b.wants_remove
    &&& a.player == b.player
    &&& a.player_pos == b.player_pos
    &&& a.log == b.log
}

} // verus!
