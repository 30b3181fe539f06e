use vstd::prelude::*;
use crate::components::{Entity, Position, Viewshed};
use crate::map::{idx_of, MAPCOUNT};
use crate::world::{pos_in_bounds, World};

verus! {

/// The tiles of `s` that lie on the grid, in order.
pub open spec fn clip(s: Seq<Position>) -> Seq<Position>
    decreases s.len(),
{
    if s.len() == 0 {
        Seq::empty()
    } else if pos_in_bounds(s.last()) {
        clip(s.drop_last()).push(s.last())
    } else {
        clip(s.drop_last())
    }
}

/// Whether some tile of `s` on the grid has index `i`.
pub open spec fn covers(s: Seq<Position>, i: int) -> bool {
    exists|k: int|
        0 <= k < s.len() && pos_in_bounds(#[trigger] s[k]) && idx_of(s[k].x as int, s[k].y as int)
            == i
}

/// Whether `a` and `b` agree on all but the views and the map's visible and
/// revealed tiles.
pub open spec fn same_but_views(a: World, b: World) -> bool {
    &&& a.alive == b.alive
    &&& a.names == b.names
    &&& a.positions == b.positions
    &&& a.renderables == b.renderables
    &&& a.monsters == b.monsters
    &&& a.blocks_tile == b.blocks_tile
    &&& a.stats == b.stats
    &&& a.suffer_damage == b.suffer_damage
    &&& a.items == b.items
    &&& a.in_backpack == b.in_backpack
    &&& a.equipped == b.equipped
    &&& a.disabled == b.disabled
    &&& a.wants_melee == b.wants_melee
    &&& a.wants_pickup == b.wants_pickup
    &&& a.wants_drop == b.wants_drop
    &&& a.wants_use == b.wants_use
    &&& a.wants_remove == b.wants_remove
    &&& a.player == b.player
    &&& a.player_pos == b.player_pos
    &&& a.log == b.log
    &&& a.map.tiles == b.map.tiles
    &&& a.map.blocked == b.map.blocked
    &&& a.map.tile_content == b.map.tile_content
    &&& a.map.rooms == b.map.rooms
    &&& a.map.width == b.map.width
    &&& a.map.height == b.map.height
    &&& a.map.depth == b.map.depth
}

/// Whether `e`'s view is out of date.
pub open spec fn is_stale(w: World, e: Entity) -> bool {
    w.viewsheds@[e as int].is_some() && w.viewsheds@[e as int].unwrap().dirty
}

/// What a viewer sees: the tiles that field of view found, one request per
/// viewer whose view is out of date.
pub struct Sight {
    pub viewer: Entity,
    pub tiles: Vec<Position>,
}

impl World {
    /// The viewers whose view is out of date, with where they stand and how
    /// far they see.
    pub fn dirty_viewers(&self) -> (r: Vec<(Entity, Position, i32)>)
        requires
            self.wf(),
        ensures
            forall|k: int|
                0 <= k < r@.len() ==> {
                    let (e, p, range) = #[trigger] r@[k];
                    &&& e < self.n()
                    &&& self.viewsheds@[e as int].is_some()
                    &&& self.viewsheds@[e as int].unwrap().dirty
                    &&& self.viewsheds@[e as int].unwrap().range == range
                    &&& self.positions@[e as int] == Some(p)
                },
            forall|e: Entity|
                e < self.n() && self.viewsheds@[e as int].is_some() && self.viewsheds@[e as int].unwrap().dirty
                    && self.positions@[e as int].is_some() ==> exists|k: int|
                    0 <= k < r@.len() && (#[trigger] r@[k]).0 == e,
    {
        let n = self.alive.len();
        let mut r: Vec<(Entity, Position, i32)> = Vec::new();
        let mut e: usize = 0;
        while e < n
            invariant
                self.wf(),
                n == self.n(),
                e <= n,
                forall|k: int|
                    0 <= k < r@.len() ==> {
                        let (e, p, range) = #[trigger] r@[k];
                        &&& e < self.n()
                        &&& self.viewsheds@[e as int].is_some()
                        &&& self.viewsheds@[e as int].unwrap().dirty
                        &&& self.viewsheds@[e as int].unwrap().range == range
                        &&& self.positions@[e as int] == Some(p)
                    },
                forall|x: Entity|
                    x < e && self.viewsheds@[x as int].is_some() && self.viewsheds@[x as int].unwrap().dirty
                        && self.positions@[x as int].is_some() ==> exists|k: int|
                        0 <= k < r@.len() && (#[trigger] r@[k]).0 == x,
            decreases n - e,
        {
            match &self.viewsheds[e] {
                Some(vs) => {
                    match self.positions[e] {
                        Some(p) => {
                            if vs.dirty {
                                let ghost before = r@;
                                r.push((e, p, vs.range));
                                assert(r@[r@.len() - 1].0 == e);
                                assert forall|x: Entity|
                                    x < e && self.viewsheds@[x as int].is_some()
                                        && self.viewsheds@[x as int].unwrap().dirty
                                        && self.positions@[x as int].is_some() implies exists|k: int|
                                    0 <= k < r@.len() && (#[trigger] r@[k]).0 == x by {
                                    let k = choose|k: int| 0 <= k < before.len() && (#[trigger] before[k]).0 == x;
                                    assert(r@[k] == before[k]);
                                }
                            }
                        },
                        None => {},
                    }
                },
                None => {},
            }
            e = e + 1;
        }
        r
    }

    /// Stores what `viewer` sees, if its view was out of date: the tiles
    /// of `fov` on the grid. For the player, the map's visible tiles become
    /// those, and they are marked revealed for good.
    pub fn update_viewshed(&mut self, viewer: Entity, fov: &Vec<Position>)
        requires
            old(self).wf(),
            viewer < old(self).n(),
        ensures
            final(self).wf(),
            final(self).n() == old(self).n(),
            is_stale(*old(self), viewer) ==> final(self).viewsheds@[viewer as int].is_some(),
            is_stale(*old(self), viewer) ==> final(self).viewsheds@[viewer as int].unwrap().visible_tiles@
                == clip(fov@),
            is_stale(*old(self), viewer) ==> final(self).viewsheds@[viewer as int].unwrap().range
                == old(self).viewsheds@[viewer as int].unwrap().range,
            is_stale(*old(self), viewer) ==> !final(self).viewsheds@[viewer as int].unwrap().dirty,
            !is_stale(*old(self), viewer) ==> final(self).viewsheds@[viewer as int] == old(self).viewsheds@[viewer as int],
            is_stale(*old(self), viewer) && viewer == old(self).player ==> forall|i: int|
                0 <= i < MAPCOUNT ==> #[trigger] final(self).map.visible_tiles@[i] == covers(fov@, i),
            is_stale(*old(self), viewer) && viewer == old(self).player ==> forall|i: int|
                0 <= i < MAPCOUNT ==> #[trigger] final(self).map.revealed_tiles@[i] == (old(self).map.revealed_tiles@[i] || covers(fov@, i)),
            !(is_stale(*old(self), viewer) && viewer == old(self).player) ==> final(self).map == old(self).map,
            forall|e: int|
                0 <= e < old(self).n() && e != viewer ==> #[trigger] final(self).viewsheds@[e]
                    == old(self).viewsheds@[e],
            final(self).map.tiles == old(self).map.tiles,
            final(self).map.blocked == old(self).map.blocked,
            final(self).map.tile_content == old(self).map.tile_content,
            final(self).map.rooms == old(self).map.rooms,
            final(self).map.depth == old(self).map.depth,
            final(self).alive == old(self).alive,
            final(self).positions == old(self).positions,
            final(self).monsters == old(self).monsters,
            final(self).stats == old(self).stats,
            final(self).player == old(self).player,
            final(self).equipped == old(self).equipped,
            final(self).wants_melee == old(self).wants_melee,
            final(self).wants_pickup == old(self).wants_pickup,
            final(self).wants_drop == old(self).wants_drop,
            final(self).wants_use == old(self).wants_use,
            final(self).wants_remove == old(self).wants_remove,
            final(self).player_pos == old(self).player_pos,
            same_but_views(*final(self), *old(self)),
    {
        let mut taken: Option<Viewshed> = None;
        self.viewsheds.set_and_swap(viewer, &mut taken);
        match taken {
            Some(vs) => {
                if vs.dirty {
                    let mut tiles: Vec<Position> = Vec::new();
                    let mut k: usize = 0;
                    while k < fov.len()
                        invariant
                            k <= fov@.len(),
                            self.map.wf(),
                            tiles@ == clip(fov@.subrange(0, k as int)),
                        decreases fov@.len() - k,
                    {
                        let p = fov[k];
                        assert(fov@.subrange(0, k + 1).drop_last() =~= fov@.subrange(0, k as int));
                        if 0 <= p.x && p.x < self.map.width && 0 <= p.y && p.y < self.map.height {
                            tiles.push(p);
                        }
                        k = k + 1;
                    }
                    assert(fov@.subrange(0, fov@.len() as int) =~= fov@);
                    if viewer == self.player {
                        self.mark_player_view(fov);
                    }
                    let ghost marked = self.map;
                    self.viewsheds.set(
                        viewer,
                        Some(Viewshed { visible_tiles: tiles, range: vs.range, dirty: false }),
                    );
                    assert(self.map == marked);
                    if viewer == self.player {
                        assert forall|i: int| 0 <= i < MAPCOUNT implies #[trigger] self.map.visible_tiles@[i]
                            == covers(fov@, i) by {
                            assert(marked.visible_tiles@[i] == covers(fov@, i));
                        }
                        assert forall|i: int| 0 <= i < MAPCOUNT implies #[trigger] self.map.revealed_tiles@[i]
                            == (old(self).map.revealed_tiles@[i] || covers(fov@, i)) by {
                            assert(marked.visible_tiles@[i] == covers(fov@, i));
                        }
                    }
                } else {
                    self.viewsheds.set(viewer, Some(vs));
                }
            },
            None => {},
        }
    }

    /// Makes the tiles of `fov` on the grid the map's visible tiles, and
    /// marks them revealed.
    fn mark_player_view(&mut self, fov: &Vec<Position>)
        requires
            old(self).wf(),
        ensures
            final(self).wf(),
            forall|i: int|
                0 <= i < MAPCOUNT ==> #[trigger] final(self).map.visible_tiles@[i] == covers(fov@, i)
                    && final(self).map.revealed_tiles@[i] == (old(self).map.revealed_tiles@[i] || covers(
                    fov@,
                    i,
                )),
            final(self).viewsheds == old(self).viewsheds,
            final(self).map.tiles == old(self).map.tiles,
            final(self).map.blocked == old(self).map.blocked,
            final(self).map.tile_content == old(self).map.tile_content,
            final(self).map.rooms == old(self).map.rooms,
            final(self).map.depth == old(self).map.depth,
            final(self).alive == old(self).alive,
            final(self).positions == old(self).positions,
            final(self).monsters == old(self).monsters,
            final(self).stats == old(self).stats,
            final(self).player == old(self).player,
            final(self).equipped == old(self).equipped,
            final(self).wants_melee == old(self).wants_melee,
            final(self).wants_pickup == old(self).wants_pickup,
            final(self).wants_drop == old(self).wants_drop,
            final(self).wants_use == old(self).wants_use,
            final(self).wants_remove == old(self).wants_remove,
            final(self).player_pos == old(self).player_pos,
            same_but_views(*final(self), *old(self)),
    {
        let mut i: usize = 0;
        while i < MAPCOUNT
            invariant
                self.wf(),
                i <= MAPCOUNT,
                forall|j: int|
                    0 <= j < MAPCOUNT ==> #[trigger] self.map.visible_tiles@[j] == (j >= i
                        && old(self).map.visible_tiles@[j]),
                self.map.revealed_tiles == old(self).map.revealed_tiles,
                self.viewsheds == old(self).viewsheds,
                self.map.tiles == old(self).map.tiles,
                self.map.blocked == old(self).map.blocked,
                self.map.tile_content == old(self).map.tile_content,
                self.map.rooms == old(self).map.rooms,
                self.map.depth == old(self).map.depth,
                self.alive == old(self).alive,
                self.positions == old(self).positions,
                self.monsters == old(self).monsters,
                self.stats == old(self).stats,
                self.player == old(self).player,
                self.equipped == old(self).equipped,
                self.wants_melee == old(self).wants_melee,
                self.wants_pickup == old(self).wants_pickup,
                self.wants_drop == old(self).wants_drop,
                self.wants_use == old(self).wants_use,
                self.wants_remove == old(self).wants_remove,
                self.player_pos == old(self).player_pos,
                same_but_views(*self, *old(self)),
            decreases MAPCOUNT - i,
        {
            self.map.visible_tiles.set(i, false);
            i = i + 1;
        }
        let mut k: usize = 0;
        while k < fov.len()
            invariant
                self.wf(),
                k <= fov@.len(),
                forall|j: int|
                    0 <= j < MAPCOUNT ==> #[trigger] self.map.visible_tiles@[j] == covers(
                        fov@.subrange(0, k as int),
                        j,
                    ) && self.map.revealed_tiles@[j] == (old(self).map.revealed_tiles@[j] || covers(
                        fov@.subrange(0, k as int),
                        j,
                    )),
                self.viewsheds == old(self).viewsheds,
                self.map.tiles == old(self).map.tiles,
                self.map.blocked == old(self).map.blocked,
                self.map.tile_content == old(self).map.tile_content,
                self.map.rooms == old(self).map.rooms,
                self.map.depth == old(self).map.depth,
                self.alive == old(self).alive,
                self.positions == old(self).positions,
                self.monsters == old(self).monsters,
                self.stats == old(self).stats,
                self.player == old(self).player,
                self.equipped == old(self).equipped,
                self.wants_melee == old(self).wants_melee,
                self.wants_pickup == old(self).wants_pickup,
                self.wants_drop == old(self).wants_drop,
                self.wants_use == old(self).wants_use,
                self.wants_remove == old(self).wants_remove,
                self.player_pos == old(self).player_pos,
                same_but_views(*self, *old(self)),
            decreases fov@.len() - k,
        {
            let p = fov[k];
            let ghost before = self.map;
            let ghost pre = fov@.subrange(0, k as int);
            let ghost post = fov@.subrange(0, k + 1);
            assert(forall|j: int|
                0 <= j < MAPCOUNT ==> #[trigger] before.visible_tiles@[j] == covers(pre, j)
                    && before.revealed_tiles@[j] == (old(self).map.revealed_tiles@[j] || covers(pre, j)));
            let inb = 0 <= p.x && p.x < self.map.width && 0 <= p.y && p.y < self.map.height;
            if inb {
                let idx = self.map.xy_idx(p.x, p.y);
                self.map.visible_tiles.set(idx, true);
                self.map.revealed_tiles.set(idx, true);
            }
            assert(post[k as int] == p);
            assert forall|j: int| 0 <= j < MAPCOUNT implies #[trigger] self.map.visible_tiles@[j]
                == covers(post, j) && self.map.revealed_tiles@[j] == (old(self).map.revealed_tiles@[j]
                || covers(post, j)) by {
                if inb && idx_of(p.x as int, p.y as int) == j {
                    assert(pos_in_bounds(post[k as int]));
                    assert(covers(post, j));
                } else {
                    assert(self.map.visible_tiles@[j] == before.visible_tiles@[j]);
                    assert(self.map.revealed_tiles@[j] == before.revealed_tiles@[j]);
                    if covers(pre, j) {
                        let m = choose|m: int|
                            0 <= m < pre.len() && pos_in_bounds(#[trigger] pre[m]) && idx_of(
                                pre[m].x as int,
                                pre[m].y as int,
                            ) == j;
                        assert(post[m] == pre[m]);
                    }
                    if covers(post, j) {
                        let m = choose|m: int|
                            0 <= m < post.len() && pos_in_bounds(#[trigger] post[m]) && idx_of(
                                post[m].x as int,
                                post[m].y as int,
                            ) == j;
                        assert(m != k);
                        assert(pre[m] == post[m]);
                    }
                }
            }
            k = k + 1;
        }
        assert(fov@.subrange(0, fov@.len() as int) =~= fov@);
    }
}

/// The place of the first sight of `e` among the first `k`, if any.
pub open spec fn first_sight(sights: Seq<Sight>, e: Entity, k: int) -> Option<int>
    decreases k,
{
    if k <= 0 {
        None
    } else {
        match first_sight(sights, e, k - 1) {
            Some(i) => Some(i),
            None => if sights[k - 1].viewer == e {
                Some(k - 1)
            } else {
                None
            },
        }
    }
}

proof fn lemma_first_sight_bounds(sights: Seq<Sight>, e: Entity, k: int)
    requires
        0 <= k <= sights.len(),
    ensures
        first_sight(sights, e, k).is_some() ==> 0 <= first_sight(sights, e, k).unwrap() < k
            && sights[first_sight(sights, e, k).unwrap()].viewer == e,
    decreases k,
{
    if k > 0 {
        lemma_first_sight_bounds(sights, e, k - 1);
    }
}

/// Whether `v` is `w` with the views brought up to date from the first `k`
/// sights: each out-of-date view with a sight takes the first one, and the
/// player's takes the map's visible and revealed tiles along.
pub open spec fn views_updated(w: World, v: World, sights: Seq<Sight>, k: int) -> bool {
    &&& forall|e: Entity|
        e < w.n() ==> {
            let f = first_sight(sights, e, k);
            if is_stale(w, e) && f.is_some() {
                &&& (#[trigger] v.viewsheds@[e as int]).is_some()
                &&& v.viewsheds@[e as int].unwrap().visible_tiles@ == clip(sights[f.unwrap()].tiles@)
                &&& v.viewsheds@[e as int].unwrap().range == w.viewsheds@[e as int].unwrap().range
                &&& !v.viewsheds@[e as int].unwrap().dirty
            } else {
                v.viewsheds@[e as int] == w.viewsheds@[e as int]
            }
        }
    &&& {
        let f = first_sight(sights, w.player, k);
        if is_stale(w, w.player) && f.is_some() {
            &&& forall|i: int|
                0 <= i < MAPCOUNT ==> #[trigger] v.map.visible_tiles@[i] == covers(
                    sights[f.unwrap()].tiles@,
                    i,
                )
            &&& forall|i: int|
                0 <= i < MAPCOUNT ==> #[trigger] v.map.revealed_tiles@[i] == (w.map.revealed_tiles@[i]
                    || covers(sights[f.unwrap()].tiles@, i))
        } else {
            v.map == w.map
        }
    }
}

/// Whether `b` is what the visibility pass makes of `a` from `sights`.
pub open spec fn vis_pass(a: World, b: World, sights: Seq<Sight>) -> bool {
    &&& b.n() == a.n()
    &&& b.alive == a.alive
    &&& b.positions == a.positions
    &&& b.monsters == a.monsters
    &&& b.stats == a.stats
    &&& b.map.tiles == a.map.tiles
    &&& b.map.rooms == a.map.rooms
    &&& b.map.depth == a.map.depth
    &&& b.player == a.player
    &&& b.equipped == a.equipped
    &&& b.wants_melee == a.wants_melee
    &&& b.wants_pickup == a.wants_pickup
    &&& b.wants_drop == a.wants_drop
    &&& b.wants_use == a.wants_use
    &&& b.wants_remove == a.wants_remove
    &&& b.player_pos == a.player_pos
    &&& same_but_views(b, a)
    &&& forall|e: int|
        0 <= e < a.n() && (#[trigger] a.viewsheds@[e]).is_some()
            ==> b.viewsheds@[e].is_some()
    &&& views_updated(a, b, sights, sights.len() as int)
}

/// Brings every out-of-date view up to date from the given sights.
pub struct VisibilitySystem {}

impl VisibilitySystem {
    pub fn run(&mut self, world: &mut World, sights: &Vec<Sight>)
        requires
            old(world).wf(),
        ensures
            final(world).wf(),
            final(world).n() == old(world).n(),
            final(world).alive == old(world).alive,
            final(world).positions == old(world).positions,
            final(world).monsters == old(world).monsters,
            final(world).stats == old(world).stats,
            final(world).map.tiles == old(world).map.tiles,
            final(world).map.rooms == old(world).map.rooms,
            final(world).map.depth == old(world).map.depth,
            final(world).player == old(world).player,
            final(world).equipped == old(world).equipped,
            final(world).wants_melee == old(world).wants_melee,
            final(world).wants_pickup == old(world).wants_pickup,
            final(world).wants_drop == old(world).wants_drop,
            final(world).wants_use == old(world).wants_use,
            final(world).wants_remove == old(world).wants_remove,
            final(world).player_pos == old(world).player_pos,
            same_but_views(*final(world), *old(world)),
            forall|e: int|
                0 <= e < old(world).n() && (#[trigger] old(world).viewsheds@[e]).is_some()
                    ==> final(world).viewsheds@[e].is_some(),
            views_updated(*old(world), *final(world), sights@, sights@.len() as int),
    {
        let mut k: usize = 0;
        while k < sights.len()
            invariant
                world.wf(),
                k <= sights@.len(),
                world.n() == old(world).n(),
                world.alive == old(world).alive,
                world.positions == old(world).positions,
                world.monsters == old(world).monsters,
                world.stats == old(world).stats,
                world.map.tiles == old(world).map.tiles,
                world.map.rooms == old(world).map.rooms,
                world.map.depth == old(world).map.depth,
                world.player == old(world).player,
                world.equipped == old(world).equipped,
                world.wants_melee == old(world).wants_melee,
                world.wants_pickup == old(world).wants_pickup,
                world.wants_drop == old(world).wants_drop,
                world.wants_use == old(world).wants_use,
                world.wants_remove == old(world).wants_remove,
                world.player_pos == old(world).player_pos,
                same_but_views(*world, *old(world)),
                forall|e: int|
                    0 <= e < old(world).n() && (#[trigger] old(world).viewsheds@[e]).is_some()
                        ==> world.viewsheds@[e].is_some(),
                views_updated(*old(world), *world, sights@, k as int),
                forall|e: Entity|
                    e < old(world).n() ==> (#[trigger] is_stale(*world, e)) == (is_stale(*old(world), e)
                        && first_sight(sights@, e, k as int).is_none()),
            decreases sights@.len() - k,
        {
            let viewer = sights[k].viewer;
            let ghost before = *world;
            proof {
                lemma_first_sight_bounds(sights@, viewer, k as int);
                lemma_first_sight_bounds(sights@, old(world).player, k as int);
            }
            if viewer < world.alive.len() {
                world.update_viewshed(viewer, &sights[k].tiles);
                assert forall|e: int|
                    0 <= e < old(world).n() && (#[trigger] old(world).viewsheds@[e]).is_some()
                        implies world.viewsheds@[e].is_some() by {
                    assert(before.viewsheds@[e].is_some());
                }
            }
            assert forall|e: Entity| e < old(world).n() implies (#[trigger] is_stale(*world, e)) == (is_stale(
                *old(world),
                e,
            ) && first_sight(sights@, e, k + 1).is_none()) by {
                assert(is_stale(before, e) == (is_stale(*old(world), e) && first_sight(sights@, e, k as int).is_none()));
                if e != viewer {
                    assert(world.viewsheds@[e as int] == before.viewsheds@[e as int]);
                }
            }
            assert forall|e: Entity| e < old(world).n() implies {
                let f = first_sight(sights@, e, k + 1);
                if is_stale(*old(world), e) && f.is_some() {
                    &&& (#[trigger] world.viewsheds@[e as int]).is_some()
                    &&& world.viewsheds@[e as int].unwrap().visible_tiles@ == clip(sights@[f.unwrap()].tiles@)
                    &&& world.viewsheds@[e as int].unwrap().range == old(world).viewsheds@[e as int].unwrap().range
                    &&& !world.viewsheds@[e as int].unwrap().dirty
                } else {
                    world.viewsheds@[e as int] == old(world).viewsheds@[e as int]
                }
            } by {
                assert(is_stale(before, e) == (is_stale(*old(world), e) && first_sight(sights@, e, k as int).is_none()));
                assert(before.viewsheds@[e as int] == before.viewsheds@[e as int]);
                if e != viewer {
                    assert(world.viewsheds@[e as int] == before.viewsheds@[e as int]);
                }
            }
            k = k + 1;
        }
    }
}

} // verus!
