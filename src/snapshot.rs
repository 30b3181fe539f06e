use vstd::prelude::*;
use crate::components::{
    CombatStats, Entity, EquipmentSlot, Equipped, ItemFacets, Position, Renderable, Viewshed,
};
use crate::map::{GameMap, MAPCOUNT, TileType};
use crate::rect::Rect;
use crate::world::{pos_in_bounds, World};

verus! {

/// One saved entity; its relations name other entities by their place
/// among the saved ones.
pub struct SavedEntity {
    pub name: Option<String>,
    pub position: Option<Position>,
    pub renderable: Option<Renderable>,
    pub view_range: Option<i32>,
    pub monster: bool,
    pub blocks_tile: bool,
    pub stats: Option<CombatStats>,
    pub item: Option<ItemFacets>,
    pub in_backpack: Option<usize>,
    pub equipped: Option<(usize, EquipmentSlot)>,
    pub disabled: Option<i32>,
}

/// A saved game: the level and every entity that exists, in order.
pub struct Snapshot {
    pub depth: i32,
    pub tiles: Vec<TileType>,
    pub revealed: Vec<bool>,
    pub rooms: Vec<Rect>,
    pub player: usize,
    pub entities: Vec<SavedEntity>,
}

/// How many of the first `k` entities exist: the saved place of entity `k`.
pub open spec fn ordinal(w: World, k: int) -> int
    decreases k,
{
    if k <= 0 {
        0
    } else {
        ordinal(w, k - 1) + if w.alive@[k - 1] { 1int } else { 0int }
    }
}

/// A relation to `o` as saved: the place of `o` if it exists.
pub open spec fn saved_ref(w: World, o: Option<Entity>) -> Option<usize> {
    match o {
        Some(x) => if x < w.n() && w.alive@[x as int] {
            Some(ordinal(w, x as int) as usize)
        } else {
            None
        },
        None => None,
    }
}

/// Whether `s` saves entity `e` of `w`.
pub open spec fn saves(w: World, e: int, s: SavedEntity) -> bool {
    &&& s.name == w.names@[e]
    &&& s.position == w.positions@[e]
    &&& s.renderable == w.renderables@[e]
    &&& s.view_range == match w.viewsheds@[e] {
        Some(v) => Some(v.range),
        None => None,
    }
    &&& s.monster == w.monsters@[e]
    &&& s.blocks_tile == w.blocks_tile@[e]
    &&& s.stats == w.stats@[e]
    &&& s.item == w.items@[e]
    &&& s.in_backpack == saved_ref(w, w.in_backpack@[e])
    &&& s.equipped == match w.equipped@[e] {
        Some(q) => match saved_ref(w, Some(q.owner)) {
            Some(o) => Some((o, q.slot)),
            None => None,
        },
        None => None,
    }
    &&& s.disabled == w.disabled@[e]
}

proof fn lemma_ordinal_bounds(w: World, k: int)
    requires
        0 <= k <= w.n(),
    ensures
        0 <= ordinal(w, k) <= k,
    decreases k,
{
    if k > 0 {
        lemma_ordinal_bounds(w, k - 1);
    }
}

proof fn lemma_ordinal_monotone(w: World, a: int, b: int)
    requires
        0 <= a < b <= w.n(),
        w.alive@[a],
    ensures
        ordinal(w, a) < ordinal(w, b),
    decreases b - a,
{
    if b > a + 1 {
        lemma_ordinal_monotone(w, a, b - 1);
    }
}

fn copy_tiles(v: &Vec<TileType>) -> (r: Vec<TileType>)
    ensures
        r@ == v@,
{
    let mut r: Vec<TileType> = Vec::new();
    let mut i: usize = 0;
    while i < v.len()
        invariant
            i <= v@.len(),
            r@ == v@.subrange(0, i as int),
        decreases v@.len() - i,
    {
        r.push(v[i]);
        assert(r@ =~= v@.subrange(0, i + 1));
        i = i + 1;
    }
    assert(r@ =~= v@);
    r
}

fn copy_flags(v: &Vec<bool>) -> (r: Vec<bool>)
    ensures
        r@ == v@,
{
    let mut r: Vec<bool> = Vec::new();
    let mut i: usize = 0;
    while i < v.len()
        invariant
            i <= v@.len(),
            r@ == v@.subrange(0, i as int),
        decreases v@.len() - i,
    {
        r.push(v[i]);
        assert(r@ =~= v@.subrange(0, i + 1));
        i = i + 1;
    }
    assert(r@ =~= v@);
    r
}

fn copy_rooms(v: &Vec<Rect>) -> (r: Vec<Rect>)
    ensures
        r@ == v@,
{
    let mut r: Vec<Rect> = Vec::new();
    let mut i: usize = 0;
    while i < v.len()
        invariant
            i <= v@.len(),
            r@ == v@.subrange(0, i as int),
        decreases v@.len() - i,
    {
        r.push(v[i]);
        assert(r@ =~= v@.subrange(0, i + 1));
        i = i + 1;
    }
    assert(r@ =~= v@);
    r
}

impl World {
    /// The saved places of all entities: `Some(place)` for those that exist.
    fn ordinals(&self) -> (r: Vec<Option<usize>>)
        requires
            self.wf(),
        ensures
            r@.len() == self.n(),
            forall|e: int|
                0 <= e < self.n() ==> #[trigger] r@[e] == if self.alive@[e] {
                    Some(ordinal(*self, e) as usize)
                } else {
                    None
                },
    {
        let n = self.alive.len();
        let mut r: Vec<Option<usize>> = Vec::new();
        let mut count: usize = 0;
        let mut e: usize = 0;
        while e < n
            invariant
                self.wf(),
                n == self.n(),
                e <= n,
                r@.len() == e,
                count == ordinal(*self, e as int),
                forall|x: int|
                    0 <= x < e ==> #[trigger] r@[x] == if self.alive@[x] {
                        Some(ordinal(*self, x) as usize)
                    } else {
                        None
                    },
            decreases n - e,
        {
            proof {
                lemma_ordinal_bounds(*self, e as int);
            }
            if self.alive[e] {
                r.push(Some(count));
                count = count + 1;
            } else {
                r.push(None);
            }
            e = e + 1;
        }
        r
    }

    /// The game as it would be saved: the level, and every entity that
    /// exists, in order, with relations to entities that exist given by
    /// their saved place.
    pub fn snapshot(&self) -> (s: Snapshot)
        requires
            self.wf(),
        ensures
            s.depth == self.map.depth,
            s.tiles@ == self.map.tiles@,
            s.revealed@ == self.map.revealed_tiles@,
            s.rooms@ == self.map.rooms@,
            s.entities@.len() == ordinal(*self, self.n() as int),
            forall|e: int|
                0 <= e < self.n() && self.alive@[e] ==> saves(
                    *self,
                    e,
                    #[trigger] s.entities@[ordinal(*self, e)],
                ),
            self.alive@[self.player as int] ==> s.player == ordinal(*self, self.player as int),
    {
        let ords = self.ordinals();
        let n = self.alive.len();
        let mut entities: Vec<SavedEntity> = Vec::new();
        let mut e: usize = 0;
        while e < n
            invariant
                self.wf(),
                n == self.n(),
                e <= n,
                ords@.len() == n,
                forall|x: int|
                    0 <= x < n ==> #[trigger] ords@[x] == if self.alive@[x] {
                        Some(ordinal(*self, x) as usize)
                    } else {
                        None
                    },
                entities@.len() == ordinal(*self, e as int),
                forall|x: int|
                    0 <= x < e && self.alive@[x] ==> saves(
                        *self,
                        x,
                        #[trigger] entities@[ordinal(*self, x)],
                    ),
            decreases n - e,
        {
            proof {
                lemma_ordinal_bounds(*self, e as int);
            }
            if self.alive[e] {
                let name = match &self.names[e] {
                    Some(s) => Some(s.clone()),
                    None => None,
                };
                let view_range = match &self.viewsheds[e] {
                    Some(v) => Some(v.range),
                    None => None,
                };
                let in_backpack = match self.in_backpack[e] {
                    Some(o) => ords[o],
                    None => None,
                };
                let equipped = match self.equipped[e] {
                    Some(q) => match ords[q.owner] {
                        Some(o) => Some((o, q.slot)),
                        None => None,
                    },
                    None => None,
                };
                let saved = SavedEntity {
                    name,
                    position: self.positions[e],
                    renderable: self.renderables[e],
                    view_range,
                    monster: self.monsters[e],
                    blocks_tile: self.blocks_tile[e],
                    stats: self.stats[e],
                    item: self.items[e],
                    in_backpack,
                    equipped,
                    disabled: self.disabled[e],
                };
                let ghost before = entities@;
                let ghost sv = saved;
                entities.push(saved);
                assert(entities@ == before.push(sv));
                assert forall|x: int|
                    0 <= x < e + 1 && self.alive@[x] implies saves(
                    *self,
                    x,
                    #[trigger] entities@[ordinal(*self, x)],
                ) by {
                    if x < e {
                        lemma_ordinal_monotone(*self, x, e as int);
                        lemma_ordinal_bounds(*self, x);
                        assert(ordinal(*self, x) < before.len());
                        assert(entities@[ordinal(*self, x)] == before[ordinal(*self, x)]);
                        assert(saves(*self, x, before[ordinal(*self, x)]));
                    }
                }
            }
            e = e + 1;
        }
        proof {
            lemma_ordinal_bounds(*self, self.player as int);
        }
        let player = match ords[self.player] {
            Some(p) => p,
            None => 0,
        };
        Snapshot {
            depth: self.map.depth,
            tiles: copy_tiles(&self.map.tiles),
            revealed: copy_flags(&self.map.revealed_tiles),
            rooms: copy_rooms(&self.map.rooms),
            player,
            entities,
        }
    }
}

/// Whether a snapshot holds together: a full grid, a saved player with a
/// place on it, relations that name saved entities, places on the grid.
pub open spec fn restorable(s: Snapshot) -> bool {
    let count = s.entities@.len();
    &&& s.tiles@.len() == MAPCOUNT
    &&& s.revealed@.len() == MAPCOUNT
    &&& s.player < count
    &&& s.entities@[s.player as int].position.is_some()
    &&& forall|k: int|
        0 <= k < count ==> {
            let se = #[trigger] s.entities@[k];
            &&& (se.in_backpack.is_some() ==> se.in_backpack.unwrap() < count)
            &&& (se.equipped.is_some() ==> se.equipped.unwrap().0 < count)
            &&& (se.position.is_some() ==> pos_in_bounds(se.position.unwrap()))
        }
}

/// Rebuilds a world from a snapshot, every saved entity in its saved place;
/// `None` when the snapshot does not hold together.
pub fn restore(s: Snapshot) -> (r: Option<World>)
    ensures
        r.is_some() <==> restorable(s),
        r.is_some() ==> r.unwrap().wf(),
        r.is_some() ==> r.unwrap().n() == s.entities@.len(),
        r.is_some() ==> r.unwrap().player == s.player,
        r.is_some() ==> Some(r.unwrap().player_pos) == s.entities@[s.player as int].position,
        r.is_some() ==> r.unwrap().map.depth == s.depth,
        r.is_some() ==> r.unwrap().map.tiles@ == s.tiles@,
        r.is_some() ==> r.unwrap().map.revealed_tiles@ == s.revealed@,
        r.is_some() ==> r.unwrap().map.rooms@ == s.rooms@,
        r.is_some() ==> r.unwrap().intents_drained(),
        r.is_some() ==> restores_all(r.unwrap(), s),
{
    let count = s.entities.len();
    if s.tiles.len() != MAPCOUNT || s.revealed.len() != MAPCOUNT || s.player >= count {
        return None;
    }
    let mut k: usize = 0;
    while k < count
        invariant
            count == s.entities@.len(),
            k <= count,
            forall|j: int|
                0 <= j < k ==> {
                    let se = #[trigger] s.entities@[j];
                    &&& (se.in_backpack.is_some() ==> se.in_backpack.unwrap() < count)
                    &&& (se.equipped.is_some() ==> se.equipped.unwrap().0 < count)
                    &&& (se.position.is_some() ==> pos_in_bounds(se.position.unwrap()))
                },
        decreases count - k,
    {
        let se = &s.entities[k];
        let bad_owner = match se.in_backpack {
            Some(o) => o >= count,
            None => false,
        };
        let bad_worn = match se.equipped {
            Some(q) => q.0 >= count,
            None => false,
        };
        let bad_place = match se.position {
            Some(p) => !(0 <= p.x && p.x < 80 && 0 <= p.y && p.y < 50),
            None => false,
        };
        if bad_owner || bad_worn || bad_place {
            return None;
        }
        k = k + 1;
    }
    let player_pos = match s.entities[s.player].position {
        Some(p) => p,
        None => {
            return None;
        },
    };
    let mut map = GameMap::new_solid(s.depth);
    map.tiles = copy_tiles(&s.tiles);
    map.revealed_tiles = copy_flags(&s.revealed);
    map.rooms = copy_rooms(&s.rooms);
    let mut w = World::new(map);
    let mut k: usize = 0;
    while k < count
        invariant
            count == s.entities@.len(),
            k <= count,
            restorable(s),
            w.wf_but_player(),
            w.n() == k,
            w.map.depth == s.depth,
            w.map.tiles@ == s.tiles@,
            w.map.revealed_tiles@ == s.revealed@,
            w.map.rooms@ == s.rooms@,
            forall|j: int|
                0 <= j < k ==> #[trigger] w.alive@[j] && restores_own(w, j, s.entities@[j])
                    && fresh_intents(w, j) && w.in_backpack@[j].is_none() && w.equipped@[j].is_none(),
        decreases count - k,
    {
        let se = &s.entities[k];
        let ghost before = w;
        let e = w.create_entity();
        let name = match &se.name {
            Some(t) => Some(t.clone()),
            None => None,
        };
        w.names.set(e, name);
        w.positions.set(e, se.position);
        w.renderables.set(e, se.renderable);
        match se.view_range {
            Some(range) => w.viewsheds.set(e, Some(Viewshed { visible_tiles: Vec::new(), range, dirty: true })),
            None => {},
        }
        w.monsters.set(e, se.monster);
        w.blocks_tile.set(e, se.blocks_tile);
        w.stats.set(e, se.stats);
        w.items.set(e, se.item);
        w.disabled.set(e, se.disabled);
        proof {
            assert(restores_own(w, k as int, s.entities@[k as int]));
            assert forall|j: int| 0 <= j < k + 1 implies #[trigger] w.alive@[j] && restores_own(
                w,
                j,
                s.entities@[j],
            ) && fresh_intents(w, j) && w.in_backpack@[j].is_none() && w.equipped@[j].is_none() by {
                if j < k {
                    assert(before.alive@[j]);
                    assert(restores_own(before, j, s.entities@[j]));
                    assert(fresh_intents(before, j));
                    assert(before.in_backpack@[j].is_none());
                }
            }
        }
        k = k + 1;
    }
    let ghost w1 = w;
    proof {
        assert forall|j: int| 0 <= j < count implies #[trigger] w1.alive@[j] && restores_own(
            w1,
            j,
            s.entities@[j],
        ) && fresh_intents(w1, j) && w1.in_backpack@[j].is_none() && w1.equipped@[j].is_none() by {
            assert(w.alive@[j]);
        }
        assert forall|j: int| 0 <= j < count implies (#[trigger] w.in_backpack@[j]).is_none()
            && w.equipped@[j].is_none() by {
            assert(w.alive@[j]);
        }
    }
    let mut k: usize = 0;
    while k < count
        invariant
            count == s.entities@.len(),
            k <= count,
            restorable(s),
            w.wf_but_player(),
            w.n() == count,
            w1.n() == count,
            forall|j: int|
                0 <= j < count ==> #[trigger] w1.alive@[j] && restores_own(w1, j, s.entities@[j])
                    && fresh_intents(w1, j) && w1.in_backpack@[j].is_none() && w1.equipped@[j].is_none(),
            w.alive == w1.alive,
            w.names == w1.names,
            w.positions == w1.positions,
            w.renderables == w1.renderables,
            w.viewsheds == w1.viewsheds,
            w.monsters == w1.monsters,
            w.blocks_tile == w1.blocks_tile,
            w.stats == w1.stats,
            w.items == w1.items,
            w.disabled == w1.disabled,
            w.wants_melee == w1.wants_melee,
            w.wants_pickup == w1.wants_pickup,
            w.wants_drop == w1.wants_drop,
            w.wants_use == w1.wants_use,
            w.wants_remove == w1.wants_remove,
            w.map == w1.map,
            forall|j: int| 0 <= j < k ==> restores_links(w, j, #[trigger] s.entities@[j]),
            forall|j: int|
                k <= j < count ==> (#[trigger] w.in_backpack@[j]).is_none() && w.equipped@[j].is_none(),
        decreases count - k,
    {
        let se = &s.entities[k];
        let ghost before = w;
        w.in_backpack.set(k, se.in_backpack);
        match se.equipped {
            Some(q) => w.equipped.set(k, Some(Equipped { owner: q.0, slot: q.1 })),
            None => {},
        }
        proof {
            assert forall|j: int| 0 <= j < k + 1 implies restores_links(w, j, #[trigger] s.entities@[j]) by {
                if j < k {
                    assert(restores_links(before, j, s.entities@[j]));
                    assert(w.in_backpack@[j] == before.in_backpack@[j]);
                    assert(w.equipped@[j] == before.equipped@[j]);
                } else {
                    assert(before.equipped@[j].is_none());
                }
            }
            assert forall|j: int| k + 1 <= j < count implies (#[trigger] w.in_backpack@[j]).is_none()
                && w.equipped@[j].is_none() by {
                assert(before.in_backpack@[j].is_none());
                assert(before.equipped@[j].is_none());
            }
        }
        k = k + 1;
    }
    let ghost w2 = w;
    w.player = s.player;
    w.player_pos = player_pos;
    proof {
        assert forall|j: int| 0 <= j < count implies #[trigger] w.alive@[j] && restores(w, j, s.entities@[j])
            && fresh_intents(w, j) by {
            assert(w1.alive@[j]);
            assert(restores_links(w2, j, s.entities@[j]));
        }
        assert(w.intents_drained()) by {
            assert forall|j: int| 0 <= j < w.n() implies (#[trigger] w.wants_melee@[j]).is_none() by {
                assert(w.alive@[j]);
                assert(fresh_intents(w, j));
            }
            assert forall|j: int| 0 <= j < w.n() implies (#[trigger] w.wants_pickup@[j]).is_none() by {
                assert(w.alive@[j]);
                assert(fresh_intents(w, j));
            }
            assert forall|j: int| 0 <= j < w.n() implies (#[trigger] w.wants_drop@[j]).is_none() by {
                assert(w.alive@[j]);
                assert(fresh_intents(w, j));
            }
            assert forall|j: int| 0 <= j < w.n() implies (#[trigger] w.wants_use@[j]).is_none() by {
                assert(w.alive@[j]);
                assert(fresh_intents(w, j));
            }
            assert forall|j: int| 0 <= j < w.n() implies (#[trigger] w.wants_remove@[j]).is_none() by {
                assert(w.alive@[j]);
                assert(fresh_intents(w, j));
            }
        }
    }
    assert(restores_all(w, s));
    Some(w)
}

/// Whether entity `k` of `w` holds what `se` saved, relations aside.
pub open spec fn restores_own(w: World, k: int, se: SavedEntity) -> bool {
    &&& w.names@[k] == se.name
    &&& w.positions@[k] == se.position
    &&& w.renderables@[k] == se.renderable
    &&& w.viewsheds@[k].is_some() == se.view_range.is_some()
    &&& se.view_range.is_some() ==> {
        &&& w.viewsheds@[k].unwrap().range == se.view_range.unwrap()
        &&& w.viewsheds@[k].unwrap().dirty
        &&& w.viewsheds@[k].unwrap().visible_tiles@.len() == 0
    }
    &&& w.monsters@[k] == se.monster
    &&& w.blocks_tile@[k] == se.blocks_tile
    &&& w.stats@[k] == se.stats
    &&& w.items@[k] == se.item
    &&& w.disabled@[k] == se.disabled
}

/// Whether entity `k` of `w` has the relations that `se` saved.
pub open spec fn restores_links(w: World, k: int, se: SavedEntity) -> bool {
    &&& w.in_backpack@[k] == se.in_backpack
    &&& w.equipped@[k] == match se.equipped {
        Some(q) => Some(Equipped { owner: q.0, slot: q.1 }),
        None => None,
    }
}

/// Whether every entity of `w` exists and is as `s` saved it.
pub open spec fn restores_all(w: World, s: Snapshot) -> bool {
    forall|k: int| 0 <= k < w.n() ==> #[trigger] w.alive@[k] && restores(w, k, s.entities@[k])
}

/// Whether `w` restores entity `k` as `se` saved it.
pub open spec fn restores(w: World, k: int, se: SavedEntity) -> bool {
    restores_own(w, k, se) && restores_links(w, k, se)
}

/// Whether entity `k` has no request pending.
pub open spec fn fresh_intents(w: World, k: int) -> bool {
    &&& w.wants_melee@[k].is_none()
    &&& w.wants_pickup@[k].is_none()
    &&& w.wants_drop@[k].is_none()
    &&& w.wants_use@[k].is_none()
    &&& w.wants_remove@[k].is_none()
}

} // verus!
