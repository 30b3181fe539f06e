use vstd::prelude::*;
use crate::components::Entity;
use crate::connectivity::{
    all_linked, connected, lemma_first_room, lemma_link_room, lemma_persist, on_corridor, passable,
};
use crate::rect::Rect;
use crate::rng::{range_i64, roll_dice};
use rltk::RandomNumberGenerator;

verus! {

pub const MAPWIDTH: usize = 80;

pub const MAPHEIGHT: usize = 50;

pub const MAPCOUNT: usize = 4000;

pub const MAX_ROOMS: i32 = 30;

pub const MIN_SIZE: i32 = 6;

pub const MAX_SIZE: i32 = 10;

#[derive(Clone, Copy, Debug, PartialEq, Eq, Structural)]
pub enum TileType {
    Wall,
    Floor,
    DownStairs,
}

/// One dungeon level: the tile grid and its per-tile lookup tables.
pub struct GameMap {
    pub tiles: Vec<TileType>,
    pub rooms: Vec<Rect>,
    pub width: i32,
    pub height: i32,
    pub revealed_tiles: Vec<bool>,
    pub visible_tiles: Vec<bool>,
    pub blocked: Vec<bool>,
    pub tile_content: Vec<Vec<Entity>>,
    pub depth: i32,
}

/// One drawn room proposal, with the order in which a corridor to it would
/// be dug.
#[derive(Clone, Copy, Debug, PartialEq, Eq, Structural)]
pub struct RoomDraw {
    pub room: Rect,
    pub row_first: bool,
}

/// The rooms that the draws leave standing, in order: each drawn room that
/// meets no room kept before it.
pub open spec fn accepted(draws: Seq<RoomDraw>) -> Seq<Rect>
    decreases draws.len(),
{
    if draws.len() == 0 {
        Seq::empty()
    } else {
        let prev = accepted(draws.drop_last());
        let r = draws.last().room;
        if forall|k: int| 0 <= k < prev.len() ==> !r.intersects_spec(&prev[k]) {
            prev.push(r)
        } else {
            prev
        }
    }
}

/// Whether a draw is one the generator can make: a room of six to nine
/// tiles a side that fits on the grid.
pub open spec fn draw_ok(d: RoomDraw) -> bool {
    &&& room_fits(d.room)
    &&& MIN_SIZE <= d.room.x2 - d.room.x1 < MAX_SIZE
    &&& MIN_SIZE <= d.room.y2 - d.room.y1 < MAX_SIZE
}

/// Whether `(x, y)` lies on the grid.
pub open spec fn in_bounds(x: int, y: int) -> bool {
    0 <= x < MAPWIDTH && 0 <= y < MAPHEIGHT
}

/// Whether `(x, y)` lies on the grid and off its one-tile border.
pub open spec fn in_interior(x: int, y: int) -> bool {
    1 <= x < MAPWIDTH - 1 && 1 <= y < MAPHEIGHT - 1
}

/// The index of tile `(x, y)` in the map's dense arrays.
pub open spec fn idx_of(x: int, y: int) -> int {
    y * MAPWIDTH + x
}

/// Whether `(x, y)` is among the tiles that carving `room` turns to floor.
pub open spec fn in_room(room: Rect, x: int, y: int) -> bool {
    room.x1 < x <= room.x2 && room.y1 < y <= room.y2
}

/// Whether the room lies on the grid with a wall border round its floor.
pub open spec fn room_fits(room: Rect) -> bool {
    0 <= room.x1 && room.x1 + 2 <= room.x2 <= MAPWIDTH - 2 && 0 <= room.y1 && room.y1 + 2
        <= room.y2 <= MAPHEIGHT - 2
}

/// A room that fits has its center among its own floor tiles.
pub proof fn lemma_center_in_room(room: Rect)
    requires
        room_fits(room),
    ensures
        in_room(room, room.center_spec().0, room.center_spec().1),
        in_interior(room.center_spec().0, room.center_spec().1),
{
}

pub proof fn lemma_idx_in_range(x: int, y: int)
    requires
        in_bounds(x, y),
    ensures
        0 <= idx_of(x, y) < MAPCOUNT,
{
}

/// Distinct tiles have distinct indices.
pub proof fn lemma_idx_injective(x1: int, y1: int, x2: int, y2: int)
    requires
        in_bounds(x1, y1),
        in_bounds(x2, y2),
        idx_of(x1, y1) == idx_of(x2, y2),
    ensures
        x1 == x2 && y1 == y2,
{
}

impl GameMap {
    /// The map's arrays all have one entry per tile of the fixed-size grid.
    pub open spec fn wf(&self) -> bool {
        &&& self.width == MAPWIDTH
        &&& self.height == MAPHEIGHT
        &&& self.tiles@.len() == MAPCOUNT
        &&& self.revealed_tiles@.len() == MAPCOUNT
        &&& self.visible_tiles@.len() == MAPCOUNT
        &&& self.blocked@.len() == MAPCOUNT
        &&& self.tile_content@.len() == MAPCOUNT
    }

    pub open spec fn tile(&self, x: int, y: int) -> TileType {
        self.tiles@[idx_of(x, y)]
    }

    /// Whether every floor tile lies off the border.
    pub open spec fn border_is_wall(&self) -> bool {
        forall|x: int, y: int|
            in_bounds(x, y) && #[trigger] self.tile(x, y) != TileType::Wall ==> in_interior(x, y)
    }

    /// Whether no two rooms intersect.
    pub open spec fn rooms_disjoint(&self) -> bool {
        forall|i: int, j: int|
            #![trigger self.rooms@[i], self.rooms@[j]]
            0 <= i < self.rooms@.len() && 0 <= j < self.rooms@.len() && i != j
                ==> !self.rooms@[i].intersects_spec(&self.rooms@[j])
    }

    /// Whether every room fits on the grid with a wall border.
    pub open spec fn rooms_fit(&self) -> bool {
        forall|i: int| 0 <= i < self.rooms@.len() ==> room_fits(#[trigger] self.rooms@[i])
    }

    /// The index of tile `(x, y)`.
    pub fn xy_idx(&self, x: i32, y: i32) -> (r: usize)
        requires
            in_bounds(x as int, y as int),
        ensures
            r == idx_of(x as int, y as int),
            r < MAPCOUNT,
    {
        (y as usize) * MAPWIDTH + (x as usize)
    }

    /// A level of the given depth with every tile a wall and no rooms.
    pub fn new_solid(depth: i32) -> (m: GameMap)
        ensures
            m.wf(),
            m.depth == depth,
            m.rooms@.len() == 0,
            forall|i: int| 0 <= i < MAPCOUNT ==> m.tiles@[i] == TileType::Wall,
            forall|i: int| 0 <= i < MAPCOUNT ==> !m.revealed_tiles@[i] && !m.visible_tiles@[i],
            forall|i: int| 0 <= i < MAPCOUNT ==> #[trigger] m.tile_content@[i]@.len() == 0,
    {
        let mut tiles: Vec<TileType> = Vec::new();
        let mut revealed: Vec<bool> = Vec::new();
        let mut visible: Vec<bool> = Vec::new();
        let mut blocked: Vec<bool> = Vec::new();
        let mut content: Vec<Vec<Entity>> = Vec::new();
        let mut i: usize = 0;
        while i < MAPCOUNT
            invariant
                i <= MAPCOUNT,
                tiles@.len() == i,
                revealed@.len() == i,
                visible@.len() == i,
                blocked@.len() == i,
                content@.len() == i,
                forall|k: int| 0 <= k < i ==> tiles@[k] == TileType::Wall,
                forall|k: int| 0 <= k < i ==> !revealed@[k] && !visible@[k],
                forall|k: int| 0 <= k < i ==> #[trigger] content@[k]@.len() == 0,
            decreases MAPCOUNT - i,
        {
            tiles.push(TileType::Wall);
            revealed.push(false);
            visible.push(false);
            blocked.push(false);
            content.push(Vec::new());
            i = i + 1;
        }
        GameMap {
            tiles,
            rooms: Vec::new(),
            width: MAPWIDTH as i32,
            height: MAPHEIGHT as i32,
            revealed_tiles: revealed,
            visible_tiles: visible,
            blocked,
            tile_content: content,
            depth,
        }
    }

    /// Turns the tiles of `room` to floor, leaving every other tile as it was.
    pub fn apply_room_to_map(&mut self, room: &Rect)
        requires
            old(self).wf(),
            room_fits(*room),
        ensures
            final(self).wf(),
            final(self).rooms == old(self).rooms,
            final(self).depth == old(self).depth,
            final(self).revealed_tiles == old(self).revealed_tiles,
            final(self).visible_tiles == old(self).visible_tiles,
            final(self).tile_content == old(self).tile_content,
            forall|x: int, y: int|
                in_bounds(x, y) ==> #[trigger] final(self).tile(x, y) == if in_room(*room, x, y) {
                    TileType::Floor
                } else {
                    old(self).tile(x, y)
                },
    {
        let mut y: i32 = room.y1 + 1;
        while y <= room.y2
            invariant
                self.wf(),
                room_fits(*room),
                room.y1 + 1 <= y <= room.y2 + 1,
                self.rooms == old(self).rooms,
                self.depth == old(self).depth,
                self.revealed_tiles == old(self).revealed_tiles,
                self.visible_tiles == old(self).visible_tiles,
                self.tile_content == old(self).tile_content,
                forall|xx: int, yy: int|
                    in_bounds(xx, yy) ==> #[trigger] self.tile(xx, yy) == if in_room(*room, xx, yy)
                        && yy < y {
                        TileType::Floor
                    } else {
                        old(self).tile(xx, yy)
                    },
            decreases room.y2 + 1 - y,
        {
            let mut x: i32 = room.x1 + 1;
            while x <= room.x2
                invariant
                    self.wf(),
                    room_fits(*room),
                    room.y1 + 1 <= y <= room.y2,
                    room.x1 + 1 <= x <= room.x2 + 1,
                    self.rooms == old(self).rooms,
                    self.depth == old(self).depth,
                    self.revealed_tiles == old(self).revealed_tiles,
                    self.visible_tiles == old(self).visible_tiles,
                    self.tile_content == old(self).tile_content,
                    forall|xx: int, yy: int|
                        in_bounds(xx, yy) ==> #[trigger] self.tile(xx, yy) == if in_room(
                            *room,
                            xx,
                            yy,
                        ) && (yy < y || (yy == y && xx < x)) {
                            TileType::Floor
                        } else {
                            old(self).tile(xx, yy)
                        },
                decreases room.x2 + 1 - x,
            {
                let idx = self.xy_idx(x, y);
                let ghost before = self.tiles@;
                let ghost prev = *self;
                self.tiles.set(idx, TileType::Floor);
                assert forall|xx: int, yy: int| in_bounds(xx, yy) implies #[trigger] self.tile(xx, yy)
                    == if in_room(*room, xx, yy) && (yy < y || (yy == y && xx < x + 1)) {
                    TileType::Floor
                } else {
                    old(self).tile(xx, yy)
                } by {
                    lemma_idx_in_range(xx, yy);
                    if idx_of(xx, yy) == idx {
                        lemma_idx_injective(xx, yy, x as int, y as int);
                        assert(in_room(*room, xx, yy));
                    } else {
                        assert(self.tiles@[idx_of(xx, yy)] == before[idx_of(xx, yy)]);
                        assert(prev.tile(xx, yy) == before[idx_of(xx, yy)]);
                    }
                }
                x = x + 1;
            }
            y = y + 1;
        }
    }

    /// Turns tile `(x, y)` to `t`, leaving every other tile as it was.
    fn set_tile(&mut self, x: i32, y: i32, t: TileType)
        requires
            old(self).wf(),
            in_bounds(x as int, y as int),
        ensures
            final(self).wf(),
            final(self).rooms == old(self).rooms,
            final(self).depth == old(self).depth,
            final(self).revealed_tiles == old(self).revealed_tiles,
            final(self).visible_tiles == old(self).visible_tiles,
            final(self).tile_content == old(self).tile_content,
            forall|xx: int, yy: int|
                in_bounds(xx, yy) ==> #[trigger] final(self).tile(xx, yy) == if xx == x && yy == y {
                    t
                } else {
                    old(self).tile(xx, yy)
                },
    {
        let idx = self.xy_idx(x, y);
        self.tiles.set(idx, t);
        assert forall|xx: int, yy: int| in_bounds(xx, yy) implies #[trigger] self.tile(xx, yy) == if xx
            == x && yy == y {
            t
        } else {
            old(self).tile(xx, yy)
        } by {
            lemma_idx_in_range(xx, yy);
            if idx_of(xx, yy) == idx {
                lemma_idx_injective(xx, yy, x as int, y as int);
            }
        }
    }

    /// Turns row `y` from column `min(x1, x2)` to column `max(x1, x2)` to floor.
    pub fn apply_horizontal_tunnel(&mut self, x1: i32, x2: i32, y: i32)
        requires
            old(self).wf(),
            in_bounds(x1 as int, y as int),
            in_bounds(x2 as int, y as int),
        ensures
            final(self).wf(),
            final(self).rooms == old(self).rooms,
            final(self).depth == old(self).depth,
            final(self).revealed_tiles == old(self).revealed_tiles,
            final(self).visible_tiles == old(self).visible_tiles,
            final(self).tile_content == old(self).tile_content,
            forall|xx: int, yy: int|
                in_bounds(xx, yy) ==> #[trigger] final(self).tile(xx, yy) == if yy == y && (x1 <= xx
                    <= x2 || x2 <= xx <= x1) {
                    TileType::Floor
                } else {
                    old(self).tile(xx, yy)
                },
    {
        let lo = if x1 < x2 { x1 } else { x2 };
        let hi = if x1 < x2 { x2 } else { x1 };
        let mut x: i32 = lo;
        while x <= hi
            invariant
                self.wf(),
                lo <= x <= hi + 1,
                in_bounds(lo as int, y as int),
                in_bounds(hi as int, y as int),
                lo == x1 || lo == x2,
                hi == x1 || hi == x2,
                lo <= hi,
                self.rooms == old(self).rooms,
                self.depth == old(self).depth,
                self.revealed_tiles == old(self).revealed_tiles,
                self.visible_tiles == old(self).visible_tiles,
                self.tile_content == old(self).tile_content,
                forall|xx: int, yy: int|
                    in_bounds(xx, yy) ==> #[trigger] self.tile(xx, yy) == if yy == y && lo <= xx < x {
                        TileType::Floor
                    } else {
                        old(self).tile(xx, yy)
                    },
            decreases hi + 1 - x,
        {
            self.set_tile(x, y, TileType::Floor);
            x = x + 1;
        }
    }

    /// Turns column `x` from row `min(y1, y2)` to row `max(y1, y2)` to floor.
    pub fn apply_vertical_tunnel(&mut self, y1: i32, y2: i32, x: i32)
        requires
            old(self).wf(),
            in_bounds(x as int, y1 as int),
            in_bounds(x as int, y2 as int),
        ensures
            final(self).wf(),
            final(self).rooms == old(self).rooms,
            final(self).depth == old(self).depth,
            final(self).revealed_tiles == old(self).revealed_tiles,
            final(self).visible_tiles == old(self).visible_tiles,
            final(self).tile_content == old(self).tile_content,
            forall|xx: int, yy: int|
                in_bounds(xx, yy) ==> #[trigger] final(self).tile(xx, yy) == if xx == x && (y1 <= yy
                    <= y2 || y2 <= yy <= y1) {
                    TileType::Floor
                } else {
                    old(self).tile(xx, yy)
                },
    {
        let lo = if y1 < y2 { y1 } else { y2 };
        let hi = if y1 < y2 { y2 } else { y1 };
        let mut y: i32 = lo;
        while y <= hi
            invariant
                self.wf(),
                lo <= y <= hi + 1,
                in_bounds(x as int, lo as int),
                in_bounds(x as int, hi as int),
                lo == y1 || lo == y2,
                hi == y1 || hi == y2,
                lo <= hi,
                self.rooms == old(self).rooms,
                self.depth == old(self).depth,
                self.revealed_tiles == old(self).revealed_tiles,
                self.visible_tiles == old(self).visible_tiles,
                self.tile_content == old(self).tile_content,
                forall|xx: int, yy: int|
                    in_bounds(xx, yy) ==> #[trigger] self.tile(xx, yy) == if xx == x && lo <= yy < y {
                        TileType::Floor
                    } else {
                        old(self).tile(xx, yy)
                    },
            decreases hi + 1 - y,
        {
            self.set_tile(x, y, TileType::Floor);
            y = y + 1;
        }
    }

    /// Whether every tile of every room is floor or stairs.
    pub open spec fn rooms_carved(&self) -> bool {
        forall|i: int, x: int, y: int|
            #![trigger self.rooms@[i], self.tile(x, y)]
            0 <= i < self.rooms@.len() && in_bounds(x, y) && in_room(self.rooms@[i], x, y)
                ==> self.tile(x, y) != TileType::Wall
    }

    /// Builds a level of rooms joined by corridors: rooms of random size and
    /// place are kept when they meet no earlier room, each kept room is joined
    /// to the one kept before it by an L-shaped corridor between their
    /// centers, and the last room's center holds the stairs down.
    /// Builds the level that the given draws describe: each drawn room is
    /// kept when it meets no room kept before it (see `accepted`), each kept
    /// room after the first is joined to the one kept before it by an
    /// L-shaped corridor between their centers (along the row first when its
    /// draw says so), and the last room's center holds the stairs down.
    pub fn build_map(depth: i32, draws: &Vec<RoomDraw>) -> (m: GameMap)
        requires
            draws@.len() >= 1,
            forall|k: int| 0 <= k < draws@.len() ==> room_fits((#[trigger] draws@[k]).room),
        ensures
            m.rooms@ == accepted(draws@),
            m.wf(),
            m.depth == depth,
            m.rooms@.len() >= 1,
            m.rooms_disjoint(),
            m.rooms_fit(),
            m.rooms_carved(),
            m.border_is_wall(),
            all_linked(m),
            forall|i: int| 0 <= i < MAPCOUNT ==> #[trigger] m.tile_content@[i]@.len() == 0,
            m.tile(
                m.rooms@.last().center_spec().0,
                m.rooms@.last().center_spec().1,
            ) == TileType::DownStairs,
    {
        let mut map = GameMap::new_solid(depth);
        let mut i: usize = 0;
        while i < draws.len()
            invariant
                i <= draws@.len(),
                forall|k: int| 0 <= k < draws@.len() ==> room_fits((#[trigger] draws@[k]).room),
                map.rooms@ == accepted(draws@.subrange(0, i as int)),
                map.wf(),
                map.depth == depth,
                i > 0 ==> map.rooms@.len() >= 1,
                map.rooms_disjoint(),
                map.rooms_fit(),
                map.rooms_carved(),
                map.border_is_wall(),
                all_linked(map),
                forall|k: int| 0 <= k < MAPCOUNT ==> #[trigger] map.tile_content@[k]@.len() == 0,
            decreases draws@.len() - i,
        {
            let new_room = draws[i].room;
            let ghost accepted_before = map.rooms@;
            assert(draws@.subrange(0, i + 1).drop_last() =~= draws@.subrange(0, i as int));
            assert(draws@.subrange(0, i + 1).last() == draws@[i as int]);
            let mut ok = true;
            let mut j: usize = 0;
            while j < map.rooms.len()
                invariant
                    j <= map.rooms@.len(),
                    ok <==> forall|k: int|
                        0 <= k < j ==> !new_room.intersects_spec(#[trigger] &map.rooms@[k]),
                decreases map.rooms@.len() - j,
            {
                if new_room.intersect(&map.rooms[j]) {
                    ok = false;
                }
                j = j + 1;
            }
            if ok {
                let ghost before = map;
                map.apply_room_to_map(&new_room);
                proof {
                    lemma_carving_keeps(before, map);
                }
                let ghost carved = map;
                let ghost before_push = map;
                map.rooms.push(new_room);
                assert(map.rooms_carved()) by {
                    assert forall|k: int, xx: int, yy: int|
                        0 <= k < map.rooms@.len() && in_bounds(xx, yy) && in_room(
                            #[trigger] map.rooms@[k],
                            xx,
                            yy,
                        ) implies #[trigger] map.tile(xx, yy) != TileType::Wall by {
                        if k < before_push.rooms@.len() {
                            assert(before_push.rooms@[k] == map.rooms@[k]);
                            assert(before_push.tile(xx, yy) == map.tile(xx, yy));
                        }
                    }
                }
                assert(map.border_is_wall()) by {
                    assert forall|xx: int, yy: int|
                        in_bounds(xx, yy) && #[trigger] map.tile(xx, yy) != TileType::Wall implies in_interior(
                        xx,
                        yy,
                    ) by {
                        assert(before_push.tile(xx, yy) == map.tile(xx, yy));
                    }
                }
                if map.rooms.len() == 1 {
                    proof {
                        assert(map.rooms@ =~= seq![new_room]);
                        assert forall|x: int, y: int| #[trigger] passable(map, x, y) <==> in_bounds(x, y)
                            && in_room(new_room, x, y) by {
                            if in_bounds(x, y) {
                                assert(map.tile(x, y) == carved.tile(x, y));
                                assert(!passable(before, x, y));
                            }
                        }
                        lemma_first_room(map, new_room);
                    }
                }
                if map.rooms.len() > 1 {
                    let (new_x, new_y) = new_room.center();
                    let last = map.rooms.len() - 2;
                    let (prev_x, prev_y) = map.rooms[last].center();
                    proof {
                        lemma_center_in_room(new_room);
                        lemma_center_in_room(map.rooms@[last as int]);
                    }
                    let ghost b1 = map;
                    let row_first = draws[i].row_first;
                    if row_first {
                        map.apply_horizontal_tunnel(prev_x, new_x, prev_y);
                        proof {
                            lemma_carving_keeps(b1, map);
                        }
                        let ghost b2 = map;
                        map.apply_vertical_tunnel(prev_y, new_y, new_x);
                        proof {
                            lemma_carving_keeps(b2, map);
                        }
                    } else {
                        map.apply_vertical_tunnel(prev_y, new_y, prev_x);
                        proof {
                            lemma_carving_keeps(b1, map);
                        }
                        let ghost b2 = map;
                        map.apply_horizontal_tunnel(prev_x, new_x, new_y);
                        proof {
                            lemma_carving_keeps(b2, map);
                        }
                    }
                    proof {
                        assert(before.rooms@.last() == map.rooms@[last as int]);
                        assert forall|x: int, y: int| #[trigger] passable(map, x, y) <==> in_bounds(x, y) && (
                        before.tile(x, y) != TileType::Wall || in_room(new_room, x, y) || on_corridor(
                            before.rooms@.last(),
                            new_room,
                            row_first,
                            x,
                            y,
                        )) by {
                            if in_bounds(x, y) {
                                assert(b1.tile(x, y) == carved.tile(x, y));
                            }
                        }
                        lemma_link_room(before, map, new_room, row_first);
                    }
                }
            }
            proof {
                assert(accepted(draws@.subrange(0, i + 1)) == if forall|k: int|
                    0 <= k < accepted_before.len() ==> !new_room.intersects_spec(&accepted_before[k]) {
                    accepted_before.push(new_room)
                } else {
                    accepted_before
                });
            }
            i = i + 1;
        }
        assert(draws@.subrange(0, draws@.len() as int) =~= draws@);
        let last = map.rooms.len() - 1;
        let (sx, sy) = map.rooms[last].center();
        proof {
            lemma_center_in_room(map.rooms@[last as int]);
        }
        let ghost before = map;
        map.set_tile(sx, sy, TileType::DownStairs);
        proof {
            lemma_carving_keeps(before, map);
            assert forall|x: int, y: int| #[trigger] passable(before, x, y) implies passable(map, x, y) by {}
            assert forall|x: int, y: int| #[trigger] passable(map, x, y) implies connected(
                map,
                map.rooms@[0].center_spec(),
                (x, y),
            ) by {
                assert(passable(before, x, y));
                lemma_persist(before, map, before.rooms@[0].center_spec(), (x, y));
            }
        }
        map
    }

    /// Draws the room proposals for a level: for each of thirty, a size of
    /// six to nine tiles a side, a place on the grid, and a corridor order.
    pub fn draw_rooms(rng: &mut RandomNumberGenerator) -> (draws: Vec<RoomDraw>)
        ensures
            draws@.len() == MAX_ROOMS,
            forall|k: int| 0 <= k < draws@.len() ==> draw_ok(#[trigger] draws@[k]),
    {
        let mut draws: Vec<RoomDraw> = Vec::new();
        let mut i: i32 = 0;
        while i < MAX_ROOMS
            invariant
                0 <= i <= MAX_ROOMS,
                draws@.len() == i,
                forall|k: int| 0 <= k < draws@.len() ==> draw_ok(#[trigger] draws@[k]),
            decreases MAX_ROOMS - i,
        {
            let w = range_i64(rng, MIN_SIZE as i64, MAX_SIZE as i64) as i32;
            let h = range_i64(rng, MIN_SIZE as i64, MAX_SIZE as i64) as i32;
            let x = roll_dice(rng, 1, MAPWIDTH as i32 - w - 1) - 1;
            let y = roll_dice(rng, 1, MAPHEIGHT as i32 - h - 1) - 1;
            let row_first = range_i64(rng, 0, 2) == 1;
            draws.push(RoomDraw { room: Rect::new(x, y, w, h), row_first });
            i = i + 1;
        }
        draws
    }

    /// Builds a level of rooms joined by corridors from freshly drawn room
    /// proposals; see `draw_rooms` and `build_map`.
    pub fn new_map_rooms_and_corridors(depth: i32, rng: &mut RandomNumberGenerator) -> (m: GameMap)
        ensures
            exists|ds: Seq<RoomDraw>|
                ds.len() == MAX_ROOMS && (forall|k: int| 0 <= k < ds.len() ==> draw_ok(#[trigger] ds[k]))
                    && #[trigger] accepted(ds) == m.rooms@,
            m.wf(),
            m.depth == depth,
            m.rooms@.len() >= 1,
            m.rooms_disjoint(),
            m.rooms_fit(),
            m.rooms_carved(),
            m.border_is_wall(),
            all_linked(m),
            forall|i: int| 0 <= i < MAPCOUNT ==> #[trigger] m.tile_content@[i]@.len() == 0,
            m.tile(m.rooms@.last().center_spec().0, m.rooms@.last().center_spec().1)
                == TileType::DownStairs,
    {
        let draws = GameMap::draw_rooms(rng);
        let m = GameMap::build_map(depth, &draws);
        assert(accepted(draws@) == m.rooms@);
        m
    }
}

/// Whether `after` differs from `before` only in interior tiles that it
/// carved out of wall, with the same rooms.
pub open spec fn carves(before: GameMap, after: GameMap) -> bool {
    &&& after.rooms == before.rooms
    &&& forall|x: int, y: int|
        in_bounds(x, y) && #[trigger] before.tile(x, y) != TileType::Wall ==> after.tile(x, y)
            != TileType::Wall
    &&& forall|x: int, y: int|
        in_bounds(x, y) && #[trigger] after.tile(x, y) != TileType::Wall ==> before.tile(x, y)
            != TileType::Wall || in_interior(x, y)
}

/// Carving keeps the rooms carved and the border solid.
proof fn lemma_carving_keeps(before: GameMap, after: GameMap)
    requires
        before.rooms_carved(),
        before.border_is_wall(),
        carves(before, after),
    ensures
        after.rooms_carved(),
        after.border_is_wall(),
{
    assert forall|k: int, x: int, y: int|
        0 <= k < after.rooms@.len() && in_bounds(x, y) && in_room(
            #[trigger] after.rooms@[k],
            x,
            y,
        ) implies #[trigger] after.tile(x, y) != TileType::Wall by {
        assert(before.rooms@[k] == after.rooms@[k]);
        assert(before.tile(x, y) != TileType::Wall);
    }
    assert forall|x: int, y: int|
        in_bounds(x, y) && #[trigger] after.tile(x, y) != TileType::Wall implies in_interior(x, y) by {
        if before.tile(x, y) != TileType::Wall {
        }
    }
}

} // verus!
