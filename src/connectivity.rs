use vstd::prelude::*;
use crate::map::{GameMap, in_bounds, in_room, room_fits, TileType};
use crate::rect::Rect;

verus! {

/// Whether `(x, y)` is on the grid and not a wall.
pub open spec fn passable(m: GameMap, x: int, y: int) -> bool {
    in_bounds(x, y) && m.tile(x, y) != TileType::Wall
}

/// Whether two tiles share a side.
pub open spec fn adjacent(a: (int, int), b: (int, int)) -> bool {
    (a.0 == b.0 && (a.1 == b.1 + 1 || a.1 + 1 == b.1)) || (a.1 == b.1 && (a.0 == b.0 + 1 || a.0 + 1
        == b.0))
}

/// Whether `p` is a walk over passable tiles, each step to a side neighbour.
pub open spec fn is_walk(m: GameMap, p: Seq<(int, int)>) -> bool {
    &&& p.len() >= 1
    &&& forall|i: int| 0 <= i < p.len() ==> passable(m, (#[trigger] p[i]).0, p[i].1)
    &&& forall|i: int| 0 <= i < p.len() - 1 ==> #[trigger] adjacent(p[i], p[i + 1])
}

/// Whether a walk leads from `a` to `b`.
pub open spec fn connected(m: GameMap, a: (int, int), b: (int, int)) -> bool {
    exists|p: Seq<(int, int)>| #[trigger] is_walk(m, p) && p[0] == a && p[p.len() - 1] == b
}

/// Whether `x` lies between `a` and `b`, either way round.
pub open spec fn between(x: int, a: int, b: int) -> bool {
    (a <= x <= b) || (b <= x <= a)
}

/// The tiles of the corridor dug between the centers of `prev` and
/// `room`: along the row of the first and then the column of the second
/// when `row_first`, else along the column of the first and then the row
/// of the second.
pub open spec fn on_corridor(prev: Rect, room: Rect, row_first: bool, x: int, y: int) -> bool {
    let (px, py) = prev.center_spec();
    let (rx, ry) = room.center_spec();
    if row_first {
        (y == py && between(x, px, rx)) || (x == rx && between(y, py, ry))
    } else {
        (x == px && between(y, py, ry)) || (y == ry && between(x, px, rx))
    }
}

/// Whether every passable tile can be reached from the center of the
/// first room (and, with no room yet, no tile is passable).
pub open spec fn all_linked(m: GameMap) -> bool {
    if m.rooms@.len() == 0 {
        forall|x: int, y: int| !(#[trigger] passable(m, x, y))
    } else {
        forall|x: int, y: int|
            #[trigger] passable(m, x, y) ==> connected(m, m.rooms@[0].center_spec(), (x, y))
    }
}

pub proof fn lemma_connected_self(m: GameMap, a: (int, int))
    requires
        passable(m, a.0, a.1),
    ensures
        connected(m, a, a),
{
    let p = seq![a];
    assert(is_walk(m, p));
}

/// A walk extends by a step to a passable neighbour.
pub proof fn lemma_extend(m: GameMap, a: (int, int), b: (int, int), c: (int, int))
    requires
        connected(m, a, b),
        adjacent(b, c),
        passable(m, c.0, c.1),
    ensures
        connected(m, a, c),
{
    let p = choose|p: Seq<(int, int)>| #[trigger] is_walk(m, p) && p[0] == a && p[p.len() - 1] == b;
    let q = p.push(c);
    assert forall|i: int| 0 <= i < q.len() implies passable(m, (#[trigger] q[i]).0, q[i].1) by {
        if i < p.len() {
            assert(q[i] == p[i]);
        }
    }
    assert forall|i: int| 0 <= i < q.len() - 1 implies #[trigger] adjacent(q[i], q[i + 1]) by {
        if i < p.len() - 1 {
            assert(q[i] == p[i] && q[i + 1] == p[i + 1]);
        }
    }
    assert(is_walk(m, q));
}

/// Walks survive carving: a map whose passable tiles include those of
/// another keeps all of its walks.
pub proof fn lemma_persist(m1: GameMap, m2: GameMap, a: (int, int), b: (int, int))
    requires
        connected(m1, a, b),
        forall|x: int, y: int| #[trigger] passable(m1, x, y) ==> passable(m2, x, y),
    ensures
        connected(m2, a, b),
{
    let p = choose|p: Seq<(int, int)>| #[trigger] is_walk(m1, p) && p[0] == a && p[p.len() - 1] == b;
    assert forall|i: int| 0 <= i < p.len() implies passable(m2, (#[trigger] p[i]).0, p[i].1) by {
        assert(passable(m1, p[i].0, p[i].1));
    }
    assert(is_walk(m2, p));
}

/// Along a passable stretch of row `y`, every tile is reached from where
/// the stretch starts.
pub proof fn lemma_row(m: GameMap, a: (int, int), y: int, x1: int, x2: int, x: int)
    requires
        connected(m, a, (x1, y)),
        forall|k: int| between(k, x1, x2) ==> #[trigger] passable(m, k, y),
        between(x, x1, x2),
    ensures
        connected(m, a, (x, y)),
    decreases if x >= x1 { x - x1 } else { x1 - x },
{
    if x != x1 {
        let prev = if x > x1 { x - 1 } else { x + 1 };
        lemma_row(m, a, y, x1, x2, prev);
        assert(passable(m, x, y));
        lemma_extend(m, a, (prev, y), (x, y));
    }
}

/// Along a passable stretch of column `x`, every tile is reached from
/// where the stretch starts.
pub proof fn lemma_column(m: GameMap, a: (int, int), x: int, y1: int, y2: int, y: int)
    requires
        connected(m, a, (x, y1)),
        forall|k: int| between(k, y1, y2) ==> #[trigger] passable(m, x, k),
        between(y, y1, y2),
    ensures
        connected(m, a, (x, y)),
    decreases if y >= y1 { y - y1 } else { y1 - y },
{
    if y != y1 {
        let prev = if y > y1 { y - 1 } else { y + 1 };
        lemma_column(m, a, x, y1, y2, prev);
        assert(passable(m, x, y));
        lemma_extend(m, a, (x, prev), (x, y));
    }
}

/// Whoever reaches a room's center reaches all of the room, when all its
/// tiles are passable.
pub proof fn lemma_room(m: GameMap, a: (int, int), room: Rect, x: int, y: int)
    requires
        room_fits(room),
        forall|xx: int, yy: int| in_room(room, xx, yy) ==> #[trigger] passable(m, xx, yy),
        connected(m, a, room.center_spec()),
        in_room(room, x, y),
    ensures
        connected(m, a, (x, y)),
{
    crate::map::lemma_center_in_room(room);
    let (cx, cy) = room.center_spec();
    assert forall|k: int| between(k, cx, x) implies #[trigger] passable(m, k, cy) by {
        assert(in_room(room, k, cy));
    }
    lemma_row(m, a, cy, cx, x, x);
    assert forall|k: int| between(k, cy, y) implies #[trigger] passable(m, x, k) by {
        assert(in_room(room, x, k));
    }
    lemma_column(m, a, x, cy, y, y);
}

/// The first room carved into solid rock is linked up.
pub proof fn lemma_first_room(m: GameMap, room: Rect)
    requires
        room_fits(room),
        m.rooms@ == seq![room],
        forall|x: int, y: int| #[trigger] passable(m, x, y) <==> in_bounds(x, y) && in_room(room, x, y),
    ensures
        all_linked(m),
{
    crate::map::lemma_center_in_room(room);
    let c = room.center_spec();
    assert(passable(m, c.0, c.1));
    lemma_connected_self(m, c);
    assert forall|x: int, y: int| #[trigger] passable(m, x, y) implies connected(m, m.rooms@[0].center_spec(), (x, y)) by {
        assert forall|xx: int, yy: int| in_room(room, xx, yy) implies #[trigger] passable(m, xx, yy) by {
            assert(in_bounds(xx, yy));
        }
        lemma_room(m, c, room, x, y);
    }
}

/// A room joined by a corridor to the room before it keeps the level
/// linked up.
pub proof fn lemma_link_room(before: GameMap, after: GameMap, room: Rect, row_first: bool)
    requires
        before.rooms@.len() >= 1,
        all_linked(before),
        before.rooms_carved(),
        before.rooms_fit(),
        room_fits(room),
        after.rooms@ == before.rooms@.push(room),
        forall|x: int, y: int|
            #[trigger] passable(after, x, y) <==> in_bounds(x, y) && (before.tile(x, y) != TileType::Wall
                || in_room(room, x, y) || on_corridor(before.rooms@.last(), room, row_first, x, y)),
    ensures
        all_linked(after),
{
    let prev = before.rooms@.last();
    let s = before.rooms@[0].center_spec();
    assert(after.rooms@[0] == before.rooms@[0]);
    assert(room_fits(prev)) by {
        assert(prev == before.rooms@[before.rooms@.len() - 1]);
    }
    crate::map::lemma_center_in_room(prev);
    crate::map::lemma_center_in_room(room);
    let (px, py) = prev.center_spec();
    let (rx, ry) = room.center_spec();
    assert forall|x: int, y: int| #[trigger] passable(before, x, y) implies passable(after, x, y) by {}
    // The previous room's center is reached in the old map, hence in the new.
    assert(passable(before, px, py)) by {
        assert(before.rooms@[before.rooms@.len() - 1] == prev);
    }
    lemma_persist(before, after, s, (px, py));
    // Along the corridor to the new room's center.
    if row_first {
        assert forall|k: int| between(k, px, rx) implies #[trigger] passable(after, k, py) by {
            assert(on_corridor(prev, room, row_first, k, py));
        }
        lemma_row(after, s, py, px, rx, rx);
        assert forall|k: int| between(k, py, ry) implies #[trigger] passable(after, rx, k) by {
            assert(on_corridor(prev, room, row_first, rx, k));
        }
        lemma_column(after, s, rx, py, ry, ry);
    } else {
        assert forall|k: int| between(k, py, ry) implies #[trigger] passable(after, px, k) by {
            assert(on_corridor(prev, room, row_first, px, k));
        }
        lemma_column(after, s, px, py, ry, ry);
        assert forall|k: int| between(k, px, rx) implies #[trigger] passable(after, k, ry) by {
            assert(on_corridor(prev, room, row_first, k, ry));
        }
        lemma_row(after, s, ry, px, rx, rx);
    }
    assert(connected(after, s, room.center_spec()));
    assert forall|xx: int, yy: int| in_room(room, xx, yy) implies #[trigger] passable(after, xx, yy) by {
        assert(in_bounds(xx, yy));
    }
    assert forall|x: int, y: int| #[trigger] passable(after, x, y) implies connected(after, after.rooms@[0].center_spec(), (x, y)) by {
        if before.tile(x, y) != TileType::Wall {
            assert(passable(before, x, y));
            lemma_persist(before, after, s, (x, y));
        } else if in_room(room, x, y) {
            lemma_room(after, s, room, x, y);
        } else if row_first {
            if y == py && between(x, px, rx) {
                assert forall|k: int| between(k, px, rx) implies #[trigger] passable(after, k, py) by {
                    assert(on_corridor(prev, room, row_first, k, py));
                }
                lemma_row(after, s, py, px, rx, x);
            } else {
                assert forall|k: int| between(k, px, rx) implies #[trigger] passable(after, k, py) by {
                    assert(on_corridor(prev, room, row_first, k, py));
                }
                lemma_row(after, s, py, px, rx, rx);
                assert forall|k: int| between(k, py, ry) implies #[trigger] passable(after, rx, k) by {
                    assert(on_corridor(prev, room, row_first, rx, k));
                }
                lemma_column(after, s, rx, py, ry, y);
            }
        } else {
            if x == px && between(y, py, ry) {
                assert forall|k: int| between(k, py, ry) implies #[trigger] passable(after, px, k) by {
                    assert(on_corridor(prev, room, row_first, px, k));
                }
                lemma_column(after, s, px, py, ry, y);
            } else {
                assert forall|k: int| between(k, py, ry) implies #[trigger] passable(after, px, k) by {
                    assert(on_corridor(prev, room, row_first, px, k));
                }
                lemma_column(after, s, px, py, ry, ry);
                assert forall|k: int| between(k, px, rx) implies #[trigger] passable(after, k, ry) by {
                    assert(on_corridor(prev, room, row_first, k, ry));
                }
                lemma_row(after, s, ry, px, rx, x);
            }
        }
    }
}

} // verus!
