use vstd::prelude::*;
use crate::components::{Entity, Position, Renderable};
use crate::map::idx_of;
use crate::world::World;

verus! {

/// One thing to draw: where, how, and whether its tile is in view.
#[derive(Clone, Copy, Debug, PartialEq, Eq, Structural)]
pub struct RenderItem {
    pub entity: Entity,
    pub visible: bool,
    pub pos: Position,
    pub render: Renderable,
}

/// Whether `e` has a place and a look.
pub open spec fn drawable(w: World, e: int) -> bool {
    w.positions@[e].is_some() && w.renderables@[e].is_some()
}

/// Whether `it` describes its entity as the world has it.
pub open spec fn describes(w: World, it: RenderItem) -> bool {
    &&& it.entity < w.n()
    &&& drawable(w, it.entity as int)
    &&& it.pos == w.positions@[it.entity as int].unwrap()
    &&& it.render == w.renderables@[it.entity as int].unwrap()
    &&& it.visible == w.map.visible_tiles@[idx_of(it.pos.x as int, it.pos.y as int)]
}

/// Whether the items run from the highest draw order to the lowest, so that
/// order zero is drawn last, on top.
pub open spec fn draw_sorted(s: Seq<RenderItem>) -> bool {
    forall|a: int, b: int|
        #![trigger s[a], s[b]]
        0 <= a < b < s.len() ==> s[a].render.render_order >= s[b].render.render_order
}

/// Puts `item` into the sorted `r` after every item of its draw order or
/// higher.
#[verifier::rlimit(50)]
fn insert_sorted(r: &mut Vec<RenderItem>, item: RenderItem)
    requires
        draw_sorted(old(r)@),
        forall|k: int| 0 <= k < old(r)@.len() ==> (#[trigger] old(r)@[k]).entity != item.entity,
        forall|a: int, b: int|
            #![trigger old(r)@[a], old(r)@[b]]
            0 <= a < old(r)@.len() && 0 <= b < old(r)@.len() && a != b ==> old(r)@[a].entity
                != old(r)@[b].entity,
    ensures
        draw_sorted(final(r)@),
        final(r)@.len() == old(r)@.len() + 1,
        forall|k: int|
            0 <= k < final(r)@.len() ==> #[trigger] final(r)@[k] == item || old(r)@.contains(final(r)@[k]),
        forall|k: int| 0 <= k < old(r)@.len() ==> final(r)@.contains(#[trigger] old(r)@[k]),
        final(r)@.contains(item),
        forall|a: int, b: int|
            #![trigger final(r)@[a], final(r)@[b]]
            0 <= a < final(r)@.len() && 0 <= b < final(r)@.len() && a != b ==> final(r)@[a].entity
                != final(r)@[b].entity,
{
    let order = item.render.render_order;
    let mut i: usize = 0;
    while i < r.len() && r[i].render.render_order >= order
        invariant
            i <= r@.len(),
            forall|j: int| 0 <= j < i ==> (#[trigger] r@[j]).render.render_order >= order,
        decreases r@.len() - i,
    {
        i = i + 1;
    }
    let ghost before = r@;
    r.insert(i, item);
    proof {
        before.insert_ensures(i as int, item);
        assert(r@[i as int] == item);
        assert forall|a: int, b: int|
            #![trigger r@[a], r@[b]]
            0 <= a < b < r@.len() implies r@[a].render.render_order >= r@[b].render.render_order by {
            if b < i {
                assert(r@[a] == before[a] && r@[b] == before[b]);
            } else if b == i {
                assert(r@[a] == before[a]);
            } else if a < i {
                assert(r@[a] == before[a] && r@[b] == before[b - 1]);
                assert(before[i as int].render.render_order < order);
                if b - 1 > i {
                    assert(before[i as int].render.render_order >= before[b - 1].render.render_order);
                }
            } else if a == i {
                assert(r@[b] == before[b - 1]);
                assert(before[i as int].render.render_order < order);
                if b - 1 > i {
                    assert(before[i as int].render.render_order >= before[b - 1].render.render_order);
                }
            } else {
                assert(r@[a] == before[a - 1] && r@[b] == before[b - 1]);
            }
        }
        assert forall|k: int| 0 <= k < r@.len() implies #[trigger] r@[k] == item || before.contains(r@[k]) by {
            if k < i {
                assert(r@[k] == before[k]);
            } else if k > i {
                assert(r@[k] == before[k - 1]);
            }
        }
        assert forall|k: int| 0 <= k < before.len() implies r@.contains(#[trigger] before[k]) by {
            if k < i {
                assert(r@[k] == before[k]);
            } else {
                assert(r@[k + 1] == before[k]);
            }
        }
        assert forall|a: int, b: int|
            #![trigger r@[a], r@[b]]
            0 <= a < r@.len() && 0 <= b < r@.len() && a != b implies r@[a].entity != r@[b].entity by {
            let pa = if a < i { a } else if a == i { -1 } else { a - 1 };
            let pb = if b < i { b } else if b == i { -1 } else { b - 1 };
            if pa >= 0 {
                assert(r@[a] == before[pa]);
            }
            if pb >= 0 {
                assert(r@[b] == before[pb]);
            }
        }
    }
}

impl World {
    /// Everything to draw, once each, from the highest draw order to the
    /// lowest.
    pub fn render_list(&self) -> (r: Vec<RenderItem>)
        requires
            self.wf(),
        ensures
            draw_sorted(r@),
            forall|k: int| 0 <= k < r@.len() ==> describes(*self, #[trigger] r@[k]),
            forall|a: int, b: int|
                #![trigger r@[a], r@[b]]
                0 <= a < r@.len() && 0 <= b < r@.len() && a != b ==> r@[a].entity != r@[b].entity,
            forall|e: Entity|
                e < self.n() && #[trigger] drawable(*self, e as int) ==> exists|k: int|
                    0 <= k < r@.len() && (#[trigger] r@[k]).entity == e,
    {
        let n = self.alive.len();
        let mut r: Vec<RenderItem> = Vec::new();
        let mut e: usize = 0;
        while e < n
            invariant
                self.wf(),
                n == self.n(),
                e <= n,
                draw_sorted(r@),
                forall|k: int| 0 <= k < r@.len() ==> describes(*self, #[trigger] r@[k]),
                forall|k: int| 0 <= k < r@.len() ==> (#[trigger] r@[k]).entity < e,
                forall|a: int, b: int|
                    #![trigger r@[a], r@[b]]
                    0 <= a < r@.len() && 0 <= b < r@.len() && a != b ==> r@[a].entity != r@[b].entity,
                forall|x: Entity|
                    x < e && #[trigger] drawable(*self, x as int) ==> exists|k: int|
                        0 <= k < r@.len() && (#[trigger] r@[k]).entity == x,
            decreases n - e,
        {
            match (self.positions[e], self.renderables[e]) {
                (Some(pos), Some(render)) => {
                    let idx = self.map.xy_idx(pos.x, pos.y);
                    let item = RenderItem { entity: e, visible: self.map.visible_tiles[idx], pos, render };
                    let ghost before = r@;
                    insert_sorted(&mut r, item);
                    proof {
                        assert forall|k: int| 0 <= k < r@.len() implies describes(*self, #[trigger] r@[k])
                            && r@[k].entity < e + 1 by {
                            if r@[k] != item {
                                let j = choose|j: int| 0 <= j < before.len() && before[j] == r@[k];
                                assert(describes(*self, before[j]));
                            }
                        }
                        assert forall|x: Entity|
                            x < e + 1 && #[trigger] drawable(*self, x as int) implies exists|k: int|
                            0 <= k < r@.len() && (#[trigger] r@[k]).entity == x by {
                            if x == e {
                                let k = choose|k: int| 0 <= k < r@.len() && r@[k] == item;
                                assert(r@[k].entity == x);
                            } else {
                                let j = choose|j: int| 0 <= j < before.len() && (#[trigger] before[j]).entity == x;
                                assert(r@.contains(before[j]));
                                let k = choose|k: int| 0 <= k < r@.len() && r@[k] == before[j];
                                assert(r@[k].entity == x);
                            }
                        }
                    }
                },
                _ => {},
            }
            e = e + 1;
        }
        r
    }
}

} // verus!
