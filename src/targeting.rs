use vstd::prelude::*;
use crate::components::{Entity, Position};
use crate::map::{GameMap, in_interior, idx_of, MAPHEIGHT, MAPWIDTH};
use crate::world::{pos_in_bounds, World};

verus! {

/// `s` with `e` appended unless it already holds it.
pub open spec fn dedup_push(s: Seq<Entity>, e: Entity) -> Seq<Entity> {
    if s.contains(e) {
        s
    } else {
        s.push(e)
    }
}

/// `acc` followed by those of `es` that it does not hold yet, in order,
/// each once.
pub open spec fn add_all(acc: Seq<Entity>, es: Seq<Entity>) -> Seq<Entity>
    decreases es.len(),
{
    if es.len() == 0 {
        acc
    } else {
        dedup_push(add_all(acc, es.drop_last()), es.last())
    }
}

/// The entities standing on the interior tiles of `blast`, each once, in
/// the order of the tiles.
pub open spec fn blast_targets(map: GameMap, blast: Seq<Position>) -> Seq<Entity>
    decreases blast.len(),
{
    if blast.len() == 0 {
        Seq::empty()
    } else {
        let prev = blast_targets(map, blast.drop_last());
        let p = blast.last();
        if in_interior(p.x as int, p.y as int) {
            add_all(prev, map.tile_content@[idx_of(p.x as int, p.y as int)]@)
        } else {
            prev
        }
    }
}

/// Whether `item` has an area of effect.
pub open spec fn has_aoe(w: World, item: Entity) -> bool {
    w.items@[item as int].is_some() && w.items@[item as int].unwrap().aoe_radius.is_some()
}

/// Whom `user`'s use of `item` reaches: the user when no target is given; else,
/// for an item with an area of effect, the entities on the interior tiles
/// of the blast; else the entities on the target tile.
pub open spec fn targets_spec(
    w: World,
    user: Entity,
    item: Entity,
    target: Option<Position>,
    blast: Seq<Position>,
) -> Seq<Entity> {
    match target {
        None => seq![user],
        Some(t) => if has_aoe(w, item) {
            blast_targets(w.map, blast)
        } else if pos_in_bounds(t) {
            add_all(Seq::empty(), w.map.tile_content@[idx_of(t.x as int, t.y as int)]@)
        } else {
            Seq::empty()
        },
    }
}

fn contains_entity(s: &Vec<Entity>, e: Entity) -> (r: bool)
    ensures
        r == s@.contains(e),
{
    let mut i: usize = 0;
    while i < s.len()
        invariant
            i <= s@.len(),
            forall|k: int| 0 <= k < i ==> s@[k] != e,
        decreases s@.len() - i,
    {
        if s[i] == e {
            return true;
        }
        i = i + 1;
    }
    false
}

/// Appends to `acc` each entity of `es` that it does not hold yet.
fn push_all_new(acc: &mut Vec<Entity>, es: &Vec<Entity>, n: Ghost<nat>)
    requires
        old(acc)@.no_duplicates(),
        forall|k: int| 0 <= k < old(acc)@.len() ==> #[trigger] old(acc)@[k] < n@,
        forall|k: int| 0 <= k < es@.len() ==> #[trigger] es@[k] < n@,
    ensures
        final(acc)@ == add_all(old(acc)@, es@),
        final(acc)@.no_duplicates(),
        forall|k: int| 0 <= k < final(acc)@.len() ==> #[trigger] final(acc)@[k] < n@,
{
    let mut i: usize = 0;
    while i < es.len()
        invariant
            i <= es@.len(),
            acc@ == add_all(old(acc)@, es@.subrange(0, i as int)),
            acc@.no_duplicates(),
            forall|k: int| 0 <= k < acc@.len() ==> #[trigger] acc@[k] < n@,
            forall|k: int| 0 <= k < es@.len() ==> #[trigger] es@[k] < n@,
        decreases es@.len() - i,
    {
        let e = es[i];
        assert(es@.subrange(0, i + 1).drop_last() =~= es@.subrange(0, i as int));
        assert(es@.subrange(0, i + 1).last() == e);
        if !contains_entity(acc, e) {
            acc.push(e);
        }
        i = i + 1;
    }
    assert(es@.subrange(0, es@.len() as int) =~= es@);
}

impl World {
    /// The entities that using `item` reaches; see `targets_spec`.
    pub fn resolve_targets(&self, user: Entity, item: Entity, target: Option<Position>, blast: &Vec<Position>) -> (r:
        Vec<Entity>)
        requires
            self.wf(),
            item < self.n(),
            user < self.n(),
        ensures
            r@ == targets_spec(*self, user, item, target, blast@),
            r@.no_duplicates(),
            forall|k: int| 0 <= k < r@.len() ==> #[trigger] r@[k] < self.n(),
    {
        let ghost n = self.n();
        let mut targets: Vec<Entity> = Vec::new();
        match target {
            None => {
                targets.push(user);
                assert(targets@ =~= seq![user]);
            },
            Some(t) => {
                let aoe = match &self.items[item] {
                    Some(f) => f.aoe_radius.is_some(),
                    None => false,
                };
                if aoe {
                    let mut i: usize = 0;
                    while i < blast.len()
                        invariant
                            self.wf(),
                            n == self.n(),
                            i <= blast@.len(),
                            targets@ == blast_targets(self.map, blast@.subrange(0, i as int)),
                            targets@.no_duplicates(),
                            forall|k: int| 0 <= k < targets@.len() ==> #[trigger] targets@[k] < n,
                        decreases blast@.len() - i,
                    {
                        let p = blast[i];
                        assert(blast@.subrange(0, i + 1).drop_last() =~= blast@.subrange(0, i as int));
                        assert(blast@.subrange(0, i + 1).last() == p);
                        if 1 <= p.x && p.x < (MAPWIDTH as i32) - 1 && 1 <= p.y && p.y < (MAPHEIGHT
                            as i32) - 1 {
                            let idx = self.map.xy_idx(p.x, p.y);
                            push_all_new(&mut targets, &self.map.tile_content[idx], Ghost(n));
                        }
                        i = i + 1;
                    }
                    assert(blast@.subrange(0, blast@.len() as int) =~= blast@);
                } else if 0 <= t.x && t.x < MAPWIDTH as i32 && 0 <= t.y && t.y < MAPHEIGHT as i32 {
                    let idx = self.map.xy_idx(t.x, t.y);
                    push_all_new(&mut targets, &self.map.tile_content[idx], Ghost(n));
                }
            },
        }
        targets
    }
}

} // verus!
