use vstd::prelude::*;
use crate::components::{Entity, Position};
use crate::world::World;

verus! {

/// Whether `e` is a monster that sees the player.
pub open spec fn sees_player(w: World, e: int) -> bool {
    &&& w.monsters@[e]
    &&& w.viewsheds@[e].is_some()
    &&& w.viewsheds@[e].unwrap().visible_tiles@.contains(w.player_pos)
}

/// The monsters among the first `k` entities that see the player, in order.
pub open spec fn spotters(w: World, k: int) -> Seq<Entity>
    decreases k,
{
    if k <= 0 {
        Seq::empty()
    } else if sees_player(w, k - 1) {
        spotters(w, k - 1).push((k - 1) as Entity)
    } else {
        spotters(w, k - 1)
    }
}

/// Those who spot the player are monsters that see the player.
pub proof fn lemma_spotters_see(w: World, k: int)
    requires
        0 <= k <= w.monsters@.len(),
        k <= usize::MAX,
    ensures
        forall|i: int|
            0 <= i < spotters(w, k).len() ==> 0 <= #[trigger] spotters(w, k)[i] < k && sees_player(
                w,
                spotters(w, k)[i] as int,
            ),
    decreases k,
{
    if k > 0 {
        lemma_spotters_see(w, k - 1);
        if sees_player(w, k - 1) {
            let prev = spotters(w, k - 1);
            assert forall|i: int| 0 <= i < spotters(w, k).len() implies 0 <= #[trigger] spotters(w, k)[i]
                < k && sees_player(w, spotters(w, k)[i] as int) by {
                if i < prev.len() {
                    assert(spotters(w, k)[i] == prev[i]);
                } else {
                    assert(spotters(w, k)[i] == (k - 1) as Entity);
                    assert(((k - 1) as Entity) as int == k - 1);
                }
            }
        } else {
            assert(spotters(w, k) == spotters(w, k - 1));
        }
    }
}

fn contains_position(s: &Vec<Position>, p: Position) -> (r: bool)
    ensures
        r == s@.contains(p),
{
    let mut i: usize = 0;
    while i < s.len()
        invariant
            i <= s@.len(),
            forall|k: int| 0 <= k < i ==> s@[k] != p,
        decreases s@.len() - i,
    {
        if s[i] == p {
            return true;
        }
        i = i + 1;
    }
    false
}

/// Finds the monsters that see the player: those are the ones that react
/// this turn. Monsters that do not see the player do nothing.
pub struct MonsterAI {}

impl MonsterAI {
    pub fn run(&mut self, world: &World) -> (r: Vec<Entity>)
        requires
            world.wf(),
        ensures
            r@ == spotters(*world, world.n() as int),
    {
        let n = world.alive.len();
        let mut r: Vec<Entity> = Vec::new();
        let mut e: usize = 0;
        while e < n
            invariant
                world.wf(),
                n == world.n(),
                e <= n,
                r@ == spotters(*world, e as int),
            decreases n - e,
        {
            if world.monsters[e] {
                match &world.viewsheds[e] {
                    Some(vs) => {
                        if contains_position(&vs.visible_tiles, world.player_pos) {
                            r.push(e);
                        }
                    },
                    None => {},
                }
            }
            e = e + 1;
        }
        r
    }
}

} // verus!
