use vstd::prelude::*;
use crate::components::{CombatStats, Entity};
use crate::world::World;

verus! {

/// The sum of a list of damage amounts.
pub open spec fn total(s: Seq<i32>) -> int
    decreases s.len(),
{
    if s.len() == 0 {
        0
    } else {
        total(s.drop_last()) + s.last() as int
    }
}

/// `v` held to the range of `i32`.
pub open spec fn clamp_i32(v: int) -> i32 {
    if v > i32::MAX {
        i32::MAX
    } else if v < i32::MIN {
        i32::MIN
    } else {
        v as i32
    }
}

/// `s` after taking the damage listed in `pending`, with no floor at zero.
pub open spec fn damaged(s: CombatStats, pending: Seq<i32>) -> CombatStats {
    CombatStats {
        max_hp: s.max_hp,
        hp: clamp_i32(s.hp - total(pending)),
        defense: s.defense,
        power: s.power,
    }
}

proof fn lemma_total_bounds(s: Seq<i32>)
    ensures
        -(s.len() as int) * 0x8000_0000 <= total(s) <= (s.len() as int) * 0x8000_0000,
    decreases s.len(),
{
    if s.len() > 0 {
        lemma_total_bounds(s.drop_last());
    }
}

/// Damage appended by several sources adds up: the total of two lists one
/// after the other is the sum of their totals.
pub proof fn lemma_total_append(a: Seq<i32>, b: Seq<i32>)
    ensures
        total(a + b) == total(a) + total(b),
    decreases b.len(),
{
    if b.len() > 0 {
        lemma_total_append(a, b.drop_last());
        assert((a + b).drop_last() =~= a + b.drop_last());
    }
}

/// Pending damage is applied once: hit points fall by exactly the total of
/// the pending amounts, however many sources listed them, and with the list
/// emptied afterwards a second application changes nothing.
pub proof fn lemma_damage_applied_once(s: CombatStats, first: Seq<i32>, second: Seq<i32>)
    requires
        i32::MIN <= s.hp - total(first + second) <= i32::MAX,
    ensures
        damaged(s, first + second).hp == s.hp - total(first) - total(second),
        damaged(damaged(s, first + second), Seq::empty()) == damaged(s, first + second),
{
    lemma_total_append(first, second);
}

/// The total of `pending`, exactly.
fn sum_pending(pending: &Vec<i32>) -> (r: i128)
    ensures
        r == total(pending@),
{
    let mut sum: i128 = 0;
    let mut i: usize = 0;
    while i < pending.len()
        invariant
            i <= pending@.len(),
            sum == total(pending@.subrange(0, i as int)),
        decreases pending@.len() - i,
    {
        proof {
            lemma_total_bounds(pending@.subrange(0, i as int));
        }
        assert(pending@.subrange(0, i + 1).drop_last() =~= pending@.subrange(0, i as int));
        sum = sum + pending[i] as i128;
        i = i + 1;
    }
    assert(pending@.subrange(0, pending@.len() as int) =~= pending@);
    sum
}

/// Whether `b` is what the damage pass makes of `a`.
pub open spec fn damage_pass(a: World, b: World) -> bool {
    &&& b.n() == a.n()
    &&& forall|e: Entity|
        e < a.n() ==> #[trigger] b.stats@[e as int] == match a.stats@[e as int] {
            Some(s) => Some(damaged(s, a.suffer_damage@[e as int]@)),
            None => None,
        }
    &&& forall|e: Entity|
        e < a.n() ==> (#[trigger] b.suffer_damage@[e as int])@.len() == 0
    &&& b.alive == a.alive
    &&& b.names == a.names
    &&& b.positions == a.positions
    &&& b.items == a.items
    &&& b.in_backpack == a.in_backpack
    &&& b.equipped == a.equipped
    &&& b.wants_melee == a.wants_melee
    &&& b.wants_pickup == a.wants_pickup
    &&& b.wants_drop == a.wants_drop
    &&& b.wants_use == a.wants_use
    &&& b.wants_remove == a.wants_remove
    &&& b.map == a.map
    &&& b.player == a.player
    &&& b.player_pos == a.player_pos
    &&& b.log == a.log
}

/// Applies and clears every entity's pending damage.
pub struct DamageSystem {}

impl DamageSystem {
    pub fn run(&mut self, world: &mut World)
        requires
            old(world).wf(),
        ensures
            final(world).wf(),
            final(world).n() == old(world).n(),
            forall|e: Entity|
                e < old(world).n() ==> #[trigger] final(world).stats@[e as int] == match old(world).stats@[e as int] {
                    Some(s) => Some(damaged(s, old(world).suffer_damage@[e as int]@)),
                    None => None,
                },
            forall|e: Entity|
                e < old(world).n() ==> (#[trigger] final(world).suffer_damage@[e as int])@.len() == 0,
            final(world).alive == old(world).alive,
            final(world).names == old(world).names,
            final(world).positions == old(world).positions,
            final(world).items == old(world).items,
            final(world).in_backpack == old(world).in_backpack,
            final(world).equipped == old(world).equipped,
            final(world).wants_melee == old(world).wants_melee,
            final(world).wants_pickup == old(world).wants_pickup,
            final(world).wants_drop == old(world).wants_drop,
            final(world).wants_use == old(world).wants_use,
            final(world).wants_remove == old(world).wants_remove,
            final(world).map == old(world).map,
            final(world).player == old(world).player,
            final(world).player_pos == old(world).player_pos,
            final(world).log == old(world).log,
    {
        let n = world.alive.len();
        let mut e: usize = 0;
        while e < n
            invariant
                world.wf(),
                n == world.n(),
                n == old(world).n(),
                e <= n,
                forall|k: Entity|
                    k < n ==> #[trigger] world.stats@[k as int] == if k < e {
                        match old(world).stats@[k as int] {
                            Some(s) => Some(damaged(s, old(world).suffer_damage@[k as int]@)),
                            None => None,
                        }
                    } else {
                        old(world).stats@[k as int]
                    },
                forall|k: Entity|
                    k < n ==> (#[trigger] world.suffer_damage@[k as int])@ == if k < e {
                        Seq::empty()
                    } else {
                        old(world).suffer_damage@[k as int]@
                    },
                world.alive == old(world).alive,
                world.names == old(world).names,
                world.positions == old(world).positions,
                world.items == old(world).items,
                world.in_backpack == old(world).in_backpack,
                world.equipped == old(world).equipped,
                world.wants_melee == old(world).wants_melee,
                world.wants_pickup == old(world).wants_pickup,
                world.wants_drop == old(world).wants_drop,
                world.wants_use == old(world).wants_use,
                world.wants_remove == old(world).wants_remove,
                world.map == old(world).map,
                world.player == old(world).player,
                world.player_pos == old(world).player_pos,
                world.log == old(world).log,
            decreases n - e,
        {
            let mut pending: Vec<i32> = Vec::new();
            world.suffer_damage.set_and_swap(e, &mut pending);
            let d = sum_pending(&pending);
            let count = pending.len();
            proof {
                assert(count == pending@.len());
                lemma_total_bounds(pending@);
            }
            match world.stats[e] {
                Some(s) => {
                    let v: i128 = s.hp as i128 - d;
                    let hp: i32 = if v > i32::MAX as i128 {
                        i32::MAX
                    } else if v < i32::MIN as i128 {
                        i32::MIN
                    } else {
                        v as i32
                    };
                    world.stats.set(
                        e,
                        Some(CombatStats { max_hp: s.max_hp, hp, defense: s.defense, power: s.power }),
                    );
                },
                None => {},
            }
            e = e + 1;
        }
    }
}

/// Whether `b` is `a` with the dead removed, and `player_dead` says
/// whether the player's hit points have run out.
pub open spec fn dead_pass(a: World, b: World, player_dead: bool) -> bool {
    &&& b.n() == a.n()
    &&& player_dead == (a.stats@[a.player as int].is_some()
        && a.stats@[a.player as int].unwrap().hp <= 0)
    &&& forall|e: Entity|
        e < a.n() ==> #[trigger] b.alive@[e as int] == (a.alive@[e as int]
            && !(e != a.player && a.stats@[e as int].is_some()
            && a.stats@[e as int].unwrap().hp <= 0))
    &&& forall|e: Entity|
        e < a.n() ==> #[trigger] b.stats@[e as int] == if e != a.player
            && a.stats@[e as int].is_some() && a.stats@[e as int].unwrap().hp
            <= 0 {
            None
        } else {
            a.stats@[e as int]
        }
    &&& forall|e: Entity|
        e < a.n() ==> #[trigger] b.positions@[e as int] == if e != a.player && a.stats@[e as int].is_some() && a.stats@[e as int].unwrap().hp
            <= 0 {
            None
        } else {
            a.positions@[e as int]
        }
    &&& b.map == a.map
    &&& b.player == a.player
    &&& b.player_pos == a.player_pos
    &&& b.wants_drop@[a.player as int] == a.wants_drop@[a.player as int]
    &&& b.wants_use@[a.player as int] == a.wants_use@[a.player as int]
    &&& a.melee_drained() ==> b.melee_drained()
    &&& a.pickup_drained() ==> b.pickup_drained()
    &&& a.drop_drained() ==> b.drop_drained()
    &&& a.use_drained() ==> b.use_drained()
    &&& a.remove_drained() ==> b.remove_drained()
    &&& forall|e: Entity|
        e < a.n() ==> #[trigger] b.names@[e as int] == if removed(a, e as int) {
            None
        } else {
            a.names@[e as int]
        }
    &&& forall|e: Entity|
        e < a.n() ==> #[trigger] b.renderables@[e as int] == if removed(a, e as int) {
            None
        } else {
            a.renderables@[e as int]
        }
    &&& forall|e: Entity|
        e < a.n() ==> #[trigger] b.monsters@[e as int] == if removed(a, e as int) {
            false
        } else {
            a.monsters@[e as int]
        }
    &&& forall|e: Entity|
        e < a.n() ==> #[trigger] b.blocks_tile@[e as int] == if removed(a, e as int) {
            false
        } else {
            a.blocks_tile@[e as int]
        }
    &&& forall|e: Entity|
        e < a.n() ==> #[trigger] b.items@[e as int] == if removed(a, e as int) {
            None
        } else {
            a.items@[e as int]
        }
    &&& forall|e: Entity|
        e < a.n() ==> #[trigger] b.in_backpack@[e as int] == if removed(a, e as int) {
            None
        } else {
            a.in_backpack@[e as int]
        }
    &&& forall|e: Entity|
        e < a.n() ==> #[trigger] b.equipped@[e as int] == if removed(a, e as int) {
            None
        } else {
            a.equipped@[e as int]
        }
    &&& forall|e: Entity|
        e < a.n() ==> #[trigger] b.disabled@[e as int] == if removed(a, e as int) {
            None
        } else {
            a.disabled@[e as int]
        }
    &&& forall|e: Entity|
        e < a.n() ==> #[trigger] b.wants_melee@[e as int] == if removed(a, e as int) {
            None
        } else {
            a.wants_melee@[e as int]
        }
    &&& forall|e: Entity|
        e < a.n() ==> #[trigger] b.wants_pickup@[e as int] == if removed(a, e as int) {
            None
        } else {
            a.wants_pickup@[e as int]
        }
    &&& forall|e: Entity|
        e < a.n() ==> #[trigger] b.wants_drop@[e as int] == if removed(a, e as int) {
            None
        } else {
            a.wants_drop@[e as int]
        }
    &&& forall|e: Entity|
        e < a.n() ==> #[trigger] b.wants_remove@[e as int] == if removed(a, e as int) {
            None
        } else {
            a.wants_remove@[e as int]
        }
    &&& forall|e: Entity|
        e < a.n() ==> if removed(a, e as int) {
            b.viewsheds@[e as int].is_none()
        } else {
            #[trigger] b.viewsheds@[e as int] == a.viewsheds@[e as int]
        }
    &&& forall|e: Entity|
        e < a.n() ==> if removed(a, e as int) {
            b.wants_use@[e as int].is_none()
        } else {
            #[trigger] b.wants_use@[e as int] == a.wants_use@[e as int]
        }
    &&& forall|e: Entity|
        e < a.n() ==> if removed(a, e as int) {
            b.suffer_damage@[e as int]@.len() == 0
        } else {
            #[trigger] b.suffer_damage@[e as int] == a.suffer_damage@[e as int]
        }
    &&& b.log == a.log
}

/// Whether `e` is an entity other than the player whose hit points have
/// run out.
pub open spec fn removed(w: World, e: int) -> bool {
    e != w.player && w.stats@[e].is_some() && w.stats@[e].unwrap().hp <= 0
}

impl World {
    /// Removes every entity whose hit points have run out, except the
    /// player; returns whether the player's have.
    pub fn delete_the_dead(&mut self) -> (player_dead: bool)
        requires
            old(self).wf(),
        ensures
            final(self).wf(),
            final(self).n() == old(self).n(),
            player_dead == (old(self).stats@[old(self).player as int].is_some()
                && old(self).stats@[old(self).player as int].unwrap().hp <= 0),
            forall|e: Entity|
                e < old(self).n() ==> #[trigger] final(self).alive@[e as int] == (old(self).alive@[e as int]
                    && !(e != old(self).player && old(self).stats@[e as int].is_some()
                    && old(self).stats@[e as int].unwrap().hp <= 0)),
            forall|e: Entity|
                e < old(self).n() ==> #[trigger] final(self).stats@[e as int] == if e != old(self).player
                    && old(self).stats@[e as int].is_some() && old(self).stats@[e as int].unwrap().hp
                    <= 0 {
                    None
                } else {
                    old(self).stats@[e as int]
                },
            forall|e: Entity|
                e < old(self).n() ==> #[trigger] final(self).positions@[e as int] == if e != old(self).player && old(self).stats@[e as int].is_some() && old(self).stats@[e as int].unwrap().hp
                    <= 0 {
                    None
                } else {
                    old(self).positions@[e as int]
                },
            final(self).map == old(self).map,
            final(self).player == old(self).player,
            final(self).player_pos == old(self).player_pos,
            final(self).wants_drop@[old(self).player as int] == old(self).wants_drop@[old(self).player as int],
            final(self).wants_use@[old(self).player as int] == old(self).wants_use@[old(self).player as int],
            old(self).melee_drained() ==> final(self).melee_drained(),
            old(self).pickup_drained() ==> final(self).pickup_drained(),
            old(self).drop_drained() ==> final(self).drop_drained(),
            old(self).use_drained() ==> final(self).use_drained(),
            old(self).remove_drained() ==> final(self).remove_drained(),
            forall|e: Entity|
                e < old(self).n() ==> #[trigger] final(self).names@[e as int] == if removed(*old(self), e as int) {
                    None
                } else {
                    old(self).names@[e as int]
                },
            forall|e: Entity|
                e < old(self).n() ==> #[trigger] final(self).renderables@[e as int] == if removed(*old(self), e as int) {
                    None
                } else {
                    old(self).renderables@[e as int]
                },
            forall|e: Entity|
                e < old(self).n() ==> #[trigger] final(self).monsters@[e as int] == if removed(*old(self), e as int) {
                    false
                } else {
                    old(self).monsters@[e as int]
                },
            forall|e: Entity|
                e < old(self).n() ==> #[trigger] final(self).blocks_tile@[e as int] == if removed(*old(self), e as int) {
                    false
                } else {
                    old(self).blocks_tile@[e as int]
                },
            forall|e: Entity|
                e < old(self).n() ==> #[trigger] final(self).items@[e as int] == if removed(*old(self), e as int) {
                    None
                } else {
                    old(self).items@[e as int]
                },
            forall|e: Entity|
                e < old(self).n() ==> #[trigger] final(self).in_backpack@[e as int] == if removed(*old(self), e as int) {
                    None
                } else {
                    old(self).in_backpack@[e as int]
                },
            forall|e: Entity|
                e < old(self).n() ==> #[trigger] final(self).equipped@[e as int] == if removed(*old(self), e as int) {
                    None
                } else {
                    old(self).equipped@[e as int]
                },
            forall|e: Entity|
                e < old(self).n() ==> #[trigger] final(self).disabled@[e as int] == if removed(*old(self), e as int) {
                    None
                } else {
                    old(self).disabled@[e as int]
                },
            forall|e: Entity|
                e < old(self).n() ==> #[trigger] final(self).wants_melee@[e as int] == if removed(*old(self), e as int) {
                    None
                } else {
                    old(self).wants_melee@[e as int]
                },
            forall|e: Entity|
                e < old(self).n() ==> #[trigger] final(self).wants_pickup@[e as int] == if removed(*old(self), e as int) {
                    None
                } else {
                    old(self).wants_pickup@[e as int]
                },
            forall|e: Entity|
                e < old(self).n() ==> #[trigger] final(self).wants_drop@[e as int] == if removed(*old(self), e as int) {
                    None
                } else {
                    old(self).wants_drop@[e as int]
                },
            forall|e: Entity|
                e < old(self).n() ==> #[trigger] final(self).wants_remove@[e as int] == if removed(*old(self), e as int) {
                    None
                } else {
                    old(self).wants_remove@[e as int]
                },
            forall|e: Entity|
                e < old(self).n() ==> if removed(*old(self), e as int) {
                    final(self).viewsheds@[e as int].is_none()
                } else {
                    #[trigger] final(self).viewsheds@[e as int] == old(self).viewsheds@[e as int]
                },
            forall|e: Entity|
                e < old(self).n() ==> if removed(*old(self), e as int) {
                    final(self).wants_use@[e as int].is_none()
                } else {
                    #[trigger] final(self).wants_use@[e as int] == old(self).wants_use@[e as int]
                },
            forall|e: Entity|
                e < old(self).n() ==> if removed(*old(self), e as int) {
                    final(self).suffer_damage@[e as int]@.len() == 0
                } else {
                    #[trigger] final(self).suffer_damage@[e as int] == old(self).suffer_damage@[e as int]
                },
            final(self).log == old(self).log,
    {
        let n = self.alive.len();
        let player = self.player;
        let player_dead = match self.stats[player] {
            Some(s) => s.hp <= 0,
            None => false,
        };
        let mut e: usize = 0;
        while e < n
            invariant
                self.wf(),
                n == self.n(),
                n == old(self).n(),
                e <= n,
                player == self.player,
                self.player == old(self).player,
                self.player_pos == old(self).player_pos,
                self.wants_drop@[player as int] == old(self).wants_drop@[player as int],
                self.wants_use@[player as int] == old(self).wants_use@[player as int],
                old(self).melee_drained() ==> self.melee_drained(),
                old(self).pickup_drained() ==> self.pickup_drained(),
                old(self).drop_drained() ==> self.drop_drained(),
                old(self).use_drained() ==> self.use_drained(),
                old(self).remove_drained() ==> self.remove_drained(),
                self.map == old(self).map,
                forall|k: Entity|
                    k < n ==> #[trigger] self.alive@[k as int] == (old(self).alive@[k as int] && !(k < e
                        && k != player && old(self).stats@[k as int].is_some()
                        && old(self).stats@[k as int].unwrap().hp <= 0)),
                forall|k: Entity|
                    k < n ==> #[trigger] self.stats@[k as int] == if k < e && k != player && old(self).stats@[k as int].is_some() && old(self).stats@[k as int].unwrap().hp <= 0 {
                        None
                    } else {
                        old(self).stats@[k as int]
                    },
                forall|k: Entity|
                    k < n ==> #[trigger] self.positions@[k as int] == if k < e && k != player && old(self).stats@[k as int].is_some() && old(self).stats@[k as int].unwrap().hp <= 0 {
                        None
                    } else {
                        old(self).positions@[k as int]
                    },
                forall|x: Entity|
                    x < old(self).n() ==> #[trigger] self.names@[x as int] == if x < e && removed(*old(self), x as int) {
                        None
                    } else {
                        old(self).names@[x as int]
                    },
                forall|x: Entity|
                    x < old(self).n() ==> #[trigger] self.renderables@[x as int] == if x < e && removed(*old(self), x as int) {
                        None
                    } else {
                        old(self).renderables@[x as int]
                    },
                forall|x: Entity|
                    x < old(self).n() ==> #[trigger] self.monsters@[x as int] == if x < e && removed(*old(self), x as int) {
                        false
                    } else {
                        old(self).monsters@[x as int]
                    },
                forall|x: Entity|
                    x < old(self).n() ==> #[trigger] self.blocks_tile@[x as int] == if x < e && removed(*old(self), x as int) {
                        false
                    } else {
                        old(self).blocks_tile@[x as int]
                    },
                forall|x: Entity|
                    x < old(self).n() ==> #[trigger] self.items@[x as int] == if x < e && removed(*old(self), x as int) {
                        None
                    } else {
                        old(self).items@[x as int]
                    },
                forall|x: Entity|
                    x < old(self).n() ==> #[trigger] self.in_backpack@[x as int] == if x < e && removed(*old(self), x as int) {
                        None
                    } else {
                        old(self).in_backpack@[x as int]
                    },
                forall|x: Entity|
                    x < old(self).n() ==> #[trigger] self.equipped@[x as int] == if x < e && removed(*old(self), x as int) {
                        None
                    } else {
                        old(self).equipped@[x as int]
                    },
                forall|x: Entity|
                    x < old(self).n() ==> #[trigger] self.disabled@[x as int] == if x < e && removed(*old(self), x as int) {
                        None
                    } else {
                        old(self).disabled@[x as int]
                    },
                forall|x: Entity|
                    x < old(self).n() ==> #[trigger] self.wants_melee@[x as int] == if x < e && removed(*old(self), x as int) {
                        None
                    } else {
                        old(self).wants_melee@[x as int]
                    },
                forall|x: Entity|
                    x < old(self).n() ==> #[trigger] self.wants_pickup@[x as int] == if x < e && removed(*old(self), x as int) {
                        None
                    } else {
                        old(self).wants_pickup@[x as int]
                    },
                forall|x: Entity|
                    x < old(self).n() ==> #[trigger] self.wants_drop@[x as int] == if x < e && removed(*old(self), x as int) {
                        None
                    } else {
                        old(self).wants_drop@[x as int]
                    },
                forall|x: Entity|
                    x < old(self).n() ==> #[trigger] self.wants_remove@[x as int] == if x < e && removed(*old(self), x as int) {
                        None
                    } else {
                        old(self).wants_remove@[x as int]
                    },
                forall|x: Entity|
                    x < old(self).n() ==> if x < e && removed(*old(self), x as int) {
                        self.viewsheds@[x as int].is_none()
                    } else {
                        #[trigger] self.viewsheds@[x as int] == old(self).viewsheds@[x as int]
                    },
                forall|x: Entity|
                    x < old(self).n() ==> if x < e && removed(*old(self), x as int) {
                        self.wants_use@[x as int].is_none()
                    } else {
                        #[trigger] self.wants_use@[x as int] == old(self).wants_use@[x as int]
                    },
                forall|x: Entity|
                    x < old(self).n() ==> if x < e && removed(*old(self), x as int) {
                        self.suffer_damage@[x as int]@.len() == 0
                    } else {
                        #[trigger] self.suffer_damage@[x as int] == old(self).suffer_damage@[x as int]
                    },
                self.log == old(self).log,
            decreases n - e,
        {
            let dead = match self.stats[e] {
                Some(s) => s.hp <= 0,
                None => false,
            };
            if dead && e != player {
                let ghost before = *self;
                self.delete_entity(e);
                proof {
                    if before.melee_drained() {
                        assert forall|k: int| 0 <= k < self.wants_melee@.len() implies (#[trigger] self.wants_melee@[k]).is_none() by {
                            assert(before.wants_melee@[k].is_none());
                        }
                    }
                    if before.pickup_drained() {
                        assert forall|k: int| 0 <= k < self.wants_pickup@.len() implies (#[trigger] self.wants_pickup@[k]).is_none() by {
                            assert(before.wants_pickup@[k].is_none());
                        }
                    }
                    if before.drop_drained() {
                        assert forall|k: int| 0 <= k < self.wants_drop@.len() implies (#[trigger] self.wants_drop@[k]).is_none() by {
                            assert(before.wants_drop@[k].is_none());
                        }
                    }
                    if before.use_drained() {
                        assert forall|k: int| 0 <= k < self.wants_use@.len() implies (#[trigger] self.wants_use@[k]).is_none() by {
                            assert(before.wants_use@[k].is_none());
                        }
                    }
                    if before.remove_drained() {
                        assert forall|k: int| 0 <= k < self.wants_remove@.len() implies (#[trigger] self.wants_remove@[k]).is_none() by {
                            assert(before.wants_remove@[k].is_none());
                        }
                    }
                }
            }
            e = e + 1;
        }
        player_dead
    }
}

} // verus!
