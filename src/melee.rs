use vstd::prelude::*;
use crate::components::Entity;
use crate::world::{lemma_log_push, log_view, LogEntry, LogView, World};

verus! {

/// The attack bonus of the items among the first `k` entities that
/// `owner` wears.
pub open spec fn atk_bonus_sum(w: World, owner: Entity, k: int) -> int
    decreases k,
{
    if k <= 0 {
        0
    } else {
        atk_bonus_sum(w, owner, k - 1) + if w.equipped@[k - 1].is_some()
            && w.equipped@[k - 1].unwrap().owner == owner && w.items@[k - 1].is_some()
            && w.items@[k - 1].unwrap().atk_bonus.is_some() {
            w.items@[k - 1].unwrap().atk_bonus.unwrap() as int
        } else {
            0
        }
    }
}

/// The defense bonus of the items among the first `k` entities that
/// `owner` wears.
pub open spec fn def_bonus_sum(w: World, owner: Entity, k: int) -> int
    decreases k,
{
    if k <= 0 {
        0
    } else {
        def_bonus_sum(w, owner, k - 1) + if w.equipped@[k - 1].is_some()
            && w.equipped@[k - 1].unwrap().owner == owner && w.items@[k - 1].is_some()
            && w.items@[k - 1].unwrap().def_bonus.is_some() {
            w.items@[k - 1].unwrap().def_bonus.unwrap() as int
        } else {
            0
        }
    }
}

/// Damage of an attack: attack power and bonus less defense and bonus,
/// never below zero.
pub open spec fn melee_damage_spec(power: int, atk_bonus: int, defense: int, def_bonus: int) -> int {
    let d = (power + atk_bonus) - (defense + def_bonus);
    if d > 0 {
        d
    } else {
        0
    }
}

/// The damage that `a`'s attack deals in world `w`.
pub open spec fn attack_damage(w: World, a: Entity) -> int {
    let t = w.wants_melee@[a as int].unwrap();
    melee_damage_spec(
        w.stats@[a as int].unwrap().power as int,
        atk_bonus_sum(w, a, w.n() as int),
        w.stats@[t as int].unwrap().defense as int,
        def_bonus_sum(w, t, w.n() as int),
    )
}

/// Whether `a` attacks: it wants to, has a name, and both it and its
/// target are alive by their hit points.
pub open spec fn strikes(w: World, a: Entity) -> bool {
    &&& w.wants_melee@[a as int].is_some()
    &&& w.names@[a as int].is_some()
    &&& w.stats@[a as int].is_some()
    &&& w.stats@[a as int].unwrap().hp > 0
    &&& w.stats@[w.wants_melee@[a as int].unwrap() as int].is_some()
    &&& w.stats@[w.wants_melee@[a as int].unwrap() as int].unwrap().hp > 0
}

/// A damage amount as it is recorded: capped at the largest `i32`.
pub open spec fn recorded(d: int) -> i32 {
    if d > i32::MAX {
        i32::MAX
    } else {
        d as i32
    }
}

/// The damage that the attacks of the first `k` entities add to `t`'s
/// pending damage, in entity order.
pub open spec fn melee_hits(w: World, t: Entity, k: int) -> Seq<i32>
    decreases k,
{
    if k <= 0 {
        Seq::empty()
    } else {
        let prev = melee_hits(w, t, k - 1);
        let a = (k - 1) as Entity;
        if strikes(w, a) && w.wants_melee@[a as int].unwrap() == t && attack_damage(w, a) > 0 {
            prev.push(recorded(attack_damage(w, a)))
        } else {
            prev
        }
    }
}

/// With no attack request pending, no attack adds damage.
pub proof fn lemma_no_attack_no_hits(w: World, t: Entity, k: int)
    requires
        forall|j: int| 0 <= j < w.n() ==> (#[trigger] w.wants_melee@[j]).is_none(),
        k <= w.n(),
    ensures
        melee_hits(w, t, k) == Seq::<i32>::empty(),
    decreases k,
{
    if k > 0 {
        lemma_no_attack_no_hits(w, t, k - 1);
        assert(w.wants_melee@[k - 1].is_none());
    }
}

/// What the attacks of the first `k` entities write to the log: a hit with
/// its damage, or that the attacker cannot hurt its target.
pub open spec fn melee_log(w: World, k: int) -> Seq<LogView>
    decreases k,
{
    if k <= 0 {
        Seq::empty()
    } else {
        let a = (k - 1) as Entity;
        let prev = melee_log(w, k - 1);
        if strikes(w, a) {
            let t = w.wants_melee@[a as int].unwrap();
            if attack_damage(w, a) > 0 {
                prev.push(
                    LogView::Hit {
                        attacker: w.name_view(a as int),
                        target: w.name_view(t as int),
                        damage: recorded(attack_damage(w, a)),
                    },
                )
            } else {
                prev.push(LogView::NoHarm { attacker: w.name_view(a as int), target: w.name_view(t as int) })
            }
        } else {
            prev
        }
    }
}

/// The bonus sums fit an `i128` whatever the bonuses.
proof fn lemma_bonus_bounds(w: World, owner: Entity, k: int)
    requires
        0 <= k,
    ensures
        -k * 0x8000_0000 <= atk_bonus_sum(w, owner, k) <= k * 0x8000_0000,
        -k * 0x8000_0000 <= def_bonus_sum(w, owner, k) <= k * 0x8000_0000,
    decreases k,
{
    if k > 0 {
        lemma_bonus_bounds(w, owner, k - 1);
    }
}

/// The bonus sums depend on what is worn and what the items give alone.
proof fn lemma_bonus_frame(w1: World, w2: World, owner: Entity, k: int)
    requires
        w1.equipped == w2.equipped,
        w1.items == w2.items,
    ensures
        atk_bonus_sum(w1, owner, k) == atk_bonus_sum(w2, owner, k),
        def_bonus_sum(w1, owner, k) == def_bonus_sum(w2, owner, k),
    decreases k,
{
    if k > 0 {
        lemma_bonus_frame(w1, w2, owner, k - 1);
    }
}

impl World {
    /// The sum of the attack bonuses (`atk` true) or defense bonuses of the
    /// items that `owner` wears.
    pub fn bonus_of(&self, owner: Entity, atk: bool) -> (r: i128)
        requires
            self.wf(),
        ensures
            r == if atk {
                atk_bonus_sum(*self, owner, self.n() as int)
            } else {
                def_bonus_sum(*self, owner, self.n() as int)
            },
    {
        let n = self.alive.len();
        let mut sum: i128 = 0;
        let mut i: usize = 0;
        while i < n
            invariant
                self.wf(),
                n == self.n(),
                i <= n,
                sum == if atk {
                    atk_bonus_sum(*self, owner, i as int)
                } else {
                    def_bonus_sum(*self, owner, i as int)
                },
            decreases n - i,
        {
            proof {
                lemma_bonus_bounds(*self, owner, i as int);
                lemma_bonus_bounds(*self, owner, i + 1);
            }
            match self.equipped[i] {
                Some(eq) => {
                    if eq.owner == owner {
                        match self.items[i] {
                            Some(f) => {
                                let b = if atk {
                                    f.atk_bonus
                                } else {
                                    f.def_bonus
                                };
                                match b {
                                    Some(v) => {
                                        sum = sum + v as i128;
                                    },
                                    None => {},
                                }
                            },
                            None => {},
                        }
                    }
                },
                None => {},
            }
            i = i + 1;
        }
        sum
    }
}

/// Whether `b` is what the melee pass makes of `a`.
pub open spec fn melee_pass(a: World, b: World) -> bool {
    &&& b.n() == a.n()
    &&& log_view(b) == log_view(a) + melee_log(a, a.n() as int)
    &&& forall|t: Entity|
        t < a.n() ==> #[trigger] b.suffer_damage@[t as int]@ == a.suffer_damage@[t as int]@ + melee_hits(a, t, a.n() as int)
    &&& forall|e: int|
        0 <= e < b.n() ==> (#[trigger] b.wants_melee@[e]).is_none()
    &&& b.alive == a.alive
    &&& b.positions == a.positions
    &&& b.stats == a.stats
    &&& b.items == a.items
    &&& b.equipped == a.equipped
    &&& b.in_backpack == a.in_backpack
    &&& b.map == a.map
    &&& b.player == a.player
    &&& b.wants_pickup == a.wants_pickup
    &&& b.wants_drop == a.wants_drop
    &&& b.wants_use == a.wants_use
    &&& b.wants_remove == a.wants_remove
    &&& b.player_pos == a.player_pos
}

/// Turns every attack request into pending damage on its target.
pub struct MeleeCombatSystem {}

impl MeleeCombatSystem {
    pub fn run(&mut self, world: &mut World)
        requires
            old(world).wf(),
        ensures
            final(world).wf(),
            final(world).n() == old(world).n(),
            log_view(*final(world)) == log_view(*old(world)) + melee_log(*old(world), old(world).n() as int),
            forall|t: Entity|
                t < old(world).n() ==> #[trigger] final(world).suffer_damage@[t as int]@ == old(world).suffer_damage@[t as int]@ + melee_hits(*old(world), t, old(world).n() as int),
            forall|e: int|
                0 <= e < final(world).n() ==> (#[trigger] final(world).wants_melee@[e]).is_none(),
            final(world).alive == old(world).alive,
            final(world).positions == old(world).positions,
            final(world).stats == old(world).stats,
            final(world).items == old(world).items,
            final(world).equipped == old(world).equipped,
            final(world).in_backpack == old(world).in_backpack,
            final(world).map == old(world).map,
            final(world).player == old(world).player,
            final(world).wants_pickup == old(world).wants_pickup,
            final(world).wants_drop == old(world).wants_drop,
            final(world).wants_use == old(world).wants_use,
            final(world).wants_remove == old(world).wants_remove,
            final(world).player_pos == old(world).player_pos,
    {
        let ghost w0 = *world;
        let n = world.alive.len();
        let mut e: usize = 0;
        while e < n
            invariant
                world.wf(),
                n == world.n(),
                n == w0.n(),
                w0 == *old(world),
                e <= n,
                forall|t: Entity|
                    t < n ==> #[trigger] world.suffer_damage@[t as int]@ == w0.suffer_damage@[t as int]@
                        + melee_hits(w0, t, e as int),
                forall|k: int| 0 <= k < e ==> (#[trigger] world.wants_melee@[k]).is_none(),
                forall|k: int| e <= k < n ==> #[trigger] world.wants_melee@[k] == w0.wants_melee@[k],
                world.alive == w0.alive,
                world.names == w0.names,
                world.positions == w0.positions,
                world.stats == w0.stats,
                world.items == w0.items,
                world.equipped == w0.equipped,
                world.in_backpack == w0.in_backpack,
                world.map == w0.map,
                world.player == w0.player,
                world.wants_pickup == w0.wants_pickup,
                world.wants_drop == w0.wants_drop,
                world.wants_use == w0.wants_use,
                world.wants_remove == w0.wants_remove,

                world.player_pos == w0.player_pos,
                log_view(*world) == log_view(w0) + melee_log(w0, e as int),
            decreases n - e,
        {
            let ghost before = *world;
            let ghost mut added: Seq<LogView> = Seq::empty();
            let mut hit: Option<(Entity, i32)> = None;
            match world.wants_melee[e] {
                Some(t) => {
                    if world.names[e].is_some() {
                        match world.stats[e] {
                            Some(s) => {
                                match world.stats[t] {
                                    Some(ts) => {
                                        if s.hp > 0 && ts.hp > 0 {
                                            proof {
                                                lemma_bonus_bounds(*world, e, n as int);
                                                lemma_bonus_bounds(*world, t, n as int);
                                                lemma_bonus_frame(*world, w0, e, n as int);
                                                lemma_bonus_frame(*world, w0, t, n as int);
                                            }
                                            let off = world.bonus_of(e, true);
                                            let def = world.bonus_of(t, false);
                                            let d: i128 = (s.power as i128 + off) - (ts.defense as i128
                                                + def);
                                            let attacker = world.name_of(e);
                                            let target = world.name_of(t);
                                            if d <= 0 {
                                                let entry = LogEntry::NoHarm { attacker, target };
                                                let ghost eg = entry;
                                                let ghost pre = *world;
                                                world.log.push(entry);
                                                proof {
                                                    lemma_log_push(pre, *world, eg);
                                                    added = seq![eg@];
                                                }
                                            } else {
                                                let amount: i32 = if d > i32::MAX as i128 {
                                                    i32::MAX
                                                } else {
                                                    d as i32
                                                };
                                                let entry = LogEntry::Hit { attacker, target, damage: amount };
                                                let ghost eg = entry;
                                                let ghost pre = *world;
                                                world.log.push(entry);
                                                proof {
                                                    lemma_log_push(pre, *world, eg);
                                                    added = seq![eg@];
                                                }
                                                hit = Some((t, amount));
                                            }
                                        }
                                    },
                                    None => {},
                                }
                            },
                            None => {},
                        }
                    }
                },
                None => {},
            }
            match hit {
                Some((t, amount)) => {
                    let mut pending: Vec<i32> = Vec::new();
                    world.suffer_damage.set_and_swap(t, &mut pending);
                    pending.push(amount);
                    world.suffer_damage.set_and_swap(t, &mut pending);
                },
                None => {},
            }
            world.wants_melee.set(e, None);
            proof {
                assert(log_view(*world) == log_view(before) + added);
                assert(melee_log(w0, e + 1) == melee_log(w0, e as int) + added);
                assert(log_view(*world) =~= log_view(w0) + melee_log(w0, e + 1));
            }
            assert forall|t: Entity| t < n implies #[trigger] world.suffer_damage@[t as int]@
                == w0.suffer_damage@[t as int]@ + melee_hits(w0, t, e + 1) by {
                assert(before.suffer_damage@[t as int]@ == w0.suffer_damage@[t as int]@ + melee_hits(
                    w0,
                    t,
                    e as int,
                ));
                assert(before.wants_melee@[e as int] == w0.wants_melee@[e as int]);
                if hit.is_some() && hit.unwrap().0 == t {
                    assert(w0.suffer_damage@[t as int]@ + melee_hits(w0, t, e as int).push(
                        hit.unwrap().1,
                    ) =~= (w0.suffer_damage@[t as int]@ + melee_hits(w0, t, e as int)).push(
                        hit.unwrap().1,
                    ));
                }
            }
            e = e + 1;
        }
    }
}

} // verus!
