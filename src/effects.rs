use vstd::prelude::*;
use crate::components::{CombatStats, Entity, EquipmentSlot, Equipped};
use crate::world::{LogEntry, World};

verus! {

/// Hit points after healing by `amount`: never above `max_hp`, nor below
/// the smallest `i32`.
pub open spec fn healed_hp(hp: int, max_hp: int, amount: int) -> int {
    if hp + amount >= max_hp {
        max_hp
    } else if hp + amount < i32::MIN {
        i32::MIN as int
    } else {
        hp + amount
    }
}

pub open spec fn healed(s: CombatStats, amount: int) -> CombatStats {
    CombatStats {
        max_hp: s.max_hp,
        hp: healed_hp(s.hp as int, s.max_hp as int, amount) as i32,
        defense: s.defense,
        power: s.power,
    }
}

/// Healing never lifts hit points above the maximum: from at most the
/// maximum, the result is the lesser of the maximum and the old hit points
/// plus the amount.
pub proof fn lemma_heal_clamp(s: CombatStats, amount: i32)
    requires
        s.hp <= s.max_hp,
        s.hp + amount >= i32::MIN,
    ensures
        healed(s, amount as int).hp <= s.max_hp,
        healed(s, amount as int).hp == if s.hp + amount < s.max_hp {
            s.hp + amount
        } else {
            s.max_hp as int
        },
        healed(s, amount as int).max_hp == s.max_hp,
{
}

/// Heals `s` by `amount`, up to its maximum.
pub fn heal(s: CombatStats, amount: i32) -> (r: CombatStats)
    ensures
        r == healed(s, amount as int),
{
    let v: i64 = s.hp as i64 + amount as i64;
    let hp: i32 = if v >= s.max_hp as i64 {
        s.max_hp
    } else if v < i32::MIN as i64 {
        i32::MIN
    } else {
        v as i32
    };
    CombatStats { max_hp: s.max_hp, hp, defense: s.defense, power: s.power }
}

/// A longer prefix holds what the shorter one held, and the next element.
pub proof fn lemma_prefix_contains(s: Seq<Entity>, i: int, e: Entity)
    requires
        0 <= i < s.len(),
    ensures
        s.subrange(0, i + 1).contains(e) <==> (s.subrange(0, i).contains(e) || s[i] == e),
{
    let pre = s.subrange(0, i);
    let post = s.subrange(0, i + 1);
    assert(post[i] == s[i]);
    if post.contains(e) && s[i] != e {
        let k = choose|k: int| 0 <= k < post.len() && post[k] == e;
        assert(pre[k] == e);
    }
    if pre.contains(e) {
        let k = choose|k: int| 0 <= k < pre.len() && pre[k] == e;
        assert(post[k] == e);
    }
}

/// In a sequence without duplicates no element occurs before its place.
pub proof fn lemma_prefix_fresh(s: Seq<Entity>, i: int)
    requires
        0 <= i < s.len(),
        s.no_duplicates(),
    ensures
        !s.subrange(0, i).contains(s[i]),
{
    if s.subrange(0, i).contains(s[i]) {
        let k = choose|k: int| 0 <= k < i && s.subrange(0, i)[k] == s[i];
        assert(s[k] == s[i]);
    }
}

impl World {
    /// Heals every target that has combat stats by `amount`.
    pub fn heal_targets(&mut self, targets: &Vec<Entity>, amount: i32)
        requires
            old(self).wf(),
            targets@.no_duplicates(),
            forall|k: int| 0 <= k < targets@.len() ==> #[trigger] targets@[k] < old(self).n(),
        ensures
            final(self).wf(),
            final(self).stats@.len() == old(self).stats@.len(),
            forall|e: Entity|
                e < old(self).n() ==> #[trigger] final(self).stats@[e as int] == if targets@.contains(e)
                    && old(self).stats@[e as int].is_some() {
                    Some(healed(old(self).stats@[e as int].unwrap(), amount as int))
                } else {
                    old(self).stats@[e as int]
                },
            final(self).alive == old(self).alive,
            final(self).names == old(self).names,
            final(self).positions == old(self).positions,
            final(self).viewsheds == old(self).viewsheds,
            final(self).suffer_damage == old(self).suffer_damage,
            final(self).items == old(self).items,
            final(self).in_backpack == old(self).in_backpack,
            final(self).equipped == old(self).equipped,
            final(self).disabled == old(self).disabled,
            final(self).wants_use == old(self).wants_use,
            final(self).wants_melee == old(self).wants_melee,
            final(self).wants_pickup == old(self).wants_pickup,
            final(self).wants_drop == old(self).wants_drop,
            final(self).wants_remove == old(self).wants_remove,
            final(self).map == old(self).map,
            final(self).player == old(self).player,
            final(self).player_pos == old(self).player_pos,
            final(self).log == old(self).log,
    {
        let mut i: usize = 0;
        while i < targets.len()
            invariant
                self.wf(),
                i <= targets@.len(),
                targets@.no_duplicates(),
                forall|k: int| 0 <= k < targets@.len() ==> #[trigger] targets@[k] < old(self).n(),
                self.stats@.len() == old(self).stats@.len(),
                forall|e: Entity|
                    e < old(self).n() ==> #[trigger] self.stats@[e as int] == if targets@.subrange(
                        0,
                        i as int,
                    ).contains(e) && old(self).stats@[e as int].is_some() {
                        Some(healed(old(self).stats@[e as int].unwrap(), amount as int))
                    } else {
                        old(self).stats@[e as int]
                    },
                self.alive == old(self).alive,
                self.names == old(self).names,
                self.positions == old(self).positions,
                self.viewsheds == old(self).viewsheds,
                self.suffer_damage == old(self).suffer_damage,
                self.items == old(self).items,
                self.in_backpack == old(self).in_backpack,
                self.equipped == old(self).equipped,
                self.disabled == old(self).disabled,
                self.wants_use == old(self).wants_use,
                self.wants_melee == old(self).wants_melee,
                self.wants_pickup == old(self).wants_pickup,
                self.wants_drop == old(self).wants_drop,
                self.wants_remove == old(self).wants_remove,
                self.map == old(self).map,
                self.player == old(self).player,
                self.player_pos == old(self).player_pos,
                self.log == old(self).log,
            decreases targets@.len() - i,
        {
            let t = targets[i];
            let ghost w0 = *self;
            proof {
                lemma_prefix_fresh(targets@, i as int);
            }
            match self.stats[t] {
                Some(s) => {
                    self.stats.set(t, Some(heal(s, amount)));
                },
                None => {},
            }
            assert forall|e: Entity| e < old(self).n() implies #[trigger] self.stats@[e as int] == if targets@.subrange(
                0,
                i + 1,
            ).contains(e) && old(self).stats@[e as int].is_some() {
                Some(healed(old(self).stats@[e as int].unwrap(), amount as int))
            } else {
                old(self).stats@[e as int]
            } by {
                lemma_prefix_contains(targets@, i as int, e);
                assert(w0.stats@[e as int] == (if targets@.subrange(0, i as int).contains(e)
                    && old(self).stats@[e as int].is_some() {
                    Some(healed(old(self).stats@[e as int].unwrap(), amount as int))
                } else {
                    old(self).stats@[e as int]
                }));
            }
            i = i + 1;
        }
        assert(targets@.subrange(0, targets@.len() as int) =~= targets@);
    }

    /// Appends `amount` to the pending damage of every target.
    pub fn damage_targets(&mut self, targets: &Vec<Entity>, amount: i32)
        requires
            old(self).wf(),
            targets@.no_duplicates(),
            forall|k: int| 0 <= k < targets@.len() ==> #[trigger] targets@[k] < old(self).n(),
        ensures
            final(self).wf(),
            final(self).suffer_damage@.len() == old(self).suffer_damage@.len(),
            forall|e: Entity|
                e < old(self).n() ==> #[trigger] final(self).suffer_damage@[e as int]@ == if targets@.contains(
                    e,
                ) {
                    old(self).suffer_damage@[e as int]@.push(amount)
                } else {
                    old(self).suffer_damage@[e as int]@
                },
            final(self).alive == old(self).alive,
            final(self).names == old(self).names,
            final(self).positions == old(self).positions,
            final(self).viewsheds == old(self).viewsheds,
            final(self).stats == old(self).stats,
            final(self).items == old(self).items,
            final(self).in_backpack == old(self).in_backpack,
            final(self).equipped == old(self).equipped,
            final(self).disabled == old(self).disabled,
            final(self).wants_use == old(self).wants_use,
            final(self).wants_melee == old(self).wants_melee,
            final(self).wants_pickup == old(self).wants_pickup,
            final(self).wants_drop == old(self).wants_drop,
            final(self).wants_remove == old(self).wants_remove,
            final(self).map == old(self).map,
            final(self).player == old(self).player,
            final(self).player_pos == old(self).player_pos,
            final(self).log == old(self).log,
    {
        let mut i: usize = 0;
        while i < targets.len()
            invariant
                self.wf(),
                i <= targets@.len(),
                targets@.no_duplicates(),
                forall|k: int| 0 <= k < targets@.len() ==> #[trigger] targets@[k] < old(self).n(),
                self.suffer_damage@.len() == old(self).suffer_damage@.len(),
                forall|e: Entity|
                    e < old(self).n() ==> #[trigger] self.suffer_damage@[e as int]@ == if targets@.subrange(
                        0,
                        i as int,
                    ).contains(e) {
                        old(self).suffer_damage@[e as int]@.push(amount)
                    } else {
                        old(self).suffer_damage@[e as int]@
                    },
                self.alive == old(self).alive,
                self.names == old(self).names,
                self.positions == old(self).positions,
                self.viewsheds == old(self).viewsheds,
                self.stats == old(self).stats,
                self.items == old(self).items,
                self.in_backpack == old(self).in_backpack,
                self.equipped == old(self).equipped,
                self.disabled == old(self).disabled,
                self.wants_use == old(self).wants_use,
                self.wants_melee == old(self).wants_melee,
                self.wants_pickup == old(self).wants_pickup,
                self.wants_drop == old(self).wants_drop,
                self.wants_remove == old(self).wants_remove,
                self.map == old(self).map,
                self.player == old(self).player,
                self.player_pos == old(self).player_pos,
                self.log == old(self).log,
            decreases targets@.len() - i,
        {
            let t = targets[i];
            let ghost w0 = *self;
            proof {
                lemma_prefix_fresh(targets@, i as int);
            }
            let mut pending: Vec<i32> = Vec::new();
            self.suffer_damage.set_and_swap(t, &mut pending);
            pending.push(amount);
            self.suffer_damage.set_and_swap(t, &mut pending);
            assert forall|e: Entity| e < old(self).n() implies #[trigger] self.suffer_damage@[e as int]@
                == if targets@.subrange(0, i + 1).contains(e) {
                old(self).suffer_damage@[e as int]@.push(amount)
            } else {
                old(self).suffer_damage@[e as int]@
            } by {
                lemma_prefix_contains(targets@, i as int, e);
                assert(w0.suffer_damage@[e as int]@ == if targets@.subrange(0, i as int).contains(e) {
                    old(self).suffer_damage@[e as int]@.push(amount)
                } else {
                    old(self).suffer_damage@[e as int]@
                });
            }
            i = i + 1;
        }
        assert(targets@.subrange(0, targets@.len() as int) =~= targets@);
    }

    /// Sets every target's disable status to `turns`.
    pub fn disable_targets(&mut self, targets: &Vec<Entity>, turns: i32)
        requires
            old(self).wf(),
            forall|k: int| 0 <= k < targets@.len() ==> #[trigger] targets@[k] < old(self).n(),
        ensures
            final(self).wf(),
            final(self).disabled@.len() == old(self).disabled@.len(),
            forall|e: Entity|
                e < old(self).n() ==> #[trigger] final(self).disabled@[e as int] == if targets@.contains(
                    e,
                ) {
                    Some(turns)
                } else {
                    old(self).disabled@[e as int]
                },
            final(self).alive == old(self).alive,
            final(self).names == old(self).names,
            final(self).positions == old(self).positions,
            final(self).viewsheds == old(self).viewsheds,
            final(self).stats == old(self).stats,
            final(self).suffer_damage == old(self).suffer_damage,
            final(self).items == old(self).items,
            final(self).in_backpack == old(self).in_backpack,
            final(self).equipped == old(self).equipped,
            final(self).wants_use == old(self).wants_use,
            final(self).wants_melee == old(self).wants_melee,
            final(self).wants_pickup == old(self).wants_pickup,
            final(self).wants_drop == old(self).wants_drop,
            final(self).wants_remove == old(self).wants_remove,
            final(self).map == old(self).map,
            final(self).player == old(self).player,
            final(self).player_pos == old(self).player_pos,
            final(self).log == old(self).log,
    {
        let mut i: usize = 0;
        while i < targets.len()
            invariant
                self.wf(),
                i <= targets@.len(),
                forall|k: int| 0 <= k < targets@.len() ==> #[trigger] targets@[k] < old(self).n(),
                self.disabled@.len() == old(self).disabled@.len(),
                forall|e: Entity|
                    e < old(self).n() ==> #[trigger] self.disabled@[e as int] == if targets@.subrange(
                        0,
                        i as int,
                    ).contains(e) {
                        Some(turns)
                    } else {
                        old(self).disabled@[e as int]
                    },
                self.alive == old(self).alive,
                self.names == old(self).names,
                self.positions == old(self).positions,
                self.viewsheds == old(self).viewsheds,
                self.stats == old(self).stats,
                self.suffer_damage == old(self).suffer_damage,
                self.items == old(self).items,
                self.in_backpack == old(self).in_backpack,
                self.equipped == old(self).equipped,
                self.wants_use == old(self).wants_use,
                self.wants_melee == old(self).wants_melee,
                self.wants_pickup == old(self).wants_pickup,
                self.wants_drop == old(self).wants_drop,
                self.wants_remove == old(self).wants_remove,
                self.map == old(self).map,
                self.player == old(self).player,
                self.player_pos == old(self).player_pos,
                self.log == old(self).log,
            decreases targets@.len() - i,
        {
            let t = targets[i];
            let ghost w0 = *self;
            self.disabled.set(t, Some(turns));
            assert forall|e: Entity| e < old(self).n() implies #[trigger] self.disabled@[e as int]
                == if targets@.subrange(0, i + 1).contains(e) {
                Some(turns)
            } else {
                old(self).disabled@[e as int]
            } by {
                lemma_prefix_contains(targets@, i as int, e);
                assert(w0.disabled@[e as int] == if targets@.subrange(0, i as int).contains(e) {
                    Some(turns)
                } else {
                    old(self).disabled@[e as int]
                });
            }
            i = i + 1;
        }
        assert(targets@.subrange(0, targets@.len() as int) =~= targets@);
    }

    /// Puts `item` on `owner` in `slot`, moving whatever `owner` wore in that
    /// slot to `owner`'s backpack.
    pub fn equip_item(&mut self, item: Entity, owner: Entity, slot: EquipmentSlot)
        requires
            old(self).wf(),
            item < old(self).n(),
            owner < old(self).n(),
        ensures
            final(self).wf(),
            final(self).equipped@.len() == old(self).equipped@.len(),
            final(self).in_backpack@.len() == old(self).in_backpack@.len(),
            final(self).equipped@[item as int] == Some(Equipped { owner, slot }),
            final(self).in_backpack@[item as int].is_none(),
            forall|i: Entity|
                i < old(self).n() && i != item ==> #[trigger] final(self).equipped@[i as int] == if old(self).equipped@[i as int] == Some(Equipped { owner, slot }) {
                    None
                } else {
                    old(self).equipped@[i as int]
                },
            forall|i: Entity|
                i < old(self).n() && i != item ==> #[trigger] final(self).in_backpack@[i as int] == if old(self).equipped@[i as int] == Some(Equipped { owner, slot }) {
                    Some(owner)
                } else {
                    old(self).in_backpack@[i as int]
                },
            old(self).equip_exclusive() ==> final(self).equip_exclusive(),
            final(self).alive == old(self).alive,
            final(self).names == old(self).names,
            final(self).positions == old(self).positions,
            final(self).viewsheds == old(self).viewsheds,
            final(self).stats == old(self).stats,
            final(self).suffer_damage == old(self).suffer_damage,
            final(self).items == old(self).items,
            final(self).disabled == old(self).disabled,
            final(self).wants_use == old(self).wants_use,
            final(self).wants_melee == old(self).wants_melee,
            final(self).wants_pickup == old(self).wants_pickup,
            final(self).wants_drop == old(self).wants_drop,
            final(self).wants_remove == old(self).wants_remove,
            final(self).map == old(self).map,
            final(self).player == old(self).player,
            final(self).player_pos == old(self).player_pos,
    {
        let worn = Equipped { owner, slot };
        let n = self.alive.len();
        let mut i: usize = 0;
        while i < n
            invariant
                self.wf(),
                n == self.n(),
                n == old(self).n(),
                item < n,
                owner < n,
                i <= n,
                worn == (Equipped { owner, slot }),
                self.equipped@.len() == n,
                self.in_backpack@.len() == n,
                forall|k: Entity|
                    k < n ==> #[trigger] self.equipped@[k as int] == if k < i && old(self).equipped@[k as int]
                        == Some(worn) {
                        None
                    } else {
                        old(self).equipped@[k as int]
                    },
                forall|k: Entity|
                    k < n ==> #[trigger] self.in_backpack@[k as int] == if k < i && old(self).equipped@[k as int]
                        == Some(worn) {
                        Some(owner)
                    } else {
                        old(self).in_backpack@[k as int]
                    },
                self.alive == old(self).alive,
                self.names == old(self).names,
                self.positions == old(self).positions,
                self.viewsheds == old(self).viewsheds,
                self.stats == old(self).stats,
                self.suffer_damage == old(self).suffer_damage,
                self.items == old(self).items,
                self.disabled == old(self).disabled,
                self.wants_use == old(self).wants_use,
                self.wants_melee == old(self).wants_melee,
                self.wants_pickup == old(self).wants_pickup,
                self.wants_drop == old(self).wants_drop,
                self.wants_remove == old(self).wants_remove,
                self.map == old(self).map,
                self.player == old(self).player,
                self.player_pos == old(self).player_pos,
            decreases n - i,
        {
            if self.equipped[i] == Some(worn) {
                self.equipped.set(i, None);
                self.in_backpack.set(i, Some(owner));
                if owner == self.player {
                    let name = self.name_of(i);
                    self.log.push(LogEntry::Unequip { item: name });
                }
            }
            i = i + 1;
        }
        let ghost mid = *self;
        self.equipped.set(item, Some(worn));
        self.in_backpack.set(item, None);
        if owner == self.player {
            let name = self.name_of(item);
            self.log.push(LogEntry::Equip { item: name });
        }
        assert forall|a: int, b: int|
            #![trigger self.equipped@[a], self.equipped@[b]]
            0 <= a < self.equipped@.len() && 0 <= b < self.equipped@.len() && a != b
                && self.equipped@[a].is_some() && self.equipped@[b].is_some()
                && old(self).equip_exclusive() implies self.equipped@[a].unwrap()
            != self.equipped@[b].unwrap() by {
            let ea = a as Entity;
            let eb = b as Entity;
            assert(mid.equipped@[ea as int] == self.equipped@[a] || a == item);
            assert(mid.equipped@[eb as int] == self.equipped@[b] || b == item);
            assert(old(self).equipped@[a] == old(self).equipped@[a]);
            assert(old(self).equipped@[b] == old(self).equipped@[b]);
        }
    }
}

} // verus!
