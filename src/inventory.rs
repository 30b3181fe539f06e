use vstd::prelude::*;
use crate::components::{CombatStats, Entity, Equipped, ItemFacets, Position, WantsToPickupItem, WantsToUseItem};
use crate::effects::healed;
use crate::targeting::targets_spec;
use crate::world::{lemma_log_push, log_view, LogEntry, LogView, World, same_but_log};

verus! {

/// The facets of an entity that is no item: none at all.
pub open spec fn no_facets() -> ItemFacets {
    ItemFacets {
        consumable: false,
        healing: None,
        damage: None,
        aoe_radius: None,
        range: None,
        disable_turns: None,
        slot: None,
        atk_bonus: None,
        def_bonus: None,
    }
}

pub open spec fn facets_spec(w: World, item: Entity) -> ItemFacets {
    match w.items@[item as int] {
        Some(f) => f,
        None => no_facets(),
    }
}

/// Whether using an item with facets `f` uses it up: it must be consumable
/// and not merely be equipped.
pub open spec fn consumed_spec(f: ItemFacets) -> bool {
    let fires = f.damage.is_some() || f.disable_turns.is_some();
    let equip_only = f.slot.is_some() && f.healing.is_none() && !fires;
    f.consumable && !equip_only
}

/// Whether using an item with facets `f` on `targets` equips it.
pub open spec fn equips_spec(f: ItemFacets, targets: Seq<Entity>) -> bool {
    f.slot.is_some() && targets.len() > 0
}

/// Whom the request reaches in world `w`.
pub open spec fn use_targets(w: World, u: Entity, r: WantsToUseItem) -> Seq<Entity> {
    targets_spec(w, u, r.item, r.target, r.blast@)
}

/// Whether the request uses its item up.
pub open spec fn use_consumes(w: World, u: Entity, r: WantsToUseItem) -> bool {
    consumed_spec(facets_spec(w, r.item))
}

/// Whether the request equips its item.
pub open spec fn use_equips(w: World, u: Entity, r: WantsToUseItem) -> bool {
    equips_spec(facets_spec(w, r.item), use_targets(w, u, r))
}

/// The relation that equipping sets up: worn by the first target.
pub open spec fn use_worn(w: World, u: Entity, r: WantsToUseItem) -> Equipped {
    Equipped { owner: use_targets(w, u, r)[0], slot: facets_spec(w, r.item).slot.unwrap() }
}

pub open spec fn equipped_after_use(w: World, u: Entity, r: WantsToUseItem, e: Entity) -> Option<Equipped> {
    if use_consumes(w, u, r) && e == r.item {
        None
    } else if use_equips(w, u, r) && e == r.item {
        Some(use_worn(w, u, r))
    } else if use_equips(w, u, r) && w.equipped@[e as int] == Some(use_worn(w, u, r)) {
        None
    } else {
        w.equipped@[e as int]
    }
}

pub open spec fn backpack_after_use(w: World, u: Entity, r: WantsToUseItem, e: Entity) -> Option<Entity> {
    if (use_consumes(w, u, r) || use_equips(w, u, r)) && e == r.item {
        None
    } else if use_equips(w, u, r) && w.equipped@[e as int] == Some(use_worn(w, u, r)) {
        Some(use_targets(w, u, r)[0])
    } else {
        w.in_backpack@[e as int]
    }
}

pub open spec fn stats_after_use(w: World, u: Entity, r: WantsToUseItem, e: Entity) -> Option<CombatStats> {
    let f = facets_spec(w, r.item);
    if use_consumes(w, u, r) && e == r.item {
        None
    } else if f.healing.is_some() && use_targets(w, u, r).contains(e) && w.stats@[e as int].is_some() {
        Some(healed(w.stats@[e as int].unwrap(), f.healing.unwrap() as int))
    } else {
        w.stats@[e as int]
    }
}

pub open spec fn pending_after_use(w: World, u: Entity, r: WantsToUseItem, e: Entity) -> Seq<i32> {
    let f = facets_spec(w, r.item);
    if use_consumes(w, u, r) && e == r.item {
        Seq::empty()
    } else if f.damage.is_some() && use_targets(w, u, r).contains(e) {
        w.suffer_damage@[e as int]@.push(f.damage.unwrap())
    } else {
        w.suffer_damage@[e as int]@
    }
}

pub open spec fn disabled_after_use(w: World, u: Entity, r: WantsToUseItem, e: Entity) -> Option<i32> {
    let f = facets_spec(w, r.item);
    if use_consumes(w, u, r) && e == r.item {
        None
    } else if f.disable_turns.is_some() && use_targets(w, u, r).contains(e) {
        Some(f.disable_turns.unwrap())
    } else {
        w.disabled@[e as int]
    }
}

/// The collector of the last pickup request for `item` among the first `k`
/// entities' requests.
pub open spec fn pickup_collector(
    reqs: Seq<Option<WantsToPickupItem>>,
    item: Entity,
    k: int,
) -> Option<Entity>
    decreases k,
{
    if k <= 0 {
        None
    } else if reqs[k - 1].is_some() && reqs[k - 1].unwrap().item == item {
        Some(reqs[k - 1].unwrap().collected_by)
    } else {
        pickup_collector(reqs, item, k - 1)
    }
}

/// What the pickup requests of the first `k` entities write to the log: the
/// item's name, for each one the player makes.
pub open spec fn pickup_log(w: World, k: int) -> Seq<LogView>
    decreases k,
{
    if k <= 0 {
        Seq::empty()
    } else {
        let prev = pickup_log(w, k - 1);
        let r = w.wants_pickup@[k - 1];
        if r.is_some() && r.unwrap().collected_by == w.player {
            prev.push(LogView::PickUp { item: w.name_view(r.unwrap().item as int) })
        } else {
            prev
        }
    }
}

/// What the drop requests of the first `k` entities write to the log: the
/// item's name, for a drop the player makes while standing somewhere.
pub open spec fn drop_log(w: World, k: int) -> Seq<LogView>
    decreases k,
{
    if k <= 0 {
        Seq::empty()
    } else {
        let prev = drop_log(w, k - 1);
        let r = w.wants_drop@[k - 1];
        if r.is_some() && w.positions@[k - 1].is_some() && k - 1 == w.player {
            prev.push(LogView::Drop { item: w.name_view(r.unwrap() as int) })
        } else {
            prev
        }
    }
}

/// Where the last of the first `k` entities that asks to drop `item` and
/// stands somewhere stands.
pub open spec fn drop_spot(w: World, item: Entity, k: int) -> Option<Position>
    decreases k,
{
    if k <= 0 {
        None
    } else if w.wants_drop@[k - 1] == Some(item) && w.positions@[k - 1].is_some() {
        w.positions@[k - 1]
    } else {
        drop_spot(w, item, k - 1)
    }
}

/// The last of the first `k` entities that asks to take off `item`.
pub open spec fn remover(reqs: Seq<Option<Entity>>, item: Entity, k: int) -> Option<Entity>
    decreases k,
{
    if k <= 0 {
        None
    } else if reqs[k - 1] == Some(item) {
        Some((k - 1) as Entity)
    } else {
        remover(reqs, item, k - 1)
    }
}

/// Whether `v` is what using `r` makes of `w`: the item equipped on the
/// first target when it has a slot, every target healed, damaged and
/// disabled as its facets say, and the item gone when used up.
pub open spec fn used_as(w: World, v: World, u: Entity, r: WantsToUseItem) -> bool {
    &&& v.n() == w.n()
    &&& v.alive@ == if use_consumes(w, u, r) {
        w.alive@.update(r.item as int, false)
    } else {
        w.alive@
    }
    &&& v.positions@ == if use_consumes(w, u, r) {
        w.positions@.update(r.item as int, None)
    } else {
        w.positions@
    }
    &&& forall|e: Entity| e < w.n() ==> #[trigger] v.equipped@[e as int] == equipped_after_use(w, u, r, e)
    &&& forall|e: Entity|
        e < w.n() ==> #[trigger] v.in_backpack@[e as int] == backpack_after_use(w, u, r, e)
    &&& forall|e: Entity| e < w.n() ==> #[trigger] v.stats@[e as int] == stats_after_use(w, u, r, e)
    &&& forall|e: Entity|
        e < w.n() ==> #[trigger] v.suffer_damage@[e as int]@ == pending_after_use(w, u, r, e)
    &&& forall|e: Entity| e < w.n() ==> #[trigger] v.disabled@[e as int] == disabled_after_use(w, u, r, e)
    &&& v.map == w.map
    &&& v.player == w.player
    &&& v.player_pos == w.player_pos
}

/// Whether `a` and `b` agree on all that using an item reads or writes.
pub open spec fn use_inputs_same(a: World, b: World) -> bool {
    &&& a.alive == b.alive
    &&& a.positions == b.positions
    &&& a.equipped == b.equipped
    &&& a.in_backpack == b.in_backpack
    &&& a.stats == b.stats
    &&& a.suffer_damage == b.suffer_damage
    &&& a.disabled == b.disabled
    &&& a.items == b.items
    &&& a.map == b.map
    &&& a.player == b.player
    &&& a.player_pos == b.player_pos
}

/// Whether `b` is what the use pass makes of `a` at entity `k`: nothing
/// when `k` asks for nothing; else `k`'s request carried out and taken
/// away, along with the used item's own request if the item is used up.
pub open spec fn use_step(a: World, b: World, k: int) -> bool {
    match a.wants_use@[k] {
        None => use_inputs_same(a, b) && b.wants_use@ == a.wants_use@,
        Some(r) => {
            &&& used_as(a, b, k as Entity, r)
            &&& b.wants_use@.len() == a.wants_use@.len()
            &&& forall|j: int|
                0 <= j < a.n() ==> #[trigger] b.wants_use@[j] == if j == k || (use_consumes(
                    a,
                    k as Entity,
                    r,
                ) && j == r.item) {
                    None
                } else {
                    a.wants_use@[j]
                }
        },
    }
}

/// Whether `ws` leads from `w` to `v` by one use step per entity, in entity
/// order.
pub open spec fn uses_in_order(ws: Seq<World>, w: World, v: World) -> bool {
    &&& ws.len() == w.n() + 1
    &&& ws[0] == w
    &&& ws[w.n() as int] == v
    &&& forall|k: int| 0 <= k < w.n() ==> #[trigger] use_step(ws[k], ws[k + 1], k)
}

/// The clauses of `used_as`, gathered.
proof fn lemma_used_as_intro(w: World, v: World, u: Entity, r: WantsToUseItem)
    requires
        v.n() == w.n(),
        v.alive@ == if use_consumes(w, u, r) {
            w.alive@.update(r.item as int, false)
        } else {
            w.alive@
        },
        v.positions@ == if use_consumes(w, u, r) {
            w.positions@.update(r.item as int, None)
        } else {
            w.positions@
        },
        forall|e: Entity| e < w.n() ==> #[trigger] v.equipped@[e as int] == equipped_after_use(w, u, r, e),
        forall|e: Entity| e < w.n() ==> #[trigger] v.in_backpack@[e as int] == backpack_after_use(w, u, r, e),
        forall|e: Entity| e < w.n() ==> #[trigger] v.stats@[e as int] == stats_after_use(w, u, r, e),
        forall|e: Entity|
            e < w.n() ==> #[trigger] v.suffer_damage@[e as int]@ == pending_after_use(w, u, r, e),
        forall|e: Entity| e < w.n() ==> #[trigger] v.disabled@[e as int] == disabled_after_use(w, u, r, e),
        v.map == w.map,
        v.player == w.player,
        v.player_pos == w.player_pos,
    ensures
        used_as(w, v, u, r),
{
}

proof fn lemma_used_as_frame(w1: World, w2: World, v1: World, v2: World, u: Entity, r: WantsToUseItem)
    requires
        use_inputs_same(w1, w2),
        use_inputs_same(v1, v2),
        used_as(w1, v1, u, r),
    ensures
        used_as(w2, v2, u, r),
        use_consumes(w1, u, r) == use_consumes(w2, u, r),
{
    assert(use_targets(w1, u, r) == use_targets(w2, u, r));
    assert(facets_spec(w1, r.item) == facets_spec(w2, r.item));
    assert forall|e: Entity| e < w2.n() implies #[trigger] v2.equipped@[e as int] == equipped_after_use(w2, u, r, e) by {
        assert(v1.equipped@[e as int] == equipped_after_use(w1, u, r, e));
    }
    assert forall|e: Entity| e < w2.n() implies #[trigger] v2.in_backpack@[e as int] == backpack_after_use(w2, u, r, e) by {
        assert(v1.in_backpack@[e as int] == backpack_after_use(w1, u, r, e));
    }
    assert forall|e: Entity| e < w2.n() implies #[trigger] v2.stats@[e as int] == stats_after_use(w2, u, r, e) by {
        assert(v1.stats@[e as int] == stats_after_use(w1, u, r, e));
    }
    assert forall|e: Entity| e < w2.n() implies #[trigger] v2.suffer_damage@[e as int]@ == pending_after_use(w2, u, r, e) by {
        assert(v1.suffer_damage@[e as int]@ == pending_after_use(w1, u, r, e));
    }
    assert forall|e: Entity| e < w2.n() implies #[trigger] v2.disabled@[e as int] == disabled_after_use(w2, u, r, e) by {
        assert(v1.disabled@[e as int] == disabled_after_use(w1, u, r, e));
    }
}

impl World {
    /// Logs, for each target, that `item` was used on it.
    fn log_target_effects(&mut self, item: Entity, targets: &Vec<Entity>, damage: Option<i32>)
        requires
            old(self).wf(),
            item < old(self).n(),
            forall|k: int| 0 <= k < targets@.len() ==> #[trigger] targets@[k] < old(self).n(),
        ensures
            final(self).wf(),
            same_but_log(*final(self), *old(self)),
    {
        let mut i: usize = 0;
        while i < targets.len()
            invariant
                self.wf(),
                item < self.n(),
                same_but_log(*self, *old(self)),
                forall|k: int| 0 <= k < targets@.len() ==> #[trigger] targets@[k] < old(self).n(),
            decreases targets@.len() - i,
        {
            let item_name = self.name_of(item);
            let target_name = self.name_of(targets[i]);
            match damage {
                Some(d) => self.log.push(
                    LogEntry::UseOn { item: item_name, target: target_name, damage: d },
                ),
                None => self.log.push(LogEntry::DisableOn { item: item_name, target: target_name }),
            }
            i = i + 1;
        }
    }

    /// `user` uses `item` as the request says: the item is equipped on the
    /// first target when it has a slot, heals, damages and disables every
    /// target as its facets say, and leaves the world when used up.
    pub fn use_item(&mut self, user: Entity, request: WantsToUseItem)
        requires
            old(self).wf(),
            user < old(self).n(),
            request.item < old(self).n(),
        ensures
            final(self).wf(),
            final(self).n() == old(self).n(),
            final(self).alive@ == if use_consumes(*old(self), user, request) {
                old(self).alive@.update(request.item as int, false)
            } else {
                old(self).alive@
            },
            final(self).positions@ == if use_consumes(*old(self), user, request) {
                old(self).positions@.update(request.item as int, None)
            } else {
                old(self).positions@
            },
            forall|e: Entity|
                e < old(self).n() ==> #[trigger] final(self).equipped@[e as int] == equipped_after_use(
                    *old(self),
                    user,
                    request,
                    e,
                ),
            forall|e: Entity|
                e < old(self).n() ==> #[trigger] final(self).in_backpack@[e as int]
                    == backpack_after_use(*old(self), user, request, e),
            forall|e: Entity|
                e < old(self).n() ==> #[trigger] final(self).stats@[e as int] == stats_after_use(
                    *old(self),
                    user,
                    request,
                    e,
                ),
            forall|e: Entity|
                e < old(self).n() ==> #[trigger] final(self).suffer_damage@[e as int]@
                    == pending_after_use(*old(self), user, request, e),
            forall|e: Entity|
                e < old(self).n() ==> #[trigger] final(self).disabled@[e as int] == disabled_after_use(
                    *old(self),
                    user,
                    request,
                    e,
                ),
            final(self).map == old(self).map,
            final(self).player == old(self).player,
            final(self).player_pos == old(self).player_pos,
            old(self).equip_exclusive() ==> final(self).equip_exclusive(),
            old(self).melee_drained() ==> final(self).melee_drained(),
            old(self).pickup_drained() ==> final(self).pickup_drained(),
            old(self).drop_drained() ==> final(self).drop_drained(),
            old(self).remove_drained() ==> final(self).remove_drained(),
            final(self).wants_use@.len() == old(self).wants_use@.len(),
            forall|k: int|
                0 <= k < old(self).n() ==> #[trigger] final(self).wants_use@[k] == if use_consumes(
                    *old(self),
                    user,
                    request,
                ) && k == request.item {
                    None
                } else {
                    old(self).wants_use@[k]
                },
    {
        let item = request.item;
        let targets = self.resolve_targets(user, item, request.target, &request.blast);
        let f = match self.items[item] {
            Some(f) => f,
            None => ItemFacets {
                consumable: false,
                healing: None,
                damage: None,
                aoe_radius: None,
                range: None,
                disable_turns: None,
                slot: None,
                atk_bonus: None,
                def_bonus: None,
            },
        };
        match f.slot {
            Some(slot) => {
                if targets.len() > 0 {
                    self.equip_item(item, targets[0], slot);
                }
            },
            None => {},
        }
        match f.healing {
            Some(amount) => {
                self.heal_targets(&targets, amount);
                if user == self.player {
                    let name = self.name_of(item);
                    self.log.push(LogEntry::Heal { item: name, amount });
                }
            },
            None => {},
        }
        match f.damage {
            Some(amount) => {
                self.damage_targets(&targets, amount);
                if user == self.player {
                    self.log_target_effects(item, &targets, Some(amount));
                }
            },
            None => {},
        }
        match f.disable_turns {
            Some(turns) => {
                self.disable_targets(&targets, turns);
                if user == self.player {
                    self.log_target_effects(item, &targets, None);
                }
            },
            None => {},
        }
        let fires = f.damage.is_some() || f.disable_turns.is_some();
        let equip_only = f.slot.is_some() && f.healing.is_none() && !fires;
        if f.consumable && !equip_only {
            self.delete_entity(item);
        }
    }
}

/// Whether `b` is what the item-use pass makes of `a`.
pub open spec fn use_pass(a: World, b: World) -> bool {
    &&& b.n() == a.n()
    &&& b.player == a.player
    &&& b.player_pos == a.player_pos
    &&& b.map == a.map
    &&& forall|e: int|
        0 <= e < b.n() ==> (#[trigger] b.wants_use@[e]).is_none()
    &&& a.equip_exclusive() ==> b.equip_exclusive()
    &&& a.melee_drained() ==> b.melee_drained()
    &&& a.pickup_drained() ==> b.pickup_drained()
    &&& a.drop_drained() ==> b.drop_drained()
    &&& a.remove_drained() ==> b.remove_drained()
    &&& exists|ws: Seq<World>| #[trigger] uses_in_order(ws, a, b)
}

/// With no use request pending, the item-use pass leaves hit points and
/// pending damage alone.
pub proof fn lemma_no_use_keeps(ws: Seq<World>, a: World, b: World, k: int)
    requires
        uses_in_order(ws, a, b),
        forall|j: int| 0 <= j < a.n() ==> (#[trigger] a.wants_use@[j]).is_none(),
        a.wants_use@.len() == a.n(),
        0 <= k <= a.n(),
    ensures
        use_inputs_same(a, ws[k]),
        ws[k].wants_use@ == a.wants_use@,
    decreases k,
{
    if k > 0 {
        lemma_no_use_keeps(ws, a, b, k - 1);
        let j = k - 1;
        assert(use_step(ws[j], ws[j + 1], j));
        assert(ws[j].wants_use@[j].is_none());
    }
}

/// Resolves every request to use an item, in entity order.
pub struct ItemUseSystem {}

impl ItemUseSystem {
    pub fn run(&mut self, world: &mut World)
        requires
            old(world).wf(),
        ensures
            final(world).wf(),
            final(world).n() == old(world).n(),
            final(world).player == old(world).player,
            final(world).player_pos == old(world).player_pos,
            final(world).map == old(world).map,
            forall|e: int|
                0 <= e < final(world).n() ==> (#[trigger] final(world).wants_use@[e]).is_none(),
            old(world).equip_exclusive() ==> final(world).equip_exclusive(),
            old(world).melee_drained() ==> final(world).melee_drained(),
            old(world).pickup_drained() ==> final(world).pickup_drained(),
            old(world).drop_drained() ==> final(world).drop_drained(),
            old(world).remove_drained() ==> final(world).remove_drained(),
            exists|ws: Seq<World>| #[trigger] uses_in_order(ws, *old(world), *final(world)),
    {
        let ghost w0 = *world;
        let ghost mut ws: Seq<World> = seq![w0];
        let n = world.alive.len();
        let mut e: usize = 0;
        while e < n
            invariant
                world.wf(),
                n == world.n(),
                n == w0.n(),
                e <= n,
                w0 == *old(world),
                ws.len() == e + 1,
                ws[0] == w0,
                ws[e as int] == *world,
                forall|k: int| 0 <= k < e ==> #[trigger] use_step(ws[k], ws[k + 1], k),
                world.player == old(world).player,
                world.player_pos == old(world).player_pos,
                world.map == old(world).map,
                forall|k: int| 0 <= k < e ==> (#[trigger] world.wants_use@[k]).is_none(),
                old(world).equip_exclusive() ==> world.equip_exclusive(),
                old(world).melee_drained() ==> world.melee_drained(),
                old(world).pickup_drained() ==> world.pickup_drained(),
                old(world).drop_drained() ==> world.drop_drained(),
                old(world).remove_drained() ==> world.remove_drained(),
            decreases n - e,
        {
            let ghost a = *world;
            let mut request: Option<WantsToUseItem> = None;
            world.wants_use.set_and_swap(e, &mut request);
            match request {
                Some(r) => {
                    let ghost before = *world;
                    world.use_item(e, r);
                    proof {
                        lemma_used_as_intro(before, *world, e, r);
                        lemma_used_as_frame(before, a, *world, *world, e, r);
                        assert forall|k: int| 0 <= k <= e implies (#[trigger] world.wants_use@[k]).is_none() by {
                            assert(before.wants_use@[k].is_none());
                        }
                        assert forall|j: int| 0 <= j < a.n() implies #[trigger] world.wants_use@[j] == if j
                            == e || (use_consumes(a, e, r) && j == r.item) {
                            None
                        } else {
                            a.wants_use@[j]
                        } by {
                            assert(world.wants_use@[j] == if use_consumes(before, e, r) && j == r.item {
                                None
                            } else {
                                before.wants_use@[j]
                            });
                        }
                        assert(use_step(a, *world, e as int));
                    }
                },
                None => {
                    proof {
                        assert(world.wants_use@ =~= a.wants_use@);
                        assert(use_step(a, *world, e as int));
                    }
                },
            }
            proof {
                let ghost old_ws = ws;
                ws = ws.push(*world);
                assert forall|k: int| 0 <= k < e + 1 implies #[trigger] use_step(ws[k], ws[k + 1], k) by {
                    if k < e {
                        assert(ws[k] == old_ws[k] && ws[k + 1] == old_ws[k + 1]);
                    }
                }
            }
            e = e + 1;
        }
        assert(uses_in_order(ws, *old(world), *world));
    }
}

/// Whether `b` is what the pickup pass makes of `a`.
pub open spec fn pickup_pass(a: World, b: World) -> bool {
    &&& b.n() == a.n()
    &&& log_view(b) == log_view(a) + pickup_log(a, a.n() as int)
    &&& forall|i: Entity|
        i < a.n() ==> #[trigger] b.positions@[i as int] == if pickup_collector(
            a.wants_pickup@,
            i,
            a.n() as int,
        ).is_some() {
            None
        } else {
            a.positions@[i as int]
        }
    &&& forall|i: Entity|
        i < a.n() ==> #[trigger] b.in_backpack@[i as int] == if pickup_collector(
            a.wants_pickup@,
            i,
            a.n() as int,
        ).is_some() {
            pickup_collector(a.wants_pickup@, i, a.n() as int)
        } else {
            a.in_backpack@[i as int]
        }
    &&& forall|e: int|
        0 <= e < b.n() ==> (#[trigger] b.wants_pickup@[e]).is_none()
    &&& b.equipped == a.equipped
    &&& b.stats == a.stats
    &&& b.alive == a.alive
    &&& b.map == a.map
    &&& b.player == a.player
    &&& b.wants_melee == a.wants_melee
    &&& b.wants_drop == a.wants_drop
    &&& b.wants_use == a.wants_use
    &&& b.wants_remove == a.wants_remove
    &&& b.player_pos == a.player_pos
    &&& b.suffer_damage == a.suffer_damage
    &&& b.disabled == a.disabled
    &&& b.items == a.items
    &&& b.names == a.names
    &&& b.renderables == a.renderables
    &&& b.viewsheds == a.viewsheds
    &&& b.monsters == a.monsters
    &&& b.blocks_tile == a.blocks_tile
}

/// Moves every item that someone asked to pick up into the collector's
/// backpack.
pub struct InventorySystem {}

impl InventorySystem {
    pub fn run(&mut self, world: &mut World)
        requires
            old(world).wf(),
        ensures
            log_view(*final(world)) == log_view(*old(world)) + pickup_log(*old(world), old(world).n() as int),
            final(world).wf(),
            final(world).n() == old(world).n(),
            forall|i: Entity|
                i < old(world).n() ==> #[trigger] final(world).positions@[i as int] == if pickup_collector(
                    old(world).wants_pickup@,
                    i,
                    old(world).n() as int,
                ).is_some() {
                    None
                } else {
                    old(world).positions@[i as int]
                },
            forall|i: Entity|
                i < old(world).n() ==> #[trigger] final(world).in_backpack@[i as int] == if pickup_collector(
                    old(world).wants_pickup@,
                    i,
                    old(world).n() as int,
                ).is_some() {
                    pickup_collector(old(world).wants_pickup@, i, old(world).n() as int)
                } else {
                    old(world).in_backpack@[i as int]
                },
            forall|e: int|
                0 <= e < final(world).n() ==> (#[trigger] final(world).wants_pickup@[e]).is_none(),
            final(world).equipped == old(world).equipped,
            final(world).stats == old(world).stats,
            final(world).alive == old(world).alive,
            final(world).map == old(world).map,
            final(world).player == old(world).player,
            final(world).wants_melee == old(world).wants_melee,
            final(world).wants_drop == old(world).wants_drop,
            final(world).wants_use == old(world).wants_use,
            final(world).wants_remove == old(world).wants_remove,
            final(world).player_pos == old(world).player_pos,
            final(world).suffer_damage == old(world).suffer_damage,
            final(world).disabled == old(world).disabled,
            final(world).items == old(world).items,
            final(world).names == old(world).names,
            final(world).renderables == old(world).renderables,
            final(world).viewsheds == old(world).viewsheds,
            final(world).monsters == old(world).monsters,
            final(world).blocks_tile == old(world).blocks_tile,
    {
        let n = world.alive.len();
        let mut e: usize = 0;
        while e < n
            invariant
                world.wf(),
                n == world.n(),
                n == old(world).n(),
                e <= n,
                forall|i: Entity|
                    i < n ==> #[trigger] world.positions@[i as int] == if pickup_collector(
                        old(world).wants_pickup@,
                        i,
                        e as int,
                    ).is_some() {
                        None
                    } else {
                        old(world).positions@[i as int]
                    },
                forall|i: Entity|
                    i < n ==> #[trigger] world.in_backpack@[i as int] == if pickup_collector(
                        old(world).wants_pickup@,
                        i,
                        e as int,
                    ).is_some() {
                        pickup_collector(old(world).wants_pickup@, i, e as int)
                    } else {
                        old(world).in_backpack@[i as int]
                    },
                forall|k: int| 0 <= k < e ==> (#[trigger] world.wants_pickup@[k]).is_none(),
                log_view(*world) == log_view(*old(world)) + pickup_log(*old(world), e as int),
                forall|k: int| e <= k < n ==> #[trigger] world.wants_pickup@[k] == old(world).wants_pickup@[k],
                world.equipped == old(world).equipped,
                world.stats == old(world).stats,
                world.alive == old(world).alive,
                world.map == old(world).map,
                world.player == old(world).player,
                world.wants_melee == old(world).wants_melee,
                world.wants_drop == old(world).wants_drop,
                world.wants_use == old(world).wants_use,
                world.wants_remove == old(world).wants_remove,
                world.player_pos == old(world).player_pos,
                world.suffer_damage == old(world).suffer_damage,
                world.disabled == old(world).disabled,
                world.items == old(world).items,
                world.names == old(world).names,
                world.renderables == old(world).renderables,
                world.viewsheds == old(world).viewsheds,
                world.monsters == old(world).monsters,
                world.blocks_tile == old(world).blocks_tile,
            decreases n - e,
        {
            let ghost before = *world;
            let ghost mut added: Seq<LogView> = Seq::empty();
            match world.wants_pickup[e] {
                Some(p) => {
                    world.positions.set(p.item, None);
                    world.in_backpack.set(p.item, Some(p.collected_by));
                    if p.collected_by == world.player {
                        let name = world.name_of(p.item);
                        let entry = LogEntry::PickUp { item: name };
                        let ghost eg = entry;
                        let ghost pre = *world;
                        world.log.push(entry);
                        proof {
                            lemma_log_push(pre, *world, eg);
                            added = seq![eg@];
                        }
                    }
                },
                None => {},
            }
            world.wants_pickup.set(e, None);
            proof {
                assert(log_view(*world) == log_view(before) + added);
                assert(pickup_log(*old(world), e + 1) == pickup_log(*old(world), e as int) + added);
                assert(log_view(*world) =~= log_view(*old(world)) + pickup_log(*old(world), e + 1));
            }
            e = e + 1;
        }
    }
}

/// Whether `b` is what the drop pass makes of `a`.
pub open spec fn drop_pass(a: World, b: World) -> bool {
    &&& b.n() == a.n()
    &&& log_view(b) == log_view(a) + drop_log(a, a.n() as int)
    &&& forall|i: Entity|
        i < a.n() ==> #[trigger] b.positions@[i as int] == if drop_spot(
            a,
            i,
            a.n() as int,
        ).is_some() {
            drop_spot(a, i, a.n() as int)
        } else {
            a.positions@[i as int]
        }
    &&& forall|i: Entity|
        i < a.n() ==> #[trigger] b.in_backpack@[i as int] == if drop_spot(
            a,
            i,
            a.n() as int,
        ).is_some() {
            None
        } else {
            a.in_backpack@[i as int]
        }
    &&& forall|e: int|
        0 <= e < b.n() ==> (#[trigger] b.wants_drop@[e]).is_none()
    &&& b.equipped == a.equipped
    &&& b.stats == a.stats
    &&& b.alive == a.alive
    &&& b.map == a.map
    &&& b.player == a.player
    &&& b.wants_melee == a.wants_melee
    &&& b.wants_pickup == a.wants_pickup
    &&& b.wants_use == a.wants_use
    &&& b.wants_remove == a.wants_remove
    &&& b.player_pos == a.player_pos
    &&& b.suffer_damage == a.suffer_damage
    &&& b.disabled == a.disabled
    &&& b.items == a.items
    &&& b.names == a.names
    &&& b.renderables == a.renderables
    &&& b.viewsheds == a.viewsheds
    &&& b.monsters == a.monsters
    &&& b.blocks_tile == a.blocks_tile
}

/// Puts every item that someone asked to drop on the dropper's tile.
pub struct ItemDropSystem {}

impl ItemDropSystem {
    pub fn run(&mut self, world: &mut World)
        requires
            old(world).wf(),
        ensures
            log_view(*final(world)) == log_view(*old(world)) + drop_log(*old(world), old(world).n() as int),
            final(world).wf(),
            final(world).n() == old(world).n(),
            forall|i: Entity|
                i < old(world).n() ==> #[trigger] final(world).positions@[i as int] == if drop_spot(
                    *old(world),
                    i,
                    old(world).n() as int,
                ).is_some() {
                    drop_spot(*old(world), i, old(world).n() as int)
                } else {
                    old(world).positions@[i as int]
                },
            forall|i: Entity|
                i < old(world).n() ==> #[trigger] final(world).in_backpack@[i as int] == if drop_spot(
                    *old(world),
                    i,
                    old(world).n() as int,
                ).is_some() {
                    None
                } else {
                    old(world).in_backpack@[i as int]
                },
            forall|e: int|
                0 <= e < final(world).n() ==> (#[trigger] final(world).wants_drop@[e]).is_none(),
            final(world).equipped == old(world).equipped,
            final(world).stats == old(world).stats,
            final(world).alive == old(world).alive,
            final(world).map == old(world).map,
            final(world).player == old(world).player,
            final(world).wants_melee == old(world).wants_melee,
            final(world).wants_pickup == old(world).wants_pickup,
            final(world).wants_use == old(world).wants_use,
            final(world).wants_remove == old(world).wants_remove,
            final(world).player_pos == old(world).player_pos,
            final(world).suffer_damage == old(world).suffer_damage,
            final(world).disabled == old(world).disabled,
            final(world).items == old(world).items,
            final(world).names == old(world).names,
            final(world).renderables == old(world).renderables,
            final(world).viewsheds == old(world).viewsheds,
            final(world).monsters == old(world).monsters,
            final(world).blocks_tile == old(world).blocks_tile,
    {
        let n = world.alive.len();
        let mut spots: Vec<Option<Position>> = Vec::new();
        let mut e: usize = 0;
        while e < n
            invariant
                world.wf(),
                n == world.n(),
                e <= n,
                spots@.len() == e,
                forall|k: int|
                    0 <= k < e ==> #[trigger] spots@[k] == if world.wants_drop@[k].is_some() {
                        world.positions@[k]
                    } else {
                        None
                    },
            decreases n - e,
        {
            match world.wants_drop[e] {
                Some(_) => spots.push(world.positions[e]),
                None => spots.push(None),
            }
            e = e + 1;
        }
        let ghost w0 = *world;
        let mut e: usize = 0;
        while e < n
            invariant
                world.wf(),
                n == world.n(),
                n == old(world).n(),
                e <= n,
                spots@.len() == n,
                old(world).wf(),
                forall|k: int|
                    0 <= k < n ==> #[trigger] spots@[k] == if old(world).wants_drop@[k].is_some() {
                        old(world).positions@[k]
                    } else {
                        None
                    },
                forall|i: Entity|
                    i < n ==> #[trigger] world.positions@[i as int] == if drop_spot(
                        *old(world),
                        i,
                        e as int,
                    ).is_some() {
                        drop_spot(*old(world), i, e as int)
                    } else {
                        old(world).positions@[i as int]
                    },
                forall|i: Entity|
                    i < n ==> #[trigger] world.in_backpack@[i as int] == if drop_spot(
                        *old(world),
                        i,
                        e as int,
                    ).is_some() {
                        None
                    } else {
                        old(world).in_backpack@[i as int]
                    },
                forall|k: int| 0 <= k < e ==> (#[trigger] world.wants_drop@[k]).is_none(),
                log_view(*world) == log_view(*old(world)) + drop_log(*old(world), e as int),
                forall|k: int| e <= k < n ==> #[trigger] world.wants_drop@[k] == old(world).wants_drop@[k],
                world.equipped == old(world).equipped,
                world.stats == old(world).stats,
                world.alive == old(world).alive,
                world.map == old(world).map,
                world.player == old(world).player,
                world.wants_melee == old(world).wants_melee,
                world.wants_pickup == old(world).wants_pickup,
                world.wants_use == old(world).wants_use,
                world.wants_remove == old(world).wants_remove,
                world.player_pos == old(world).player_pos,
                world.suffer_damage == old(world).suffer_damage,
                world.disabled == old(world).disabled,
                world.items == old(world).items,
                world.names == old(world).names,
                world.renderables == old(world).renderables,
                world.viewsheds == old(world).viewsheds,
                world.monsters == old(world).monsters,
                world.blocks_tile == old(world).blocks_tile,
            decreases n - e,
        {
            let ghost before = *world;
            let ghost mut added: Seq<LogView> = Seq::empty();
            match world.wants_drop[e] {
                Some(item) => {
                    match spots[e] {
                        Some(p) => {
                            assert(old(world).positions@[e as int] == Some(p));
                            world.positions.set(item, Some(p));
                            world.in_backpack.set(item, None);
                            if e == world.player {
                                let name = world.name_of(item);
                                let entry = LogEntry::Drop { item: name };
                                let ghost eg = entry;
                                let ghost pre = *world;
                                world.log.push(entry);
                                proof {
                                    lemma_log_push(pre, *world, eg);
                                    added = seq![eg@];
                                }
                            }
                        },
                        None => {},
                    }
                },
                None => {},
            }
            world.wants_drop.set(e, None);
            proof {
                assert(log_view(*world) == log_view(before) + added);
                assert(drop_log(*old(world), e + 1) == drop_log(*old(world), e as int) + added);
                assert(log_view(*world) =~= log_view(*old(world)) + drop_log(*old(world), e + 1));
            }
            e = e + 1;
        }
    }
}

/// Whether `b` is what the take-off pass makes of `a`.
pub open spec fn remove_pass(a: World, b: World) -> bool {
    &&& b.n() == a.n()
    &&& forall|i: Entity|
        i < a.n() ==> #[trigger] b.equipped@[i as int] == if remover(
            a.wants_remove@,
            i,
            a.n() as int,
        ).is_some() {
            None
        } else {
            a.equipped@[i as int]
        }
    &&& forall|i: Entity|
        i < a.n() ==> #[trigger] b.in_backpack@[i as int] == if remover(
            a.wants_remove@,
            i,
            a.n() as int,
        ).is_some() {
            remover(a.wants_remove@, i, a.n() as int)
        } else {
            a.in_backpack@[i as int]
        }
    &&& forall|e: int|
        0 <= e < b.n() ==> (#[trigger] b.wants_remove@[e]).is_none()
    &&& a.equip_exclusive() ==> b.equip_exclusive()
    &&& b.positions == a.positions
    &&& b.stats == a.stats
    &&& b.alive == a.alive
    &&& b.map == a.map
    &&& b.player == a.player
    &&& b.wants_melee == a.wants_melee
    &&& b.wants_pickup == a.wants_pickup
    &&& b.wants_drop == a.wants_drop
    &&& b.wants_use == a.wants_use
    &&& b.player_pos == a.player_pos
    &&& b.suffer_damage == a.suffer_damage
    &&& b.disabled == a.disabled
    &&& b.items == a.items
    &&& b.names == a.names
    &&& b.renderables == a.renderables
    &&& b.viewsheds == a.viewsheds
    &&& b.monsters == a.monsters
    &&& b.blocks_tile == a.blocks_tile
}

/// Takes off every item that someone asked to take off, into the asker's
/// backpack.
pub struct ItemRemoveSystem {}

impl ItemRemoveSystem {
    pub fn run(&mut self, world: &mut World)
        requires
            old(world).wf(),
        ensures
            final(world).wf(),
            final(world).n() == old(world).n(),
            forall|i: Entity|
                i < old(world).n() ==> #[trigger] final(world).equipped@[i as int] == if remover(
                    old(world).wants_remove@,
                    i,
                    old(world).n() as int,
                ).is_some() {
                    None
                } else {
                    old(world).equipped@[i as int]
                },
            forall|i: Entity|
                i < old(world).n() ==> #[trigger] final(world).in_backpack@[i as int] == if remover(
                    old(world).wants_remove@,
                    i,
                    old(world).n() as int,
                ).is_some() {
                    remover(old(world).wants_remove@, i, old(world).n() as int)
                } else {
                    old(world).in_backpack@[i as int]
                },
            forall|e: int|
                0 <= e < final(world).n() ==> (#[trigger] final(world).wants_remove@[e]).is_none(),
            old(world).equip_exclusive() ==> final(world).equip_exclusive(),
            final(world).positions == old(world).positions,
            final(world).stats == old(world).stats,
            final(world).alive == old(world).alive,
            final(world).map == old(world).map,
            final(world).player == old(world).player,
            final(world).wants_melee == old(world).wants_melee,
            final(world).wants_pickup == old(world).wants_pickup,
            final(world).wants_drop == old(world).wants_drop,
            final(world).wants_use == old(world).wants_use,
            final(world).player_pos == old(world).player_pos,
            final(world).suffer_damage == old(world).suffer_damage,
            final(world).disabled == old(world).disabled,
            final(world).items == old(world).items,
            final(world).names == old(world).names,
            final(world).renderables == old(world).renderables,
            final(world).viewsheds == old(world).viewsheds,
            final(world).monsters == old(world).monsters,
            final(world).blocks_tile == old(world).blocks_tile,
    {
        let n = world.alive.len();
        let mut e: usize = 0;
        while e < n
            invariant
                world.wf(),
                n == world.n(),
                n == old(world).n(),
                e <= n,
                forall|i: Entity|
                    i < n ==> #[trigger] world.equipped@[i as int] == if remover(
                        old(world).wants_remove@,
                        i,
                        e as int,
                    ).is_some() {
                        None
                    } else {
                        old(world).equipped@[i as int]
                    },
                forall|i: Entity|
                    i < n ==> #[trigger] world.in_backpack@[i as int] == if remover(
                        old(world).wants_remove@,
                        i,
                        e as int,
                    ).is_some() {
                        remover(old(world).wants_remove@, i, e as int)
                    } else {
                        old(world).in_backpack@[i as int]
                    },
                forall|k: int| 0 <= k < e ==> (#[trigger] world.wants_remove@[k]).is_none(),
                forall|k: int|
                    e <= k < n ==> #[trigger] world.wants_remove@[k] == old(world).wants_remove@[k],
                world.positions == old(world).positions,
                world.stats == old(world).stats,
                world.alive == old(world).alive,
                world.map == old(world).map,
                world.player == old(world).player,
                world.wants_melee == old(world).wants_melee,
                world.wants_pickup == old(world).wants_pickup,
                world.wants_drop == old(world).wants_drop,
                world.wants_use == old(world).wants_use,
                world.player_pos == old(world).player_pos,
                world.suffer_damage == old(world).suffer_damage,
                world.disabled == old(world).disabled,
                world.items == old(world).items,
                world.names == old(world).names,
                world.renderables == old(world).renderables,
                world.viewsheds == old(world).viewsheds,
                world.monsters == old(world).monsters,
                world.blocks_tile == old(world).blocks_tile,
            decreases n - e,
        {
            match world.wants_remove[e] {
                Some(item) => {
                    world.equipped.set(item, None);
                    world.in_backpack.set(item, Some(e));
                },
                None => {},
            }
            world.wants_remove.set(e, None);
            e = e + 1;
        }
        assert(old(world).equip_exclusive() ==> world.equip_exclusive()) by {
            if old(world).equip_exclusive() {
                assert forall|a: int, b: int|
                    #![trigger world.equipped@[a], world.equipped@[b]]
                    0 <= a < world.equipped@.len() && 0 <= b < world.equipped@.len() && a != b
                        && world.equipped@[a].is_some() && world.equipped@[b].is_some() implies world.equipped@[a].unwrap()
                    != world.equipped@[b].unwrap() by {
                    assert(world.equipped@[(a as Entity) as int] == world.equipped@[a]);
                    assert(world.equipped@[(b as Entity) as int] == world.equipped@[b]);
                    assert(old(world).equipped@[a] == old(world).equipped@[a]);
                    assert(old(world).equipped@[b] == old(world).equipped@[b]);
                }
            }
        }
    }
}

} // verus!
