//! The slot-transfer protocol: classifying a pairwise slot interaction,
//! executing swaps, and the pickup / drop / cancel lifecycle of a carried
//! item.

use vstd::prelude::*;

use crate::change_propagation::{slot_event_for, Event};
use crate::inventory::Inventory;
use crate::views::{despawn_carry, spawn_inventory_ui, InventoryUi, ItemUi, SlotUi};
use crate::world::World;
use crate::{EntityId, ModelError};

verus! {

/// A transient record of an item lifted out of its source slot and not yet
/// committed to a destination. The staged item lives in a capacity-1
/// inventory of its own, so the view-mirror machinery applies to it as well.
#[derive(Clone, Copy, PartialEq, Eq, Structural, Debug)]
pub struct Carry {
    /// The pointer this carry is bound to; one carry per pointer at a time.
    pub pointer_id: u64,
    /// The item being carried.
    pub item: EntityId,
    /// The capacity-1 inventory staging the item.
    pub inventory: EntityId,
    /// The inventory the item was lifted out of.
    pub origin_inventory: EntityId,
    /// The slot index the item was lifted out of.
    pub origin_index: usize,
}

/// Classification of a requested interaction between a source slot and a
/// destination slot.
#[derive(Clone, Copy, PartialEq, Eq, Structural, Debug)]
pub enum InteractionData {
    /// Source and destination are the same slot of the same inventory.
    SameSlot { inventory: EntityId, index: usize },
    /// Two different slots of the same inventory.
    SameInventory { inventory: EntityId, index_a: usize, index_b: usize },
    /// Slots of two different inventories.
    Different { inventory_a: EntityId, index_a: usize, inventory_b: EntityId, index_b: usize },
}

impl InteractionData {
    /// Classifies the interaction of `(inventory_a, index_a)` with
    /// `(inventory_b, index_b)` into exactly one of the three cases.
    pub fn new(inventory_a: EntityId, index_a: usize, inventory_b: EntityId, index_b: usize) -> (r:
        InteractionData)
        ensures
            r == if inventory_a == inventory_b {
                if index_a == index_b {
                    (InteractionData::SameSlot { inventory: inventory_a, index: index_a })
                } else {
                    (InteractionData::SameInventory { inventory: inventory_a, index_a, index_b })
                }
            } else {
                (InteractionData::Different { inventory_a, index_a, inventory_b, index_b })
            },
    {
        if inventory_a == inventory_b {
            if index_a == index_b {
                InteractionData::SameSlot { inventory: inventory_a, index: index_a }
            } else {
                InteractionData::SameInventory { inventory: inventory_a, index_a, index_b }
            }
        } else {
            InteractionData::Different { inventory_a, index_a, inventory_b, index_b }
        }
    }
}

/// Executes a classified slot interaction: a slot interacting with itself is
/// a no-op that emits nothing, two slots of one inventory are exchanged with
/// one notification, and slots of two inventories are exchanged atomically
/// with one notification per inventory.
pub fn swap(w: &mut World, data: InteractionData) -> (r: Result<(), ModelError>)
    ensures
        match data {
            InteractionData::SameSlot { inventory, index } => r == Ok::<(), ModelError>(())
                && *final(w) == *old(w),
            InteractionData::SameInventory { inventory, index_a, index_b } => match r {
                Ok(()) => if index_a == index_b {
                    *final(w) == *old(w)
                } else {
                    &&& old(w).inv_live(inventory)
                    &&& index_a < old(w).inv_of(inventory)@.len()
                    &&& index_b < old(w).inv_of(inventory)@.len()
                    &&& World::swap_effect(
                        *old(w),
                        *final(w),
                        inventory,
                        index_a as int,
                        index_b as int,
                    )
                    &&& (old(w).unique_owners() ==> final(w).unique_owners())
                },
                Err(err) => {
                    &&& *final(w) == *old(w)
                    &&& index_a != index_b
                    &&& if !old(w).inv_live(inventory) {
                        err == ModelError::EntityNotFound
                    } else {
                        err == ModelError::IndexOutOfBounds && (index_a >= old(w).inv_of(
                            inventory,
                        )@.len() || index_b >= old(w).inv_of(inventory)@.len())
                    }
                },
            },
            InteractionData::Different { inventory_a, index_a, inventory_b, index_b } => match r {
                Ok(()) => if inventory_a == inventory_b {
                    if index_a == index_b {
                        *final(w) == *old(w)
                    } else {
                        World::swap_effect(
                            *old(w),
                            *final(w),
                            inventory_a,
                            index_a as int,
                            index_b as int,
                        ) && (old(w).unique_owners() ==> final(w).unique_owners())
                    }
                } else {
                    &&& old(w).inv_live(inventory_a)
                    &&& old(w).inv_live(inventory_b)
                    &&& index_a < old(w).inv_of(inventory_a)@.len()
                    &&& index_b < old(w).inv_of(inventory_b)@.len()
                    &&& World::swap_across_effect(
                        *old(w),
                        *final(w),
                        inventory_a,
                        index_a as int,
                        inventory_b,
                        index_b as int,
                    )
                    &&& (old(w).unique_owners() ==> final(w).unique_owners())
                },
                Err(err) => {
                    &&& *final(w) == *old(w)
                    &&& if !old(w).inv_live(inventory_a) || !old(w).inv_live(inventory_b) {
                        err == ModelError::EntityNotFound
                    } else {
                        err == ModelError::IndexOutOfBounds && (index_a >= old(w).inv_of(
                            inventory_a,
                        )@.len() || index_b >= old(w).inv_of(inventory_b)@.len())
                    }
                },
            },
        },
{
    match data {
        InteractionData::SameSlot { inventory: _, index: _ } => Ok(()),
        InteractionData::SameInventory { inventory, index_a, index_b } => w.swap(
            inventory,
            index_a,
            index_b,
        ),
        InteractionData::Different { inventory_a, index_a, inventory_b, index_b } => w.swap_across(
            inventory_a,
            index_a,
            inventory_b,
            index_b,
        ),
    }
}

/// What a successful pickup leaves behind: the source slot is empty and its
/// views re-derived; a fresh capacity-1 staging inventory holds the item; a
/// carry bound to the pointer remembers the item and its origin; and the
/// staging inventory got its own inventory and slot views.
pub open spec fn pickup_effect(
    w0: World,
    w1: World,
    pointer_id: u64,
    inventory: EntityId,
    index: int,
    carry: EntityId,
) -> bool {
    let item = w0.inv_of(inventory)@[index].unwrap();
    let cinv = EntityId(w0.inventories@.len() as usize);
    &&& w1.items == w0.items
    &&& carry.0 == w0.carries@.len()
    &&& w1.carries@ == w0.carries@.push(
        Some(
            Carry {
                pointer_id,
                item,
                inventory: cinv,
                origin_inventory: inventory,
                origin_index: index as usize,
            },
        ),
    )
    &&& w1.inventories@.len() == w0.inventories@.len() + 1
    &&& (forall|k: int|
        #![trigger w1.inventories@[k]]
        0 <= k < w0.inventories@.len() && k != inventory.0 ==> w1.inventories@[k]
            == w0.inventories@[k])
    &&& w1.inv_live(inventory)
    &&& w1.inv_of(inventory)@ == w0.inv_of(inventory)@.update(index, None::<EntityId>)
    &&& w1.inv_live(cinv)
    &&& w1.inv_of(cinv)@ == seq![Some(item)]
    &&& w0.log@.push((Event::InventoryChanged { inventory })).is_prefix_of(w1.log@)
    &&& w1.log@[w0.log@.len() as int] == (Event::InventoryChanged { inventory })
    &&& (forall|n: int|
        w0.log@.len() + 1 <= n < w1.log@.len() ==> slot_event_for(
            w0,
            inventory,
            #[trigger] w1.log@[n],
        ))
    &&& w1.views_synced_for(inventory)
    &&& w1.inventory_uis@ == w0.inventory_uis@.push(Some(InventoryUi { data: cinv }))
    &&& w1.slot_uis@.len() == w0.slot_uis@.len() + 1
    &&& w1.slot_uis@[w0.slot_uis@.len() as int] == Some(
        SlotUi { data: Some(item), inventory: cinv, index: 0 },
    )
    &&& (forall|v: int|
        #![trigger w1.slot_uis@[v]]
        0 <= v < w0.slot_uis@.len() && !(w0.slot_live(v) && w0.slot_ui(v).inventory == inventory)
            ==> w1.slot_uis@[v] == w0.slot_uis@[v])
    &&& (forall|t: int|
        #![trigger w1.item_uis@[t]]
        0 <= t < w0.item_uis@.len() ==> w1.item_uis@[t] == w0.item_uis@[t] || w1.item_uis@[t]
            is None)
    &&& (w0.items.resolved_icon(item) is Some ==> w1.item_uis@.len() >= 1 && w1.item_uis@[
        w1.item_uis@.len() - 1
    ] == Some(
        ItemUi {
            item,
            parent: EntityId(w0.slot_uis@.len() as usize),
            icon: w0.items.resolved_icon(item).unwrap(),
            count: w0.items.own_count(item),
        },
    ))
    &&& w1.pointer_busy(pointer_id)
    &&& w1.is_carry_inventory(cinv)
    &&& (w0.unique_owners() ==> w1.unique_owners())
}

/// Lifts the item out of `(inventory, index)` and stages it in a fresh
/// capacity-1 inventory bound to the pointer, notifying the source
/// inventory at once so its views show the empty slot while the item is
/// carried. A pickup is ignored — nothing changes and `None` comes back —
/// when the pointer already carries something, when the source is itself a
/// carry's staging inventory, or when the slot is empty.
pub fn pickup(w: &mut World, pointer_id: u64, inventory: EntityId, index: usize) -> (r: Result<
    Option<EntityId>,
    ModelError,
>)
    ensures
        match r {
            Ok(outcome) => match outcome {
                Some(carry) => {
                    &&& !old(w).pointer_busy(pointer_id)
                    &&& !old(w).is_carry_inventory(inventory)
                    &&& old(w).inv_live(inventory)
                    &&& index < old(w).inv_of(inventory)@.len()
                    &&& old(w).inv_of(inventory)@[index as int] is Some
                    &&& pickup_effect(
                        *old(w),
                        *final(w),
                        pointer_id,
                        inventory,
                        index as int,
                        carry,
                    )
                },
                None => *final(w) == *old(w) && (old(w).pointer_busy(pointer_id) || old(
                    w,
                ).is_carry_inventory(inventory) || (old(w).inv_live(inventory) && index < old(
                    w,
                ).inv_of(inventory)@.len() && old(w).inv_of(inventory)@[index as int] is None)),
            },
            Err(err) => {
                &&& *final(w) == *old(w)
                &&& !old(w).pointer_busy(pointer_id)
                &&& !old(w).is_carry_inventory(inventory)
                &&& if !old(w).inv_live(inventory) {
                    err == ModelError::EntityNotFound
                } else {
                    err == ModelError::IndexOutOfBounds && index >= old(w).inv_of(
                        inventory,
                    )@.len()
                }
            },
        },
{
    if w.find_carry(pointer_id).is_some() {
        return Ok(None);
    }
    if w.carry_inventory(inventory) {
        return Ok(None);
    }
    let content = match w.get(inventory, index) {
        Ok(c) => c,
        Err(e) => {
            return Err(e);
        },
    };
    let item = match content {
        Some(it) => it,
        None => {
            return Ok(None);
        },
    };
    let ghost w0 = *w;
    let taken = w.take(inventory, index);
    proof {
        assert(taken == Ok::<Option<EntityId>, ModelError>(Some(item)));
    }
    let ghost w_took = *w;
    let mut staging = Inventory::new::<1>();
    let put_result = staging.put(0, item);
    proof {
        assert(put_result is Ok);
        assert(staging@ =~= seq![Some(item)]);
    }
    let cinv = w.spawn_inventory(staging);
    let carry_id = EntityId(w.carries.len());
    w.carries.push(
        Some(
            Carry {
                pointer_id,
                item,
                inventory: cinv,
                origin_inventory: inventory,
                origin_index: index,
            },
        ),
    );
    let ghost w_carry = *w;
    let ui_result = spawn_inventory_ui(w, cinv);
    proof {
        assert(ui_result is Ok);
        assert(w.carry_live(carry_id.0 as int) && w.carry_at(carry_id.0 as int).pointer_id
            == pointer_id && w.carry_at(carry_id.0 as int).inventory == cinv);
        assert(w.pointer_busy(pointer_id));
        assert(w.is_carry_inventory(cinv));
        assert(w_carry.slot_uis@.len() == w0.slot_uis@.len());
        assert(w_carry.inv_of(cinv)@[0] == Some(item));
        assert(w.slot_uis@[w_carry.slot_uis@.len() as int + 0] == Some(
            (SlotUi { data: w_carry.inv_of(cinv)@[0], inventory: cinv, index: 0 as usize }),
        ));
        assert(w.slot_uis@[w0.slot_uis@.len() as int] == Some(
            SlotUi { data: Some(item), inventory: cinv, index: 0 },
        ));
        assert forall|v: int|
            0 <= v < w0.slot_uis@.len() && !(w0.slot_live(v) && w0.slot_ui(v).inventory
                == inventory) implies #[trigger] w.slot_uis@[v] == w0.slot_uis@[v] by {
            assert(w_took.slot_uis@[v] == w0.slot_uis@[v]);
        }
        assert forall|view: int|
            w.slot_live(view) && (#[trigger] w.slot_ui(view)).inventory == inventory
                && w.inv_live(inventory) && w.slot_ui(view).index < w.inv_of(
                inventory,
            )@.len() implies w.slot_ui(view).data == w.inv_of(inventory)@[w.slot_ui(
                view,
            ).index as int] by {
            if view < w0.slot_uis@.len() {
                assert(w.slot_uis@[view] == w_took.slot_uis@[view]);
                assert(w_took.slot_ui(view).data == w_took.inv_of(inventory)@[w_took.slot_ui(
                    view,
                ).index as int]);
            }
        }
        assert(w.views_synced_for(inventory));
        if w0.unique_owners() {
            assert(w0.holds(inventory.0 as int, index as int, item));
            World::lemma_unique_after_stage(w0, *w, inventory, index as int, item);
        }
    }
    Ok(Some(carry_id))
}

/// The outcome of a drop request.
#[derive(Clone, Copy, PartialEq, Eq, Structural, Debug)]
pub enum DropOutcome {
    /// The carried item was placed into the destination slot.
    Placed,
    /// The destination slot was occupied: the carried item went back to its
    /// original slot.
    Rejected,
    /// There was nothing to drop, or the destination was a carry itself.
    Ignored,
}

/// What committing a carried item into a slot leaves behind: the target
/// slot holds the item that sat in the carry's staging inventory, the carry
/// and its staging inventory are gone, every other inventory is untouched,
/// the target inventory's views are in sync, and both touched inventories
/// were notified.
pub open spec fn release_effect(
    w0: World,
    w1: World,
    c: int,
    target_inv: EntityId,
    target_idx: int,
) -> bool {
    let carry = w0.carry_at(c);
    let cinv = carry.inventory;
    let carried = w0.inv_of(cinv)@[0];
    &&& w1.items == w0.items
    &&& w1.carries@.len() == w0.carries@.len()
    &&& w1.carries@[c] is None
    &&& (forall|c2: int|
        #![trigger w1.carries@[c2]]
        0 <= c2 < w0.carries@.len() && c2 != c ==> w1.carries@[c2] == w0.carries@[c2])
    &&& !w1.inv_live(cinv)
    &&& w1.inventories@.len() == w0.inventories@.len()
    &&& (forall|k: int|
        #![trigger w1.inventories@[k]]
        0 <= k < w0.inventories@.len() && k != target_inv.0 && k != cinv.0 ==> w1.inventories@[k]
            == w0.inventories@[k])
    &&& w1.inv_live(target_inv)
    &&& w1.inv_of(target_inv)@ == w0.inv_of(target_inv)@.update(target_idx, carried)
    &&& w1.views_synced_for(target_inv)
    &&& w0.log@.is_prefix_of(w1.log@)
    &&& w1.log@.contains((Event::InventoryChanged { inventory: target_inv }))
    &&& w1.log@.contains((Event::InventoryChanged { inventory: cinv }))
    &&& w0.log@.len() + 2 <= w1.log@.len()
    &&& w1.log@[w0.log@.len() as int] == (Event::InventoryChanged { inventory: cinv })
    &&& (exists|p: int|
        w0.log@.len() < p < w1.log@.len() && #[trigger] w1.log@[p] == (Event::InventoryChanged {
            inventory: target_inv,
        }) && (forall|n: int|
            w0.log@.len() < n < w1.log@.len() && n != p ==> (#[trigger] w1.log@[n])
                is SlotChanged))
    &&& w1.slot_uis@.len() == w0.slot_uis@.len()
    &&& (forall|v: int|
        #![trigger w1.slot_uis@[v]]
        0 <= v < w0.slot_uis@.len() ==> if w0.slot_live(v) && w0.slot_ui(v).inventory == cinv {
            w1.slot_uis@[v] is None
        } else if !(w0.slot_live(v) && w0.slot_ui(v).inventory == target_inv) {
            w1.slot_uis@[v] == w0.slot_uis@[v]
        } else {
            true
        })
    &&& w1.inventory_uis@.len() == w0.inventory_uis@.len()
    &&& (forall|u: int|
        #![trigger w1.inventory_uis@[u]]
        0 <= u < w0.inventory_uis@.len() ==> w1.inventory_uis@[u] == if w0.inv_ui_live(u)
            && w0.inv_ui(u).data == cinv {
            None
        } else {
            w0.inventory_uis@[u]
        })
    &&& (forall|t: int|
        #![trigger w0.item_uis@[t]]
        0 <= t < w0.item_uis@.len() && w0.item_ui_live(t) && w0.slot_live(
            w0.item_ui(t).parent.0 as int,
        ) && w0.slot_ui(w0.item_ui(t).parent.0 as int).inventory == cinv ==> t
            < w1.item_uis@.len() && w1.item_uis@[t] is None)
    &&& (w0.unique_owners() ==> w1.unique_owners())
}

/// Moves the item out of the carry's staging inventory into the valid,
/// empty slot `(target_inv, target_idx)`, and despawns the carry once its
/// staging inventory has emptied. Shared by placing, rejecting and
/// cancelling.
fn release_carry(w: &mut World, c: usize, target_inv: EntityId, target_idx: usize) -> (r: Result<
    (),
    ModelError,
>)
    requires
        old(w).carry_live(c as int),
        old(w).inv_live(old(w).carry_at(c as int).inventory),
        old(w).inv_of(old(w).carry_at(c as int).inventory)@.len() >= 1,
        old(w).inv_of(old(w).carry_at(c as int).inventory)@[0] is Some,
        old(w).carry_at(c as int).inventory != target_inv,
        old(w).inv_live(target_inv),
        target_idx < old(w).inv_of(target_inv)@.len(),
        old(w).inv_of(target_inv)@[target_idx as int] is None,
    ensures
        r is Ok,
        release_effect(*old(w), *final(w), c as int, target_inv, target_idx as int),
{
    let cinv = w.carries[c].as_ref().unwrap().inventory;
    let ghost w0 = *w;
    let swapped = w.swap_across(cinv, 0, target_inv, target_idx);
    proof {
        assert(swapped is Ok);
    }
    let ghost w_mid = *w;
    let despawned = carry_despawn(w, EntityId(c));
    proof {
        assert(w_mid.carry_live(c as int) && w_mid.carry_at(c as int) == w0.carry_at(c as int));
        assert(w_mid.inv_of(cinv)@[0] is None);
        assert(despawned);
        let removed = crate::views::carry_removed(w_mid, *w, c as int);
        assert(removed);
        assert(!w.inv_live(cinv));
        assert(w.inv_of(target_inv)@ == w0.inv_of(target_inv)@.update(
            target_idx as int,
            w0.inv_of(cinv)@[0],
        ));
        let p = choose|p: int|
            w0.log@.len() < p < w_mid.log@.len() && #[trigger] w_mid.log@[p]
                == (Event::InventoryChanged { inventory: target_inv }) && (forall|n: int|
                w0.log@.len() < n < w_mid.log@.len() && n != p ==> slot_event_for(
                    w0,
                    cinv,
                    #[trigger] w_mid.log@[n],
                ) || slot_event_for(w0, target_inv, w_mid.log@[n]));
        assert(w.log@[p] == (Event::InventoryChanged { inventory: target_inv }));
        assert(w.log@.contains((Event::InventoryChanged { inventory: target_inv })));
        assert(w.log@[w0.log@.len() as int] == (Event::InventoryChanged { inventory: cinv }));
        assert(w.log@.contains((Event::InventoryChanged { inventory: cinv })));
        // besides the two notifications, only slot events were recorded
        assert forall|n: int|
            w0.log@.len() < n < w.log@.len() && n != p implies (#[trigger] w.log@[n])
            is SlotChanged by {
            assert(slot_event_for(w0, cinv, w_mid.log@[n]) || slot_event_for(
                w0,
                target_inv,
                w_mid.log@[n],
            ));
        }
        assert(exists|q: int|
            w0.log@.len() < q < w.log@.len() && #[trigger] w.log@[q] == (Event::InventoryChanged {
                inventory: target_inv,
            }) && (forall|n: int|
                w0.log@.len() < n < w.log@.len() && n != q ==> (#[trigger] w.log@[n])
                    is SlotChanged));
        // the carry's slot views are gone; views of other inventories are
        // untouched
        assert forall|v: int| 0 <= v < w0.slot_uis@.len() implies (#[trigger] w.slot_uis@[v])
            == if w0.slot_live(v) && w0.slot_ui(v).inventory == cinv {
            None
        } else if !(w0.slot_live(v) && w0.slot_ui(v).inventory == target_inv) {
            w0.slot_uis@[v]
        } else {
            w.slot_uis@[v]
        } by {
            if w0.slot_live(v) && w0.slot_ui(v).inventory == cinv {
                assert(w_mid.slot_live(v) && w_mid.slot_ui(v).inventory == cinv);
            } else if !(w0.slot_live(v) && w0.slot_ui(v).inventory == target_inv) {
                assert(w_mid.slot_uis@[v] == w0.slot_uis@[v]);
            }
        }
        // the carry's inventory view is gone; the others are untouched
        assert forall|u: int| 0 <= u < w0.inventory_uis@.len() implies (
        #[trigger] w.inventory_uis@[u]) == if w0.inv_ui_live(u) && w0.inv_ui(u).data == cinv {
            None
        } else {
            w0.inventory_uis@[u]
        } by {
            assert(w_mid.inventory_uis@[u] == w0.inventory_uis@[u]);
        }
        // the item views that sat under the carry's slot views are gone
        assert forall|t: int|
            0 <= t < w0.item_uis@.len() && w0.item_ui_live(t) && w0.slot_live(
                (#[trigger] w0.item_uis@[t]).unwrap().parent.0 as int,
            ) && w0.slot_ui(w0.item_ui(t).parent.0 as int).inventory == cinv implies t
            < w.item_uis@.len() && w.item_uis@[t] is None by {
            if w_mid.item_uis@[t] == w0.item_uis@[t] {
                let parent = w0.item_ui(t).parent;
                assert(w_mid.slot_live(parent.0 as int) && w_mid.slot_ui(parent.0 as int).inventory
                    == cinv);
            } else {
                assert(w_mid.item_uis@[t] is None);
            }
        }
        assert forall|view: int|
            w.slot_live(view) && (#[trigger] w.slot_ui(view)).inventory == target_inv
                && w.inv_live(target_inv) && w.slot_ui(view).index < w.inv_of(
                target_inv,
            )@.len() implies w.slot_ui(view).data == w.inv_of(target_inv)@[w.slot_ui(
                view,
            ).index as int] by {
            assert(w.slot_uis@[view] == w_mid.slot_uis@[view]);
            assert(w_mid.slot_ui(view).data == w_mid.inv_of(target_inv)@[w_mid.slot_ui(
                view,
            ).index as int]);
        }
        assert(w.views_synced_for(target_inv));
        if w0.unique_owners() {
            assert(w_mid.unique_owners());
            assert forall|pp: int, qq: int, x: EntityId| #[trigger]
                w.holds(pp, qq, x) implies w_mid.holds(pp, qq, x) by {
                assert(w.inventories@[pp] == w_mid.inventories@.update(
                    cinv.0 as int,
                    None::<Inventory>,
                )[pp]);
            }
            World::lemma_unique_subset(w_mid, *w);
        }
    }
    Ok(())
}

/// The carry's staging inventory still exists and holds the staged item in
/// its single slot, so the carry can be committed or returned.
pub open spec fn carry_usable(w: World, c: int) -> bool {
    let cinv = w.carry_at(c).inventory;
    &&& w.inv_live(cinv)
    &&& w.inv_of(cinv)@.len() >= 1
    &&& w.inv_of(cinv)@[0] is Some
}

/// Drops the item carried by `pointer_id` onto `(dst_inv, dst_idx)`. An
/// empty destination receives the item and the carry is destroyed. An
/// occupied destination rejects the drop: the item returns to its original
/// slot instead (no merging policy is defined) and the destination keeps its
/// content. The request is ignored when the pointer carries nothing or when
/// the destination is itself a carry's staging inventory. Every error leaves
/// the world unchanged.
pub fn drop_item(w: &mut World, pointer_id: u64, dst_inv: EntityId, dst_idx: usize) -> (r: Result<
    DropOutcome,
    ModelError,
>)
    ensures
        match r {
            Ok(outcome) => match outcome {
                DropOutcome::Placed => {
                    &&& old(w).inv_live(dst_inv)
                    &&& dst_idx < old(w).inv_of(dst_inv)@.len()
                    &&& old(w).inv_of(dst_inv)@[dst_idx as int] is None
                    &&& !old(w).is_carry_inventory(dst_inv)
                    &&& exists|c: int|
                        #![trigger old(w).carry_at(c)]
                        old(w).carry_live(c) && old(w).carry_at(c).pointer_id == pointer_id
                            && release_effect(*old(w), *final(w), c, dst_inv, dst_idx as int)
                },
                DropOutcome::Rejected => {
                    &&& old(w).inv_live(dst_inv)
                    &&& dst_idx < old(w).inv_of(dst_inv)@.len()
                    &&& old(w).inv_of(dst_inv)@[dst_idx as int] is Some
                    &&& !old(w).is_carry_inventory(dst_inv)
                    &&& final(w).inv_live(dst_inv)
                    &&& final(w).inv_of(dst_inv)@[dst_idx as int] == old(w).inv_of(
                        dst_inv,
                    )@[dst_idx as int]
                    &&& exists|c: int|
                        #![trigger old(w).carry_at(c)]
                        old(w).carry_live(c) && old(w).carry_at(c).pointer_id == pointer_id
                            && old(w).inv_of(old(w).carry_at(c).origin_inventory)@[old(
                            w,
                        ).carry_at(c).origin_index as int] is None && release_effect(
                            *old(w),
                            *final(w),
                            c,
                            old(w).carry_at(c).origin_inventory,
                            old(w).carry_at(c).origin_index as int,
                        )
                },
                DropOutcome::Ignored => *final(w) == *old(w) && (!old(w).pointer_busy(pointer_id)
                    || old(w).is_carry_inventory(dst_inv)),
            },
            Err(err) => {
                &&& *final(w) == *old(w)
                &&& old(w).pointer_busy(pointer_id)
                &&& !old(w).is_carry_inventory(dst_inv)
                &&& if !old(w).inv_live(dst_inv) {
                    err == ModelError::EntityNotFound
                } else if dst_idx >= old(w).inv_of(dst_inv)@.len() {
                    err == ModelError::IndexOutOfBounds
                } else {
                    exists|c: int|
                        #![trigger old(w).carry_at(c)]
                        old(w).carry_live(c) && old(w).carry_at(c).pointer_id == pointer_id && {
                            let carry = old(w).carry_at(c);
                            if !carry_usable(*old(w), c) {
                                err == ModelError::EntityNotFound
                            } else {
                                &&& old(w).inv_of(dst_inv)@[dst_idx as int] is Some
                                &&& if carry.origin_inventory == carry.inventory || !old(
                                    w,
                                ).inv_live(carry.origin_inventory) {
                                    err == ModelError::EntityNotFound
                                } else if carry.origin_index >= old(w).inv_of(
                                    carry.origin_inventory,
                                )@.len() {
                                    err == ModelError::IndexOutOfBounds
                                } else {
                                    err == ModelError::SlotOccupied && old(w).inv_of(
                                        carry.origin_inventory,
                                    )@[carry.origin_index as int] is Some
                                }
                            }
                        }
                }
            },
        },
{
    let c = match w.find_carry(pointer_id) {
        Some(c) => c,
        None => {
            return Ok(DropOutcome::Ignored);
        },
    };
    if w.carry_inventory(dst_inv) {
        return Ok(DropOutcome::Ignored);
    }
    let dst_content = match w.get(dst_inv, dst_idx) {
        Ok(content) => content,
        Err(e) => {
            return Err(e);
        },
    };
    let carry = *w.carries[c].as_ref().unwrap();
    let usable = w.inventory_live(carry.inventory) && match w.get(carry.inventory, 0) {
        Ok(content) => content.is_some(),
        Err(_) => false,
    };
    if !usable {
        return Err(ModelError::EntityNotFound);
    }
    proof {
        assert(old(w).carry_at(c as int).inventory != dst_inv);
    }
    match dst_content {
        None => {
            let released = release_carry(w, c, dst_inv, dst_idx);
            proof {
                assert(released is Ok);
            }
            Ok(DropOutcome::Placed)
        },
        Some(_) => {
            if carry.origin_inventory == carry.inventory {
                return Err(ModelError::EntityNotFound);
            }
            let origin_content = match w.get(carry.origin_inventory, carry.origin_index) {
                Ok(content) => content,
                Err(e) => {
                    return Err(e);
                },
            };
            if origin_content.is_some() {
                return Err(ModelError::SlotOccupied);
            }
            let ghost w0 = *w;
            let released = release_carry(w, c, carry.origin_inventory, carry.origin_index);
            proof {
                assert(released is Ok);
                if dst_inv == carry.origin_inventory {
                    assert(dst_idx != carry.origin_index);
                    assert(w.inv_of(dst_inv)@[dst_idx as int] == w0.inv_of(
                        dst_inv,
                    )@[dst_idx as int]);
                } else {
                    assert(w.inventories@[dst_inv.0 as int] == w0.inventories@[dst_inv.0 as int]);
                }
            }
            Ok(DropOutcome::Rejected)
        },
    }
}

/// Returns the item carried by `pointer_id` to its original slot and
/// destroys the carry: the required cleanup when the originating pointer
/// disconnects before a drop. A pointer that carries nothing is a no-op.
/// Every error leaves the world unchanged.
pub fn cancel_carry(w: &mut World, pointer_id: u64) -> (r: Result<bool, ModelError>)
    ensures
        match r {
            Ok(cancelled) => if cancelled {
                exists|c: int|
                    #![trigger old(w).carry_at(c)]
                    old(w).carry_live(c) && old(w).carry_at(c).pointer_id == pointer_id && old(
                        w,
                    ).inv_of(old(w).carry_at(c).origin_inventory)@[old(w).carry_at(
                        c,
                    ).origin_index as int] is None && release_effect(
                        *old(w),
                        *final(w),
                        c,
                        old(w).carry_at(c).origin_inventory,
                        old(w).carry_at(c).origin_index as int,
                    )
            } else {
                *final(w) == *old(w) && !old(w).pointer_busy(pointer_id)
            },
            Err(err) => {
                &&& *final(w) == *old(w)
                &&& old(w).pointer_busy(pointer_id)
                &&& exists|c: int|
                    #![trigger old(w).carry_at(c)]
                    old(w).carry_live(c) && old(w).carry_at(c).pointer_id == pointer_id && {
                        let carry = old(w).carry_at(c);
                        if !carry_usable(*old(w), c) {
                            err == ModelError::EntityNotFound
                        } else if carry.origin_inventory == carry.inventory || !old(w).inv_live(
                            carry.origin_inventory,
                        ) {
                            err == ModelError::EntityNotFound
                        } else if carry.origin_index >= old(w).inv_of(
                            carry.origin_inventory,
                        )@.len() {
                            err == ModelError::IndexOutOfBounds
                        } else {
                            err == ModelError::SlotOccupied && old(w).inv_of(
                                carry.origin_inventory,
                            )@[carry.origin_index as int] is Some
                        }
                    }
            },
        },
{
    let c = match w.find_carry(pointer_id) {
        Some(c) => c,
        None => {
            return Ok(false);
        },
    };
    let carry = *w.carries[c].as_ref().unwrap();
    let usable = w.inventory_live(carry.inventory) && match w.get(carry.inventory, 0) {
        Ok(content) => content.is_some(),
        Err(_) => false,
    };
    if !usable {
        return Err(ModelError::EntityNotFound);
    }
    if carry.origin_inventory == carry.inventory {
        return Err(ModelError::EntityNotFound);
    }
    let origin_content = match w.get(carry.origin_inventory, carry.origin_index) {
        Ok(content) => content,
        Err(e) => {
            return Err(e);
        },
    };
    if origin_content.is_some() {
        return Err(ModelError::SlotOccupied);
    }
    let released = release_carry(w, c, carry.origin_inventory, carry.origin_index);
    proof {
        assert(released is Ok);
    }
    Ok(true)
}

/// The pickup/drop round trip: lifting an item out of a slot and dropping
/// it back onto the very slot it came from restores the inventory to its
/// state before the pickup, and the carry is destroyed together with its
/// staging inventory.
pub proof fn lemma_pickup_drop_round_trip(
    w0: World,
    w1: World,
    w2: World,
    pointer_id: u64,
    inventory: EntityId,
    index: int,
    carry: EntityId,
)
    requires
        w0.inv_live(inventory),
        0 <= index < w0.inv_of(inventory)@.len(),
        w0.inv_of(inventory)@[index] is Some,
        pickup_effect(w0, w1, pointer_id, inventory, index, carry),
        release_effect(w1, w2, carry.0 as int, inventory, index),
    ensures
        w2.inv_live(inventory),
        w2.inv_of(inventory)@ == w0.inv_of(inventory)@,
        w2.carries@[carry.0 as int] is None,
        !w2.inv_live(EntityId(w0.inventories@.len() as usize)),
{
    let item = w0.inv_of(inventory)@[index].unwrap();
    let cinv = EntityId(w0.inventories@.len() as usize);
    assert(w1.carry_at(carry.0 as int) == (Carry {
        pointer_id,
        item,
        inventory: cinv,
        origin_inventory: inventory,
        origin_index: index as usize,
    }));
    assert(w1.inv_of(cinv)@[0] == Some(item));
    assert(w2.inv_of(inventory)@ =~= w0.inv_of(inventory)@);
}

/// Watches a carry after its staging inventory was touched: a carry whose
/// staging inventory has emptied (or vanished) is despawned together with
/// that inventory and its views. Mirrors the observer that completes every
/// drop: the staged item has moved on, so the carry has served its purpose.
pub fn carry_despawn(w: &mut World, carry: EntityId) -> (despawned: bool)
    ensures
        !despawned ==> *final(w) == *old(w),
        despawned ==> old(w).carry_live(carry.0 as int) && crate::views::carry_removed(
            *old(w),
            *final(w),
            carry.0 as int,
        ),
        despawned == (old(w).carry_live(carry.0 as int) && {
            let cinv = old(w).carry_at(carry.0 as int).inventory;
            !old(w).inv_live(cinv) || old(w).inv_of(cinv)@.len() == 0 || old(w).inv_of(
                cinv,
            )@[0] is None
        }),
{
    if carry.0 >= w.carries.len() || w.carries[carry.0].is_none() {
        return false;
    }
    let cinv = w.carries[carry.0].as_ref().unwrap().inventory;
    let emptied = match w.get(cinv, 0) {
        Ok(content) => content.is_none(),
        Err(_) => true,
    };
    if !emptied {
        return false;
    }
    despawn_carry(w, carry);
    true
}

} // verus!
