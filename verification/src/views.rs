//! Presentation mirrors: view entities caching the last-observed state of an
//! inventory, of one slot, or of one item, plus their lifecycle.

use vstd::prelude::*;

use crate::carry::Carry;
use crate::inventory::Inventory;
use crate::items::{AttrKind, AttrValue, Items};
use crate::world::World;
use crate::{EntityId, ModelError};

verus! {

/// View entity mirroring a whole inventory.
#[derive(Clone, Copy, PartialEq, Eq, Structural, Debug)]
pub struct InventoryUi {
    /// The inventory entity this view represents.
    pub data: EntityId,
}

/// View entity mirroring one slot of an inventory.
#[derive(Clone, Copy, PartialEq, Eq, Debug)]
pub struct SlotUi {
    /// Cached content: the slot's item as last synchronised.
    pub data: Option<EntityId>,
    /// The inventory this slot view is bound to.
    pub inventory: EntityId,
    /// The slot index this view represents.
    pub index: usize,
}

/// View entity mirroring one item inside a slot view, with the presentation
/// data resolved from the item's template chain.
#[derive(PartialEq, Eq, Debug)]
pub struct ItemUi {
    /// The item entity this view represents.
    pub item: EntityId,
    /// The slot view this item view sits under.
    pub parent: EntityId,
    /// The icon reference resolved through the template chain.
    pub icon: String,
    /// The item's own stack count, if any.
    pub count: Option<u32>,
}

/// Builds an item view for `item` under the slot view `parent`, resolving
/// the icon through the template chain and attaching the item's own stack
/// count. An item whose icon cannot be resolved gets no view: such an error
/// is local to this view and must not abort a running cascade.
pub fn spawn_item(w: &mut World, parent: EntityId, item: EntityId) -> (r: Option<EntityId>)
    ensures
        final(w).items == old(w).items,
        final(w).inventories == old(w).inventories,
        final(w).inventory_uis == old(w).inventory_uis,
        final(w).slot_uis == old(w).slot_uis,
        final(w).carries == old(w).carries,
        final(w).log == old(w).log,
        match r {
            Some(e) => {
                &&& old(w).items.resolved_icon(item) is Some
                &&& e.0 == old(w).item_uis@.len()
                &&& final(w).item_uis@ == old(w).item_uis@.push(
                    Some(
                        ItemUi {
                            item,
                            parent,
                            icon: old(w).items.resolved_icon(item).unwrap(),
                            count: old(w).items.own_count(item),
                        },
                    ),
                )
            },
            None => {
                &&& old(w).items.resolved_icon(item) is None
                &&& final(w).item_uis == old(w).item_uis
            },
        },
{
    let icon = match w.items.extended_get(item, AttrKind::Icon) {
        Ok(Some(AttrValue::Icon(s))) => s,
        Ok(Some(_)) => {
            proof {
                assert(false);
            }
            return None;
        },
        Ok(None) => {
            return None;
        },
        Err(_) => {
            return None;
        },
    };
    let count = match w.items.get(item, AttrKind::Count) {
        Ok(Some(AttrValue::Count(c))) => Some(c),
        Ok(Some(_)) => {
            proof {
                assert(false);
            }
            None
        },
        Ok(None) => None,
        Err(_) => None,
    };
    let e = EntityId(w.item_uis.len());
    w.item_uis.push(Some(ItemUi { item, parent, icon, count }));
    Some(e)
}

/// The item view that showing `item` under the slot view `parent` builds,
/// when the item's icon resolves: `None` stands for no view (empty slot, or
/// an icon that does not resolve).
pub open spec fn built_item_view(items: Items, parent: EntityId, content: Option<EntityId>) -> Option<ItemUi> {
    match content {
        Some(item) => match items.resolved_icon(item) {
            Some(icon) => Some(ItemUi { item, parent, icon, count: items.own_count(item) }),
            None => None,
        },
        None => None,
    }
}

/// Builds a slot view with the given binding and cached content, and builds
/// an item view under it exactly when there is content whose icon resolves.
pub fn spawn_slot_ui(w: &mut World, slot: SlotUi) -> (v: EntityId)
    ensures
        final(w).items == old(w).items,
        final(w).inventories == old(w).inventories,
        final(w).inventory_uis == old(w).inventory_uis,
        final(w).carries == old(w).carries,
        final(w).log == old(w).log,
        v.0 == old(w).slot_uis@.len(),
        final(w).slot_uis@ == old(w).slot_uis@.push(Some(slot)),
        final(w).item_uis@ == match built_item_view(old(w).items, v, slot.data) {
            Some(iu) => old(w).item_uis@.push(Some(iu)),
            None => old(w).item_uis@,
        },
{
    let v = EntityId(w.slot_uis.len());
    w.slot_uis.push(Some(slot));
    match slot.data {
        Some(item) => {
            let _spawned = spawn_item(w, v, item);
        },
        None => {},
    }
    v
}

/// The item views that mirroring slots `0 .. upto` of an inventory with
/// these contents builds, in slot order, given that the inventory's slot
/// views are the rows starting at `first_view`: one view per slot whose
/// item's icon resolves, and none for the other slots.
pub open spec fn built_item_views(
    items: Items,
    first_view: int,
    contents: Seq<Option<EntityId>>,
    upto: int,
) -> Seq<Option<ItemUi>>
    decreases upto,
{
    if upto <= 0 {
        Seq::empty()
    } else {
        built_item_views(items, first_view, contents, upto - 1) + match built_item_view(
            items,
            EntityId((first_view + upto - 1) as usize),
            contents[upto - 1],
        ) {
            Some(iu) => seq![Some(iu)],
            None => Seq::empty(),
        }
    }
}

/// Builds an inventory view for `inventory` with one slot view per slot,
/// each caching the inventory's current content at its index, and an item
/// view under exactly every slot whose item's icon resolves.
pub fn spawn_inventory_ui(w: &mut World, inventory: EntityId) -> (r: Result<EntityId, ModelError>)
    ensures
        match r {
            Ok(u) => {
                &&& old(w).inv_live(inventory)
                &&& final(w).items == old(w).items
                &&& final(w).inventories == old(w).inventories
                &&& final(w).carries == old(w).carries
                &&& final(w).log == old(w).log
                &&& u.0 == old(w).inventory_uis@.len()
                &&& final(w).inventory_uis@ == old(w).inventory_uis@.push(
                    Some(InventoryUi { data: inventory }),
                )
                &&& final(w).slot_uis@.len() == old(w).slot_uis@.len() + old(w).inv_of(
                    inventory,
                )@.len()
                &&& forall|k: int|
                    0 <= k < old(w).slot_uis@.len() ==> final(w).slot_uis@[k] == old(
                        w,
                    ).slot_uis@[k]
                &&& forall|i: int|
                    0 <= i < old(w).inv_of(inventory)@.len() ==> final(w).slot_uis@[old(
                        w,
                    ).slot_uis@.len() + i] == Some(
                        SlotUi {
                            data: old(w).inv_of(inventory)@[i],
                            inventory,
                            index: i as usize,
                        },
                    )
                &&& final(w).item_uis@ == old(w).item_uis@ + built_item_views(
                    old(w).items,
                    old(w).slot_uis@.len() as int,
                    old(w).inv_of(inventory)@,
                    old(w).inv_of(inventory)@.len() as int,
                )
            },
            Err(err) => {
                &&& err == ModelError::EntityNotFound
                &&& !old(w).inv_live(inventory)
                &&& *final(w) == *old(w)
            },
        },
{
    if !w.inventory_live(inventory) {
        return Err(ModelError::EntityNotFound);
    }
    let u = EntityId(w.inventory_uis.len());
    w.inventory_uis.push(Some(InventoryUi { data: inventory }));
    let size = w.inventories[inventory.0].as_ref().unwrap().len();
    let ghost slots_base = w.slot_uis@.len();
    let mut i: usize = 0;
    while i < size
        invariant
            i <= size,
            old(w).inv_live(inventory),
            size == old(w).inv_of(inventory)@.len(),
            w.items == old(w).items,
            w.inventories == old(w).inventories,
            w.inventory_uis@ == old(w).inventory_uis@.push(Some(InventoryUi { data: inventory })),
            w.carries == old(w).carries,
            w.log == old(w).log,
            slots_base == old(w).slot_uis@.len(),
            w.slot_uis@.len() == slots_base + i,
            forall|k: int| 0 <= k < slots_base ==> w.slot_uis@[k] == old(w).slot_uis@[k],
            forall|k: int|
                0 <= k < i ==> w.slot_uis@[slots_base + k] == Some(
                    SlotUi {
                        data: old(w).inv_of(inventory)@[k],
                        inventory,
                        index: k as usize,
                    },
                ),
            w.item_uis@ == old(w).item_uis@ + built_item_views(
                old(w).items,
                old(w).slot_uis@.len() as int,
                old(w).inv_of(inventory)@,
                i as int,
            ),
        decreases size - i,
    {
        let content = w.inventories[inventory.0].as_ref().unwrap().0[i];
        let ghost w_iter = *w;
        let _v = spawn_slot_ui(w, SlotUi { data: content, inventory, index: i });
        proof {
            let items0 = old(w).items;
            let base = old(w).slot_uis@.len() as int;
            let contents0 = old(w).inv_of(inventory)@;
            let built = built_item_view(items0, EntityId((base + i) as usize), contents0[i as int]);
            assert(built_item_views(items0, base, contents0, i + 1) == built_item_views(
                items0,
                base,
                contents0,
                i as int,
            ) + match built {
                Some(iu) => seq![Some(iu)],
                None => Seq::<Option<ItemUi>>::empty(),
            });
            match built {
                Some(iu) => {
                    assert(w.item_uis@ =~= old(w).item_uis@ + built_item_views(
                        items0,
                        base,
                        contents0,
                        i + 1,
                    ));
                },
                None => {
                    assert(w.item_uis@ =~= old(w).item_uis@ + built_item_views(
                        items0,
                        base,
                        contents0,
                        i + 1,
                    ));
                },
            }
        }
        i = i + 1;
    }
    Ok(u)
}

/// What removing the carry at row `carry` leaves behind: the carry record
/// and its staging inventory are gone, and so is every view bound to that
/// inventory — the inventory view, its slot views, and the item views under
/// them. Everything else, the items and the log included, is untouched.
pub open spec fn carry_removed(w0: World, w1: World, carry: int) -> bool {
    let cinv = w0.carry_at(carry).inventory;
    &&& w1.items == w0.items
    &&& w1.log == w0.log
    &&& w1.carries@ == w0.carries@.update(carry, None::<Carry>)
    &&& w1.inventories@ == if cinv.0 < w0.inventories@.len() {
        w0.inventories@.update(cinv.0 as int, None::<Inventory>)
    } else {
        w0.inventories@
    }
    &&& w1.inventory_uis@.len() == w0.inventory_uis@.len()
    &&& (forall|u: int|
        #![trigger w0.inventory_uis@[u]]
        0 <= u < w0.inventory_uis@.len() ==> w1.inventory_uis@[u] == if w0.inv_ui_live(u)
            && w0.inv_ui(u).data == cinv {
            None
        } else {
            w0.inventory_uis@[u]
        })
    &&& w1.slot_uis@.len() == w0.slot_uis@.len()
    &&& (forall|v: int|
        #![trigger w0.slot_uis@[v]]
        0 <= v < w0.slot_uis@.len() ==> w1.slot_uis@[v] == if w0.slot_live(v) && w0.slot_ui(
            v,
        ).inventory == cinv {
            None
        } else {
            w0.slot_uis@[v]
        })
    &&& w1.item_uis@.len() == w0.item_uis@.len()
    &&& (forall|t: int|
        #![trigger w0.item_uis@[t]]
        0 <= t < w0.item_uis@.len() ==> w1.item_uis@[t] == if w0.item_ui_live(t) && w0.slot_live(
            w0.item_ui(t).parent.0 as int,
        ) && w0.slot_ui(w0.item_ui(t).parent.0 as int).inventory == cinv {
            None
        } else {
            w0.item_uis@[t]
        })
}

/// Removes a carry together with its staging inventory and every view bound
/// to that inventory: the inventory view, its slot views, and the item views
/// under those slot views. A dead carry identifier is a no-op.
pub fn despawn_carry(w: &mut World, carry: EntityId)
    ensures
        !old(w).carry_live(carry.0 as int) ==> *final(w) == *old(w),
        old(w).carry_live(carry.0 as int) ==> carry_removed(*old(w), *final(w), carry.0 as int),
{
    if carry.0 >= w.carries.len() || w.carries[carry.0].is_none() {
        return ;
    }
    let cinv = w.carries[carry.0].as_ref().unwrap().inventory;
    w.carries[carry.0] = None;
    if cinv.0 < w.inventories.len() {
        w.inventories[cinv.0] = None;
    }
    // Item views under this inventory's slot views go first, while the slot
    // views can still be consulted.
    let mut t: usize = 0;
    while t < w.item_uis.len()
        invariant
            t <= w.item_uis@.len(),
            w.items == old(w).items,
            w.log == old(w).log,
            w.inventory_uis == old(w).inventory_uis,
            w.slot_uis == old(w).slot_uis,
            w.carries@ == old(w).carries@.update(carry.0 as int, None::<Carry>),
            w.inventories@ == if cinv.0 < old(w).inventories@.len() {
                old(w).inventories@.update(cinv.0 as int, None::<Inventory>)
            } else {
                old(w).inventories@
            },
            w.item_uis@.len() == old(w).item_uis@.len(),
            forall|k: int|
                #![trigger old(w).item_uis@[k]]
                0 <= k < t ==> w.item_uis@[k] == if old(w).item_ui_live(k) && old(w).slot_live(
                    old(w).item_ui(k).parent.0 as int,
                ) && old(w).slot_ui(old(w).item_ui(k).parent.0 as int).inventory == cinv {
                    None
                } else {
                    old(w).item_uis@[k]
                },
            forall|k: int| t <= k < w.item_uis@.len() ==> w.item_uis@[k] == old(w).item_uis@[k],
        decreases w.item_uis@.len() - t,
    {
        let parent_opt = match &w.item_uis[t] {
            Some(iu) => Some(iu.parent),
            None => None,
        };
        match parent_opt {
            Some(p) => {
                if p.0 < w.slot_uis.len() {
                    let bound = match &w.slot_uis[p.0] {
                        Some(su) => su.inventory == cinv,
                        None => false,
                    };
                    if bound {
                        w.item_uis[t] = None;
                    }
                }
            },
            None => {},
        }
        t = t + 1;
    }
    // Then the slot views of this inventory.
    let mut v: usize = 0;
    while v < w.slot_uis.len()
        invariant
            v <= w.slot_uis@.len(),
            w.items == old(w).items,
            w.log == old(w).log,
            w.inventory_uis == old(w).inventory_uis,
            w.carries@ == old(w).carries@.update(carry.0 as int, None::<Carry>),
            w.inventories@ == if cinv.0 < old(w).inventories@.len() {
                old(w).inventories@.update(cinv.0 as int, None::<Inventory>)
            } else {
                old(w).inventories@
            },
            w.item_uis@.len() == old(w).item_uis@.len(),
            forall|k: int|
                #![trigger old(w).item_uis@[k]]
                0 <= k < w.item_uis@.len() ==> w.item_uis@[k] == if old(w).item_ui_live(k) && old(
                    w,
                ).slot_live(old(w).item_ui(k).parent.0 as int) && old(w).slot_ui(
                    old(w).item_ui(k).parent.0 as int,
                ).inventory == cinv {
                    None
                } else {
                    old(w).item_uis@[k]
                },
            w.slot_uis@.len() == old(w).slot_uis@.len(),
            forall|k: int|
                #![trigger old(w).slot_uis@[k]]
                0 <= k < v ==> w.slot_uis@[k] == if old(w).slot_live(k) && old(w).slot_ui(
                    k,
                ).inventory == cinv {
                    None
                } else {
                    old(w).slot_uis@[k]
                },
            forall|k: int| v <= k < w.slot_uis@.len() ==> w.slot_uis@[k] == old(w).slot_uis@[k],
        decreases w.slot_uis@.len() - v,
    {
        let bound = match &w.slot_uis[v] {
            Some(su) => su.inventory == cinv,
            None => false,
        };
        if bound {
            w.slot_uis[v] = None;
        }
        v = v + 1;
    }
    // And the inventory views bound to it.
    let mut u: usize = 0;
    while u < w.inventory_uis.len()
        invariant
            u <= w.inventory_uis@.len(),
            w.items == old(w).items,
            w.log == old(w).log,
            w.carries@ == old(w).carries@.update(carry.0 as int, None::<Carry>),
            w.inventories@ == if cinv.0 < old(w).inventories@.len() {
                old(w).inventories@.update(cinv.0 as int, None::<Inventory>)
            } else {
                old(w).inventories@
            },
            w.item_uis@.len() == old(w).item_uis@.len(),
            forall|k: int|
                #![trigger old(w).item_uis@[k]]
                0 <= k < w.item_uis@.len() ==> w.item_uis@[k] == if old(w).item_ui_live(k) && old(
                    w,
                ).slot_live(old(w).item_ui(k).parent.0 as int) && old(w).slot_ui(
                    old(w).item_ui(k).parent.0 as int,
                ).inventory == cinv {
                    None
                } else {
                    old(w).item_uis@[k]
                },
            w.slot_uis@.len() == old(w).slot_uis@.len(),
            forall|k: int|
                #![trigger old(w).slot_uis@[k]]
                0 <= k < w.slot_uis@.len() ==> w.slot_uis@[k] == if old(w).slot_live(k) && old(
                    w,
                ).slot_ui(k).inventory == cinv {
                    None
                } else {
                    old(w).slot_uis@[k]
                },
            w.inventory_uis@.len() == old(w).inventory_uis@.len(),
            forall|k: int|
                #![trigger old(w).inventory_uis@[k]]
                0 <= k < u ==> w.inventory_uis@[k] == if old(w).inv_ui_live(k) && old(w).inv_ui(
                    k,
                ).data == cinv {
                    None
                } else {
                    old(w).inventory_uis@[k]
                },
            forall|k: int|
                u <= k < w.inventory_uis@.len() ==> w.inventory_uis@[k] == old(
                    w,
                ).inventory_uis@[k],
        decreases w.inventory_uis@.len() - u,
    {
        let bound = match &w.inventory_uis[u] {
            Some(iu) => iu.data == cinv,
            None => false,
        };
        if bound {
            w.inventory_uis[u] = None;
        }
        u = u + 1;
    }
}

} // verus!
