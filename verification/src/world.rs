//! The world: the item table, the inventory table, the view mirrors, the
//! active carries and the event log, together with the inventory operations
//! that mutate slots and keep every dependent view consistent.

use vstd::prelude::*;

use crate::carry::Carry;
use crate::change_propagation::{
    apply_commands, inventory_changed, logged_since, slot_event_for, Command, Event,
};
use crate::inventory::Inventory;
use crate::items::Items;
use crate::views::{InventoryUi, ItemUi, SlotUi};
use crate::{EntityId, ModelError};

verus! {

/// All state of the model, passed explicitly into every operation. Each
/// table maps an entity identifier (its index) to a live record or to
/// `None` for an entity that was despawned or never existed.
pub struct World {
    pub items: Items,
    pub inventories: Vec<Option<Inventory>>,
    pub inventory_uis: Vec<Option<InventoryUi>>,
    pub slot_uis: Vec<Option<SlotUi>>,
    pub item_uis: Vec<Option<ItemUi>>,
    pub carries: Vec<Option<Carry>>,
    /// Every event the propagation engine has emitted, in order.
    pub log: Vec<Event>,
}

impl World {
    pub open spec fn inv_live(self, e: EntityId) -> bool {
        e.0 < self.inventories@.len() && self.inventories@[e.0 as int] is Some
    }

    pub open spec fn inv_of(self, e: EntityId) -> Inventory
        recommends
            self.inv_live(e),
    {
        self.inventories@[e.0 as int].unwrap()
    }

    pub open spec fn slot_live(self, v: int) -> bool {
        0 <= v < self.slot_uis@.len() && self.slot_uis@[v] is Some
    }

    pub open spec fn slot_ui(self, v: int) -> SlotUi
        recommends
            self.slot_live(v),
    {
        self.slot_uis@[v].unwrap()
    }

    pub open spec fn item_ui_live(self, t: int) -> bool {
        0 <= t < self.item_uis@.len() && self.item_uis@[t] is Some
    }

    pub open spec fn item_ui(self, t: int) -> ItemUi
        recommends
            self.item_ui_live(t),
    {
        self.item_uis@[t].unwrap()
    }

    pub open spec fn inv_ui_live(self, u: int) -> bool {
        0 <= u < self.inventory_uis@.len() && self.inventory_uis@[u] is Some
    }

    pub open spec fn inv_ui(self, u: int) -> InventoryUi
        recommends
            self.inv_ui_live(u),
    {
        self.inventory_uis@[u].unwrap()
    }

    pub open spec fn carry_live(self, c: int) -> bool {
        0 <= c < self.carries@.len() && self.carries@[c] is Some
    }

    pub open spec fn carry_at(self, c: int) -> Carry
        recommends
            self.carry_live(c),
    {
        self.carries@[c].unwrap()
    }

    /// Slot `j` of the inventory at table row `i` is valid and holds `x`.
    pub open spec fn holds(self, i: int, j: int, x: EntityId) -> bool {
        &&& 0 <= i < self.inventories@.len()
        &&& self.inventories@[i] is Some
        &&& 0 <= j < self.inventories@[i].unwrap()@.len()
        &&& self.inventories@[i].unwrap()@[j] == Some(x)
    }

    /// Exactly-one-owner: no item entity appears in two slots at once,
    /// within one inventory or across inventories.
    pub open spec fn unique_owners(self) -> bool {
        forall|i1: int, j1: int, i2: int, j2: int, x: EntityId|
            #[trigger] self.holds(i1, j1, x) && #[trigger] self.holds(i2, j2, x) ==> i1 == i2 && j1
                == j2
    }

    /// Some valid slot holds `x`.
    pub open spec fn item_owned(self, x: EntityId) -> bool {
        exists|i: int, j: int| self.holds(i, j, x)
    }

    /// Every slot view bound to `inventory` (at a valid index) caches
    /// exactly the inventory's current content at that index.
    pub open spec fn views_synced_for(self, inventory: EntityId) -> bool {
        forall|v: int|
            self.slot_live(v) && (#[trigger] self.slot_ui(v)).inventory == inventory
                && self.inv_live(inventory) && self.slot_ui(v).index < self.inv_of(
                inventory,
            )@.len() ==> self.slot_ui(v).data == self.inv_of(inventory)@[self.slot_ui(
                v,
            ).index as int]
    }

    /// `e` is the staging inventory of a live carry.
    pub open spec fn is_carry_inventory(self, e: EntityId) -> bool {
        exists|c: int| self.carry_live(c) && (#[trigger] self.carry_at(c)).inventory == e
    }

    /// A live carry is already bound to this pointer.
    pub open spec fn pointer_busy(self, pointer_id: u64) -> bool {
        exists|c: int| self.carry_live(c) && (#[trigger] self.carry_at(c)).pointer_id == pointer_id
    }

    /// The two worlds agree on everything but the inventory table and log.
    pub open spec fn same_but_inventories_and_log(self, other: World) -> bool {
        &&& other.items == self.items
        &&& other.inventory_uis == self.inventory_uis
        &&& other.slot_uis == self.slot_uis
        &&& other.item_uis == self.item_uis
        &&& other.carries == self.carries
    }

    /// What every content mutation of one inventory leaves behind, beyond
    /// the touched slots themselves: one `InventoryChanged` notification in
    /// the log, followed by `SlotChanged` notifications for exactly the
    /// inventory's stale views — each carrying the inventory's new content
    /// at that view's index, none for a view that was already consistent —
    /// every view of the inventory freshly synchronised, every other view
    /// untouched, and item views removed or re-added only under the
    /// inventory's own slot views.
    pub open spec fn propagated_change(w0: World, w1: World, inventory: EntityId) -> bool {
        &&& w1.items == w0.items
        &&& w1.carries == w0.carries
        &&& w1.inventory_uis == w0.inventory_uis
        &&& w1.log@[w0.log@.len() as int] == (Event::InventoryChanged { inventory })
        &&& w0.log@.push((Event::InventoryChanged { inventory })).is_prefix_of(w1.log@)
        &&& (forall|n: int|
            w0.log@.len() + 1 <= n < w1.log@.len() ==> slot_event_for(
                w0,
                inventory,
                #[trigger] w1.log@[n],
            ))
        &&& w1.views_synced_for(inventory)
        &&& w1.slot_uis@.len() == w0.slot_uis@.len()
        &&& (forall|v: int|
            #![trigger w1.slot_uis@[v]]
            0 <= v < w0.slot_uis@.len() && !(w0.slot_live(v) && w0.slot_ui(v).inventory
                == inventory) ==> w1.slot_uis@[v] == w0.slot_uis@[v])
        &&& (forall|v: int|
            #![trigger w0.slot_uis@[v]]
            w0.slot_live(v) && w0.slot_ui(v).inventory == inventory ==> w1.slot_live(v)
                && w1.slot_ui(v).inventory == inventory && w1.slot_ui(v).index == w0.slot_ui(
                v,
            ).index)
        &&& (forall|n: int|
            w0.log@.len() <= n < w1.log@.len() ==> ((#[trigger] w1.log@[n])
                matches Event::SlotChanged { view, content } ==> {
                let v = view.0 as int;
                &&& w0.slot_live(v)
                &&& w0.slot_ui(v).inventory == inventory
                &&& w1.inv_live(inventory)
                &&& w0.slot_ui(v).index < w1.inv_of(inventory)@.len()
                &&& content == w1.inv_of(inventory)@[w0.slot_ui(v).index as int]
                &&& w0.slot_ui(v).data != content
            }))
        &&& (forall|v: int|
            #![trigger w0.slot_uis@[v]]
            0 <= v < w0.slot_uis@.len() && w0.slot_live(v) && w0.slot_ui(v).inventory == inventory
                && w1.inv_live(inventory) && w0.slot_ui(v).index < w1.inv_of(inventory)@.len()
                && w0.slot_ui(v).data != w1.inv_of(inventory)@[w0.slot_ui(v).index as int]
                ==> logged_since(
                w0,
                w1,
                (Event::SlotChanged {
                    view: EntityId(v as usize),
                    content: w1.inv_of(inventory)@[w0.slot_ui(v).index as int],
                }),
            ))
        &&& w1.item_uis@.len() >= w0.item_uis@.len()
        &&& (forall|t: int|
            #![trigger w1.item_uis@[t]]
            0 <= t < w0.item_uis@.len() ==> w1.item_uis@[t] == w0.item_uis@[t]
                || w1.item_uis@[t] is None)
        &&& (forall|t: int|
            #![trigger w1.item_uis@[t]]
            w0.item_uis@.len() <= t < w1.item_uis@.len() ==> w1.item_uis@[t] is None || {
                let iu = w1.item_uis@[t].unwrap();
                w0.slot_live(iu.parent.0 as int) && w0.slot_ui(iu.parent.0 as int).inventory
                    == inventory
            })
    }

    /// One slot of `inventory` was overwritten with `content`; everything
    /// else follows `propagated_change`.
    pub open spec fn slot_write_effect(
        w0: World,
        w1: World,
        inventory: EntityId,
        index: int,
        content: Option<EntityId>,
    ) -> bool {
        &&& Self::propagated_change(w0, w1, inventory)
        &&& w1.inventories@.len() == w0.inventories@.len()
        &&& (forall|k: int|
            #![trigger w1.inventories@[k]]
            0 <= k < w0.inventories@.len() && k != inventory.0 ==> w1.inventories@[k]
                == w0.inventories@[k])
        &&& w1.inv_live(inventory)
        &&& w1.inv_of(inventory)@ == w0.inv_of(inventory)@.update(index, content)
    }

    /// Two slots of `inventory` exchanged their contents; everything else
    /// follows `propagated_change`.
    pub open spec fn swap_effect(w0: World, w1: World, inventory: EntityId, i: int, j: int) -> bool {
        &&& Self::propagated_change(w0, w1, inventory)
        &&& w1.inventories@.len() == w0.inventories@.len()
        &&& (forall|k: int|
            #![trigger w1.inventories@[k]]
            0 <= k < w0.inventories@.len() && k != inventory.0 ==> w1.inventories@[k]
                == w0.inventories@[k])
        &&& w1.inv_live(inventory)
        &&& w1.inv_of(inventory)@ == w0.inv_of(inventory)@.update(
            i,
            w0.inv_of(inventory)@[j],
        ).update(j, w0.inv_of(inventory)@[i])
    }

    /// Slot `i` of inventory `a` and slot `j` of inventory `b` exchanged
    /// their contents, with exactly two `InventoryChanged` notifications
    /// recorded — one per inventory — and only `SlotChanged` events at the
    /// two inventories' views besides; both inventories' views are in sync
    /// again and every other view is untouched.
    pub open spec fn swap_across_effect(
        w0: World,
        w1: World,
        a: EntityId,
        i: int,
        b: EntityId,
        j: int,
    ) -> bool {
        &&& w1.items == w0.items
        &&& w1.carries == w0.carries
        &&& w1.inventory_uis == w0.inventory_uis
        &&& w1.inventories@.len() == w0.inventories@.len()
        &&& (forall|k: int|
            #![trigger w1.inventories@[k]]
            0 <= k < w0.inventories@.len() && k != a.0 && k != b.0 ==> w1.inventories@[k]
                == w0.inventories@[k])
        &&& w1.inv_live(a)
        &&& w1.inv_live(b)
        &&& w1.inv_of(a)@ == w0.inv_of(a)@.update(i, w0.inv_of(b)@[j])
        &&& w1.inv_of(b)@ == w0.inv_of(b)@.update(j, w0.inv_of(a)@[i])
        &&& w0.log@.len() + 2 <= w1.log@.len()
        &&& w0.log@.is_prefix_of(w1.log@)
        &&& w1.log@[w0.log@.len() as int] == (Event::InventoryChanged { inventory: a })
        &&& (exists|p: int|
            w0.log@.len() < p < w1.log@.len() && #[trigger] w1.log@[p] == (Event::InventoryChanged {
                inventory: b,
            }) && (forall|n: int|
                w0.log@.len() < n < w1.log@.len() && n != p ==> slot_event_for(
                    w0,
                    a,
                    #[trigger] w1.log@[n],
                ) || slot_event_for(w0, b, w1.log@[n])))
        &&& w1.views_synced_for(a)
        &&& w1.views_synced_for(b)
        &&& w1.slot_uis@.len() == w0.slot_uis@.len()
        &&& (forall|v: int|
            #![trigger w1.slot_uis@[v]]
            0 <= v < w0.slot_uis@.len() && !(w0.slot_live(v) && ((#[trigger] w0.slot_ui(
                v,
            )).inventory == a || w0.slot_ui(v).inventory == b)) ==> w1.slot_uis@[v]
                == w0.slot_uis@[v])
        &&& (forall|v: int|
            #![trigger w0.slot_uis@[v]]
            w0.slot_live(v) && (w0.slot_ui(v).inventory == a || w0.slot_ui(v).inventory == b)
                ==> w1.slot_live(v) && w1.slot_ui(v).inventory == w0.slot_ui(v).inventory
                && w1.slot_ui(v).index == w0.slot_ui(v).index)
        &&& w1.item_uis@.len() >= w0.item_uis@.len()
        &&& (forall|t: int|
            #![trigger w1.item_uis@[t]]
            0 <= t < w0.item_uis@.len() ==> w1.item_uis@[t] == w0.item_uis@[t]
                || w1.item_uis@[t] is None)
    }

    pub fn new() -> (w: World)
        ensures
            w.items@ == Seq::<Option<crate::items::ItemRecord>>::empty(),
            w.inventories@ == Seq::<Option<Inventory>>::empty(),
            w.inventory_uis@ == Seq::<Option<InventoryUi>>::empty(),
            w.slot_uis@ == Seq::<Option<SlotUi>>::empty(),
            w.item_uis@ == Seq::<Option<ItemUi>>::empty(),
            w.carries@ == Seq::<Option<Carry>>::empty(),
            w.log@ == Seq::<Event>::empty(),
    {
        World {
            items: Items::new(),
            inventories: Vec::new(),
            inventory_uis: Vec::new(),
            slot_uis: Vec::new(),
            item_uis: Vec::new(),
            carries: Vec::new(),
            log: Vec::new(),
        }
    }

    /// Adds an inventory entity to the world.
    pub fn spawn_inventory(&mut self, inventory: Inventory) -> (e: EntityId)
        ensures
            e.0 == old(self).inventories@.len(),
            final(self).inventories@ == old(self).inventories@.push(Some(inventory)),
            final(self).inv_live(e),
            final(self).inv_of(e) == inventory,
            old(self).same_but_inventories_and_log(*final(self)),
            final(self).log == old(self).log,
    {
        let e = EntityId(self.inventories.len());
        self.inventories.push(Some(inventory));
        e
    }

    pub fn inventory_live(&self, e: EntityId) -> (r: bool)
        ensures
            r == self.inv_live(e),
    {
        e.0 < self.inventories.len() && self.inventories[e.0].is_some()
    }

    /// The content of slot `index` of the inventory entity `inventory`.
    pub fn get(&self, inventory: EntityId, index: usize) -> (r: Result<
        Option<EntityId>,
        ModelError,
    >)
        ensures
            match r {
                Ok(content) => self.inv_live(inventory) && index < self.inv_of(inventory)@.len()
                    && content == self.inv_of(inventory)@[index as int],
                Err(err) => if !self.inv_live(inventory) {
                    err == ModelError::EntityNotFound
                } else {
                    err == ModelError::IndexOutOfBounds && index >= self.inv_of(inventory)@.len()
                },
            },
    {
        if !self.inventory_live(inventory) {
            return Err(ModelError::EntityNotFound);
        }
        self.inventories[inventory.0].as_ref().unwrap().get(index)
    }

    /// Overwrites one slot; the raw write shared by the inventory
    /// operations, which are responsible for the change notifications.
    pub(crate) fn write_slot(&mut self, inventory: EntityId, index: usize, content: Option<
        EntityId,
    >)
        requires
            old(self).inv_live(inventory),
            index < old(self).inv_of(inventory)@.len(),
        ensures
            final(self).inventories@.len() == old(self).inventories@.len(),
            forall|k: int|
                0 <= k < old(self).inventories@.len() && k != inventory.0
                    ==> final(self).inventories@[k] == old(self).inventories@[k],
            final(self).inv_live(inventory),
            final(self).inv_of(inventory)@ == old(self).inv_of(inventory)@.update(
                index as int,
                content,
            ),
            old(self).same_but_inventories_and_log(*final(self)),
            final(self).log == old(self).log,
    {
        let entry = &mut self.inventories[inventory.0];
        match entry {
            Some(inv) => {
                inv.0[index] = content;
            },
            None => {},
        }
    }

    /// Pushes the `InventoryChanged` notification for `inventory`, drains
    /// the resulting cascade, and applies the deferred view rebuilds. The
    /// ghost argument names the state before the slots were written, which
    /// agrees with the current state everywhere outside the inventory table.
    fn propagate_inventory_changed(&mut self, inventory: EntityId, Ghost(w0): Ghost<World>)
        requires
            old(self).inv_live(inventory),
            w0.items == old(self).items,
            w0.carries == old(self).carries,
            w0.inventory_uis == old(self).inventory_uis,
            w0.slot_uis == old(self).slot_uis,
            w0.item_uis == old(self).item_uis,
            w0.log == old(self).log,
        ensures
            Self::propagated_change(w0, *final(self), inventory),
            final(self).inventories == old(self).inventories,
    {
        self.log.push(Event::InventoryChanged { inventory });
        let ghost w_ic = *self;
        let mut cmds: Vec<Command> = Vec::new();
        let r = inventory_changed(self, inventory, &mut cmds);
        proof {
            assert(r is Ok);
        }
        let ghost w_prop = *self;
        apply_commands(self, cmds);
        proof {
            assert(w_ic.log@ == w0.log@.push((Event::InventoryChanged { inventory })));
            crate::change_propagation::lemma_prefix_index(
                w_ic.log@,
                w_prop.log@,
                w0.log@.len() as int,
            );
            assert forall|n: int|
                w0.log@.len() + 1 <= n < self.log@.len() implies slot_event_for(
                w0,
                inventory,
                self.log@[n],
            ) by {
                assert(slot_event_for(w_ic, inventory, w_prop.log@[n]));
            }
            assert forall|v: int|
                0 <= v < w0.slot_uis@.len() && !(w0.slot_live(v) && w0.slot_ui(v).inventory
                    == inventory) implies #[trigger] self.slot_uis@[v] == w0.slot_uis@[v] by {
                assert(crate::change_propagation::updated_view(w_ic, w_prop, inventory, v));
            }
            assert forall|v: int|
                w0.slot_live(v) && (#[trigger] w0.slot_ui(v)).inventory
                    == inventory implies self.slot_live(v) && self.slot_ui(v).inventory
                == inventory && self.slot_ui(v).index == w0.slot_ui(v).index by {
                assert(crate::change_propagation::updated_view(w_ic, w_prop, inventory, v));
            }
            assert forall|view: int|
                self.slot_live(view) && (#[trigger] self.slot_ui(view)).inventory == inventory
                    && self.inv_live(inventory) && self.slot_ui(view).index < self.inv_of(
                    inventory,
                )@.len() implies self.slot_ui(view).data == self.inv_of(inventory)@[self.slot_ui(
                    view,
                ).index as int] by {
                assert(w_prop.slot_live(view) && w_prop.slot_ui(view).inventory == inventory);
                assert(w_prop.slot_ui(view).data == w_prop.inv_of(inventory)@[w_prop.slot_ui(
                    view,
                ).index as int]);
            }
            assert(self.views_synced_for(inventory));
            // exactly the stale views were notified, with the new content
            assert forall|n: int|
                w0.log@.len() <= n < self.log@.len() implies ((#[trigger] self.log@[n])
                matches Event::SlotChanged { view, content } ==> {
                let v = view.0 as int;
                &&& w0.slot_live(v)
                &&& w0.slot_ui(v).inventory == inventory
                &&& self.inv_live(inventory)
                &&& w0.slot_ui(v).index < self.inv_of(inventory)@.len()
                &&& content == self.inv_of(inventory)@[w0.slot_ui(v).index as int]
                &&& w0.slot_ui(v).data != content
            }) by {
                if n > w0.log@.len() {
                    match self.log@[n] {
                        Event::SlotChanged { view, content } => {
                            assert(crate::change_propagation::view_stale(
                                w_ic,
                                inventory,
                                view.0 as int,
                            ));
                            assert(w_prop.log@[n] == crate::change_propagation::stale_view_event(
                                w_ic,
                                inventory,
                                view.0 as int,
                            ));
                        },
                        _ => {},
                    }
                }
            }
            assert forall|v: int|
                0 <= v < w0.slot_uis@.len() && w0.slot_live(v) && (#[trigger] w0.slot_uis@[v])
                    is Some && w0.slot_ui(v).inventory == inventory && self.inv_live(inventory)
                    && w0.slot_ui(v).index < self.inv_of(inventory)@.len() && w0.slot_ui(v).data
                    != self.inv_of(inventory)@[w0.slot_ui(v).index as int] implies logged_since(
                w0,
                *self,
                (Event::SlotChanged {
                    view: EntityId(v as usize),
                    content: self.inv_of(inventory)@[w0.slot_ui(v).index as int],
                }),
            ) by {
                assert(crate::change_propagation::view_stale(w_ic, inventory, v));
                let ev = crate::change_propagation::stale_view_event(w_ic, inventory, v);
                assert(logged_since(w_ic, w_prop, ev));
                let n = choose|n: int|
                    w_ic.log@.len() <= n < w_prop.log@.len() && #[trigger] w_prop.log@[n] == ev;
                assert(self.log@[n] == ev);
                assert(ev == (Event::SlotChanged {
                    view: EntityId(v as usize),
                    content: self.inv_of(inventory)@[w0.slot_ui(v).index as int],
                }));
            }
            // rows appended to the item-view table sit under this
            // inventory's own slot views
            assert forall|t: int|
                w0.item_uis@.len() <= t < self.item_uis@.len() implies #[trigger] self.item_uis@[t]
                is None || {
                let iu = self.item_uis@[t].unwrap();
                w0.slot_live(iu.parent.0 as int) && w0.slot_ui(iu.parent.0 as int).inventory
                    == inventory
            } by {
                if self.item_uis@[t] is Some {
                    let m = choose|m: int|
                        0 <= m < cmds@.len() && ((#[trigger] cmds@[m])
                            matches Command::SpawnItemUi { parent, item } && w_prop.slot_live(
                            parent.0 as int,
                        ) && self.item_uis@[t] == crate::views::built_item_view(
                            w_prop.items,
                            parent,
                            Some(item),
                        ));
                    assert(crate::change_propagation::propagation_command(
                        w_ic,
                        inventory,
                        cmds@[m],
                    ));
                }
            }
        }
    }

    /// Overwriting one slot preserves the exactly-one-owner invariant, as
    /// long as the written item (if any) sat in no slot before.
    pub proof fn lemma_unique_after_slot_write(
        w0: World,
        w1: World,
        inventory: EntityId,
        index: int,
        content: Option<EntityId>,
    )
        requires
            w0.unique_owners(),
            content matches Some(item) ==> !w0.item_owned(item),
            w1.inventories@.len() == w0.inventories@.len(),
            forall|k: int|
                #![trigger w1.inventories@[k]]
                0 <= k < w0.inventories@.len() && k != inventory.0 ==> w1.inventories@[k]
                    == w0.inventories@[k],
            w0.inv_live(inventory),
            w1.inv_live(inventory),
            0 <= index < w0.inv_of(inventory)@.len(),
            w1.inv_of(inventory)@ == w0.inv_of(inventory)@.update(index, content),
        ensures
            w1.unique_owners(),
    {
        assert forall|i1: int, j1: int, i2: int, j2: int, x: EntityId|
            #[trigger] w1.holds(i1, j1, x) && #[trigger] w1.holds(i2, j2, x) implies i1 == i2 && j1
            == j2 by {
            if i1 == inventory.0 && j1 == index {
                assert(content == Some(x));
                if i2 == inventory.0 && j2 == index {
                } else {
                    assert(w0.holds(i2, j2, x));
                    assert(false);
                }
            } else if i2 == inventory.0 && j2 == index {
                assert(content == Some(x));
                assert(w0.holds(i1, j1, x));
                assert(false);
            } else {
                assert(w0.holds(i1, j1, x));
                assert(w0.holds(i2, j2, x));
            }
        }
    }

    /// Exchanging the contents of two valid slots (of one inventory or of
    /// two) preserves the exactly-one-owner invariant.
    pub proof fn lemma_unique_after_exchange(
        w0: World,
        w1: World,
        a: EntityId,
        i: int,
        b: EntityId,
        j: int,
    )
        requires
            w0.unique_owners(),
            w0.inv_live(a),
            w0.inv_live(b),
            0 <= i < w0.inv_of(a)@.len(),
            0 <= j < w0.inv_of(b)@.len(),
            !(a == b && i == j),
            w1.inventories@.len() == w0.inventories@.len(),
            forall|k: int|
                #![trigger w1.inventories@[k]]
                0 <= k < w0.inventories@.len() && k != a.0 && k != b.0 ==> w1.inventories@[k]
                    == w0.inventories@[k],
            w1.inv_live(a),
            w1.inv_live(b),
            a == b ==> w1.inv_of(a)@ == w0.inv_of(a)@.update(i, w0.inv_of(a)@[j]).update(
                j,
                w0.inv_of(a)@[i],
            ),
            a != b ==> w1.inv_of(a)@ == w0.inv_of(a)@.update(i, w0.inv_of(b)@[j])
                && w1.inv_of(b)@ == w0.inv_of(b)@.update(j, w0.inv_of(a)@[i]),
        ensures
            w1.unique_owners(),
    {
        assert forall|p1: int, q1: int, p2: int, q2: int, x: EntityId|
            #[trigger] w1.holds(p1, q1, x) && #[trigger] w1.holds(p2, q2, x) implies p1 == p2 && q1
            == q2 by {
            let s1 = Self::exchange_source(a, i, b, j, p1, q1);
            let s2 = Self::exchange_source(a, i, b, j, p2, q2);
            assert(w0.holds(s1.0, s1.1, x));
            assert(w0.holds(s2.0, s2.1, x));
            assert(s1 == s2);
        }
    }

    /// A state whose slot holdings are a subset of a unique-owner state's
    /// holdings keeps the exactly-one-owner invariant.
    pub proof fn lemma_unique_subset(w0: World, w1: World)
        requires
            w0.unique_owners(),
            forall|p: int, q: int, x: EntityId| #[trigger] w1.holds(p, q, x) ==> w0.holds(p, q, x),
        ensures
            w1.unique_owners(),
    {
        assert forall|i1: int, j1: int, i2: int, j2: int, x: EntityId|
            #[trigger] w1.holds(i1, j1, x) && #[trigger] w1.holds(i2, j2, x) implies i1 == i2 && j1
            == j2 by {
            assert(w0.holds(i1, j1, x));
            assert(w0.holds(i2, j2, x));
        }
    }

    /// Lifting an item out of its slot into a fresh single-slot inventory
    /// appended to the table preserves the exactly-one-owner invariant.
    pub proof fn lemma_unique_after_stage(
        w0: World,
        w1: World,
        inventory: EntityId,
        index: int,
        item: EntityId,
    )
        requires
            w0.unique_owners(),
            w0.holds(inventory.0 as int, index, item),
            w1.inventories@.len() == w0.inventories@.len() + 1,
            forall|k: int|
                #![trigger w1.inventories@[k]]
                0 <= k < w0.inventories@.len() && k != inventory.0 ==> w1.inventories@[k]
                    == w0.inventories@[k],
            w1.inv_live(inventory),
            w1.inv_of(inventory)@ == w0.inv_of(inventory)@.update(index, None::<EntityId>),
            w1.inventories@[w0.inventories@.len() as int] is Some,
            w1.inventories@[w0.inventories@.len() as int].unwrap()@ == seq![Some(item)],
        ensures
            w1.unique_owners(),
    {
        let fresh = w0.inventories@.len() as int;
        assert forall|i1: int, j1: int, i2: int, j2: int, x: EntityId|
            #[trigger] w1.holds(i1, j1, x) && #[trigger] w1.holds(i2, j2, x) implies i1 == i2 && j1
            == j2 by {
            if i1 == fresh && i2 == fresh {
                assert(j1 == 0 && j2 == 0);
            } else if i1 == fresh {
                assert(j1 == 0 && x == item);
                assert(w1.holds(i2, j2, item) && i2 < fresh);
                assert(!(i2 == inventory.0 && j2 == index));
                assert(w0.holds(i2, j2, item));
                assert(false);
            } else if i2 == fresh {
                assert(j2 == 0 && x == item);
                assert(!(i1 == inventory.0 && j1 == index));
                assert(w0.holds(i1, j1, item));
                assert(false);
            } else {
                assert(w0.holds(i1, j1, x));
                assert(w0.holds(i2, j2, x));
            }
        }
    }

    /// Where the content now at `(p, q)` came from, under the exchange of
    /// slot `i` of `a` with slot `j` of `b`.
    pub open spec fn exchange_source(
        a: EntityId,
        i: int,
        b: EntityId,
        j: int,
        p: int,
        q: int,
    ) -> (int, int) {
        if p == a.0 && q == i {
            (b.0 as int, j)
        } else if p == b.0 && q == j {
            (a.0 as int, i)
        } else {
            (p, q)
        }
    }

    /// Removes and returns the slot's content, leaving the slot empty, and
    /// brings every view of the inventory up to date before returning.
    /// Taking from an already-empty slot changes nothing, so it emits no
    /// notification.
    pub fn take(&mut self, inventory: EntityId, index: usize) -> (r: Result<
        Option<EntityId>,
        ModelError,
    >)
        ensures
            match r {
                Ok(content) => {
                    &&& old(self).inv_live(inventory)
                    &&& index < old(self).inv_of(inventory)@.len()
                    &&& content == old(self).inv_of(inventory)@[index as int]
                    &&& (content is None ==> *final(self) == *old(self))
                    &&& (content is Some ==> Self::slot_write_effect(
                        *old(self),
                        *final(self),
                        inventory,
                        index as int,
                        None::<EntityId>,
                    ))
                    &&& (old(self).unique_owners() ==> final(self).unique_owners())
                },
                Err(err) => {
                    &&& *final(self) == *old(self)
                    &&& if !old(self).inv_live(inventory) {
                        err == ModelError::EntityNotFound
                    } else {
                        err == ModelError::IndexOutOfBounds && index >= old(self).inv_of(
                            inventory,
                        )@.len()
                    }
                },
            },
    {
        let content = match self.get(inventory, index) {
            Ok(c) => c,
            Err(e) => {
                return Err(e);
            },
        };
        if content.is_none() {
            return Ok(None);
        }
        let ghost w0 = *self;
        self.write_slot(inventory, index, None);
        self.propagate_inventory_changed(inventory, Ghost(w0));
        proof {
            if w0.unique_owners() {
                Self::lemma_unique_after_slot_write(
                    w0,
                    *self,
                    inventory,
                    index as int,
                    None::<EntityId>,
                );
            }
        }
        Ok(content)
    }

    /// Fills an empty slot with `item` and brings every view of the
    /// inventory up to date before returning. A non-empty slot is refused
    /// with `SlotOccupied` and nothing changes: callers must `take` first,
    /// which keeps item ownership unique.
    pub fn put(&mut self, inventory: EntityId, index: usize, item: EntityId) -> (r: Result<
        (),
        ModelError,
    >)
        ensures
            match r {
                Ok(()) => {
                    &&& old(self).inv_live(inventory)
                    &&& index < old(self).inv_of(inventory)@.len()
                    &&& old(self).inv_of(inventory)@[index as int] is None
                    &&& Self::slot_write_effect(
                        *old(self),
                        *final(self),
                        inventory,
                        index as int,
                        Some(item),
                    )
                    &&& (old(self).unique_owners() && !old(self).item_owned(item)
                        ==> final(self).unique_owners())
                },
                Err(err) => {
                    &&& *final(self) == *old(self)
                    &&& if !old(self).inv_live(inventory) {
                        err == ModelError::EntityNotFound
                    } else if index >= old(self).inv_of(inventory)@.len() {
                        err == ModelError::IndexOutOfBounds
                    } else {
                        err == ModelError::SlotOccupied && old(self).inv_of(
                            inventory,
                        )@[index as int] is Some
                    }
                },
            },
    {
        let content = match self.get(inventory, index) {
            Ok(c) => c,
            Err(e) => {
                return Err(e);
            },
        };
        if content.is_some() {
            return Err(ModelError::SlotOccupied);
        }
        let ghost w0 = *self;
        self.write_slot(inventory, index, Some(item));
        self.propagate_inventory_changed(inventory, Ghost(w0));
        proof {
            if w0.unique_owners() && !w0.item_owned(item) {
                Self::lemma_unique_after_slot_write(
                    w0,
                    *self,
                    inventory,
                    index as int,
                    Some(item),
                );
            }
        }
        Ok(())
    }

    /// Exchanges two slots of one inventory and brings its views up to date.
    /// The interaction of a slot with itself is a no-op and emits no
    /// notification.
    pub fn swap(&mut self, inventory: EntityId, i: usize, j: usize) -> (r: Result<(), ModelError>)
        ensures
            match r {
                Ok(()) => if i == j {
                    *final(self) == *old(self)
                } else {
                    &&& old(self).inv_live(inventory)
                    &&& i < old(self).inv_of(inventory)@.len()
                    &&& j < old(self).inv_of(inventory)@.len()
                    &&& Self::swap_effect(*old(self), *final(self), inventory, i as int, j as int)
                    &&& (old(self).unique_owners() ==> final(self).unique_owners())
                },
                Err(err) => {
                    &&& *final(self) == *old(self)
                    &&& i != j
                    &&& if !old(self).inv_live(inventory) {
                        err == ModelError::EntityNotFound
                    } else {
                        err == ModelError::IndexOutOfBounds && (i >= old(self).inv_of(
                            inventory,
                        )@.len() || j >= old(self).inv_of(inventory)@.len())
                    }
                },
            },
    {
        if i == j {
            return Ok(());
        }
        let a = match self.get(inventory, i) {
            Ok(c) => c,
            Err(e) => {
                return Err(e);
            },
        };
        let b = match self.get(inventory, j) {
            Ok(c) => c,
            Err(e) => {
                return Err(e);
            },
        };
        let ghost w0 = *self;
        self.write_slot(inventory, i, b);
        self.write_slot(inventory, j, a);
        self.propagate_inventory_changed(inventory, Ghost(w0));
        proof {
            if w0.unique_owners() {
                Self::lemma_unique_after_exchange(
                    w0,
                    *self,
                    inventory,
                    i as int,
                    inventory,
                    j as int,
                );
            }
        }
        Ok(())
    }

    /// Exchanges slot `i` of inventory `a` with slot `j` of inventory `b`.
    /// Both slots are validated before either is written, so a failed
    /// operation leaves both inventories unchanged (no partial write). In
    /// the degenerate case `a == b` it falls back to the same-inventory
    /// swap. A successful cross-inventory exchange notifies both
    /// inventories, exactly once each, and brings both inventories' views
    /// up to date before returning.
    pub fn swap_across(&mut self, a: EntityId, i: usize, b: EntityId, j: usize) -> (r: Result<
        (),
        ModelError,
    >)
        ensures
            match r {
                Ok(()) => if a == b {
                    if i == j {
                        *final(self) == *old(self)
                    } else {
                        &&& old(self).inv_live(a)
                        &&& i < old(self).inv_of(a)@.len()
                        &&& j < old(self).inv_of(a)@.len()
                        &&& Self::swap_effect(*old(self), *final(self), a, i as int, j as int)
                        &&& (old(self).unique_owners() ==> final(self).unique_owners())
                    }
                } else {
                    &&& old(self).inv_live(a)
                    &&& old(self).inv_live(b)
                    &&& i < old(self).inv_of(a)@.len()
                    &&& j < old(self).inv_of(b)@.len()
                    &&& Self::swap_across_effect(
                        *old(self),
                        *final(self),
                        a,
                        i as int,
                        b,
                        j as int,
                    )
                    &&& (old(self).unique_owners() ==> final(self).unique_owners())
                },
                Err(err) => {
                    &&& *final(self) == *old(self)
                    &&& if !old(self).inv_live(a) || !old(self).inv_live(b) {
                        err == ModelError::EntityNotFound
                    } else {
                        err == ModelError::IndexOutOfBounds && (i >= old(self).inv_of(a)@.len() || j
                            >= old(self).inv_of(b)@.len())
                    }
                },
            },
    {
        if a == b {
            return self.swap(a, i, j);
        }
        if !self.inventory_live(a) || !self.inventory_live(b) {
            return Err(ModelError::EntityNotFound);
        }
        let va = match self.get(a, i) {
            Ok(c) => c,
            Err(e) => {
                return Err(e);
            },
        };
        let vb = match self.get(b, j) {
            Ok(c) => c,
            Err(e) => {
                return Err(e);
            },
        };
        let ghost w0 = *self;
        self.write_slot(a, i, vb);
        self.write_slot(b, j, va);
        self.propagate_inventory_changed(a, Ghost(w0));
        let ghost w1 = *self;
        self.propagate_inventory_changed(b, Ghost(w1));
        proof {
            crate::change_propagation::lemma_prefix_transfer(w0.log@, w1.log@, self.log@);
            assert(w0.log@.push((Event::InventoryChanged { inventory: a })).is_prefix_of(w1.log@));
            crate::change_propagation::lemma_prefix_index(
                w0.log@.push((Event::InventoryChanged { inventory: a })),
                w1.log@,
                w0.log@.len() as int,
            );
            crate::change_propagation::lemma_prefix_index(
                w1.log@,
                self.log@,
                w0.log@.len() as int,
            );
            let p = w1.log@.len() as int;
            assert(self.log@[p] == (Event::InventoryChanged { inventory: b }));
            assert forall|n: int|
                w0.log@.len() < n < self.log@.len() && n != p implies slot_event_for(
                w0,
                a,
                #[trigger] self.log@[n],
            ) || slot_event_for(w0, b, self.log@[n]) by {
                if n < p {
                    crate::change_propagation::lemma_prefix_index(w1.log@, self.log@, n);
                    assert(slot_event_for(w0, a, w1.log@[n]));
                } else {
                    assert(slot_event_for(w1, b, self.log@[n]));
                    let view = self.log@[n]->SlotChanged_view;
                    assert(w1.slot_uis@[view.0 as int] == w0.slot_uis@[view.0 as int]);
                }
            }
            assert forall|view: int|
                self.slot_live(view) && (#[trigger] self.slot_ui(view)).inventory == a
                    && self.inv_live(a) && self.slot_ui(view).index < self.inv_of(
                    a,
                )@.len() implies self.slot_ui(view).data == self.inv_of(a)@[self.slot_ui(
                    view,
                ).index as int] by {
                assert(self.slot_uis@[view] == w1.slot_uis@[view]);
                assert(w1.slot_ui(view).data == w1.inv_of(a)@[w1.slot_ui(view).index as int]);
            }
            assert(self.views_synced_for(a));
            if w0.unique_owners() {
                Self::lemma_unique_after_exchange(w0, *self, a, i as int, b, j as int);
            }
        }
        Ok(())
    }

    /// The live carry bound to `pointer_id`, if any.
    pub fn find_carry(&self, pointer_id: u64) -> (r: Option<usize>)
        ensures
            match r {
                Some(c) => self.carry_live(c as int) && self.carry_at(c as int).pointer_id
                    == pointer_id,
                None => !self.pointer_busy(pointer_id),
            },
    {
        let mut c: usize = 0;
        while c < self.carries.len()
            invariant
                c <= self.carries@.len(),
                forall|k: int|
                    0 <= k < c ==> !(self.carry_live(k) && (#[trigger] self.carry_at(
                        k,
                    )).pointer_id == pointer_id),
            decreases self.carries@.len() - c,
        {
            match &self.carries[c] {
                Some(carry) => {
                    if carry.pointer_id == pointer_id {
                        return Some(c);
                    }
                },
                None => {},
            }
            c = c + 1;
        }
        None
    }

    /// Whether `e` is the staging inventory of a live carry.
    pub fn carry_inventory(&self, e: EntityId) -> (r: bool)
        ensures
            r == self.is_carry_inventory(e),
    {
        let mut c: usize = 0;
        while c < self.carries.len()
            invariant
                c <= self.carries@.len(),
                forall|k: int|
                    0 <= k < c ==> !(self.carry_live(k) && (#[trigger] self.carry_at(k)).inventory
                        == e),
            decreases self.carries@.len() - c,
        {
            match &self.carries[c] {
                Some(carry) => {
                    if carry.inventory == e {
                        proof {
                            assert(self.carry_live(c as int) && self.carry_at(c as int).inventory
                                == e);
                        }
                        return true;
                    }
                },
                None => {},
            }
            c = c + 1;
        }
        false
    }
}

} // verus!
