//! The change-propagation engine: three event kinds and the rules that
//! translate one into the others, drained synchronously so that every view
//! mirror is consistent again before a mutation's caller proceeds.

use vstd::prelude::*;

use crate::items::Items;
use crate::views::{built_item_view, despawn_carry, spawn_item, ItemUi, SlotUi};
use crate::world::World;
use crate::{EntityId, ModelError};

verus! {

broadcast use vstd::seq_lib::lemma_seq_contains_after_push;

/// A change notification processed by the propagation engine. The engine
/// records every emitted event, in order, in the world's log.
#[derive(Clone, Copy, PartialEq, Eq, Debug)]
pub enum Event {
    /// An inventory's slots changed; its views must be re-derived.
    InventoryChanged { inventory: EntityId },
    /// An item's attributes changed; views showing it, and items deriving
    /// from it, must be re-validated.
    ItemChanged { item: EntityId },
    /// A slot view's expected content changed (or must be rebuilt).
    SlotChanged { view: EntityId, content: Option<EntityId> },
}

/// A deferred structural effect: spawns and despawns of view entities are
/// queued while events drain and applied afterwards in one batch.
#[derive(Clone, Copy, PartialEq, Eq, Debug)]
pub enum Command {
    /// Build a fresh item view for `item` under the slot view `parent`.
    SpawnItemUi { parent: EntityId, item: EntityId },
    /// Remove the item view `view`.
    DespawnItemUi { view: EntityId },
}

/// The commands that rebuilding the slot view `view` with `content` may
/// queue: despawns of its current item views, and a spawn of the new item
/// view.
pub open spec fn rebuild_command(w: World, view: EntityId, content: Option<EntityId>, c: Command) -> bool {
    match c {
        Command::DespawnItemUi { view: iv } => w.item_ui_live(iv.0 as int) && w.item_ui(
            iv.0 as int,
        ).parent == view,
        Command::SpawnItemUi { parent, item } => parent == view && content == Some(item),
    }
}

/// The commands that propagating `InventoryChanged(inventory)` may queue:
/// rebuilds of item views under that inventory's slot views.
pub open spec fn propagation_command(w: World, inventory: EntityId, c: Command) -> bool {
    match c {
        Command::DespawnItemUi { view: iv } => w.item_ui_live(iv.0 as int) && w.slot_live(
            w.item_ui(iv.0 as int).parent.0 as int,
        ) && w.slot_ui(w.item_ui(iv.0 as int).parent.0 as int).inventory == inventory,
        Command::SpawnItemUi { parent, item } => w.slot_live(parent.0 as int) && w.slot_ui(
            parent.0 as int,
        ).inventory == inventory,
    }
}

/// `e` is a `SlotChanged` event aimed at one of `inventory`'s slot views.
pub open spec fn slot_event_for(w: World, inventory: EntityId, e: Event) -> bool {
    match e {
        Event::SlotChanged { view, content } => w.slot_live(view.0 as int) && w.slot_ui(
            view.0 as int,
        ).inventory == inventory,
        _ => false,
    }
}

/// Every log entry of `w1` from position `p` on is a `SlotChanged` event at
/// one of `inventory`'s slot views, judged against the views of `w0`.
pub open spec fn slot_events_from(w0: World, w1: World, p: int, inventory: EntityId) -> bool {
    forall|n: int|
        p <= n < w1.log@.len() ==> slot_event_for(w0, inventory, #[trigger] w1.log@[n])
}

/// Every command of `cmds` from position `p` on is one that propagating
/// `InventoryChanged(inventory)` may queue, judged against `w0`.
pub open spec fn propagation_commands_from(
    w0: World,
    inventory: EntityId,
    cmds: Seq<Command>,
    p: int,
) -> bool {
    forall|n: int| p <= n < cmds.len() ==> propagation_command(w0, inventory, #[trigger] cmds[n])
}

/// The slot view at row `v` of `w0` is owed a notification by
/// `InventoryChanged(inventory)`: it is live, bound to `inventory` at a
/// valid index, and its cached content differs from the inventory's current
/// content there.
pub open spec fn view_stale(w0: World, inventory: EntityId, v: int) -> bool {
    &&& w0.slot_live(v)
    &&& w0.slot_ui(v).inventory == inventory
    &&& w0.inv_live(inventory)
    &&& w0.slot_ui(v).index < w0.inv_of(inventory)@.len()
    &&& w0.slot_ui(v).data != w0.inv_of(inventory)@[w0.slot_ui(v).index as int]
}

/// The exact notification owed to that view: the inventory's current
/// content at the view's index.
pub open spec fn stale_view_event(w0: World, inventory: EntityId, v: int) -> Event {
    Event::SlotChanged {
        view: EntityId(v as usize),
        content: w0.inv_of(inventory)@[w0.slot_ui(v).index as int],
    }
}

/// How `InventoryChanged(inventory)` rewrites the slot view at row `v`: a
/// live view bound to `inventory` at a valid index caches the inventory's
/// current content there; every other row is untouched.
pub open spec fn updated_view(w0: World, w1: World, inventory: EntityId, v: int) -> bool {
    if w0.slot_live(v) && w0.slot_ui(v).inventory == inventory && w0.inv_live(inventory)
        && w0.slot_ui(v).index < w0.inv_of(inventory)@.len() {
        w1.slot_uis@[v] == Some(
            SlotUi {
                data: w0.inv_of(inventory)@[w0.slot_ui(v).index as int],
                inventory: inventory,
                index: w0.slot_ui(v).index,
            },
        )
    } else {
        w1.slot_uis@[v] == w0.slot_uis@[v]
    }
}

/// What one structural command does to the item-view table, judged against
/// the item table and the slot views that held when the batch was queued
/// (neither changes while a batch runs): a despawn clears the named row, a
/// spawn under a live slot view appends the resolved item view — or nothing,
/// when the slot view is gone or the icon does not resolve.
pub open spec fn apply_one_command(
    items: Items,
    slot_uis: Seq<Option<SlotUi>>,
    item_uis: Seq<Option<ItemUi>>,
    c: Command,
) -> Seq<Option<ItemUi>> {
    match c {
        Command::DespawnItemUi { view } => if view.0 < item_uis.len() {
            item_uis.update(view.0 as int, None)
        } else {
            item_uis
        },
        Command::SpawnItemUi { parent, item } => if parent.0 < slot_uis.len()
            && slot_uis[parent.0 as int] is Some {
            match built_item_view(items, parent, Some(item)) {
                Some(iu) => item_uis.push(Some(iu)),
                None => item_uis,
            }
        } else {
            item_uis
        },
    }
}

/// The item-view table a whole batch leaves behind, first command first.
pub open spec fn applied_commands(
    items: Items,
    slot_uis: Seq<Option<SlotUi>>,
    item_uis: Seq<Option<ItemUi>>,
    cmds: Seq<Command>,
) -> Seq<Option<ItemUi>>
    decreases cmds.len(),
{
    if cmds.len() == 0 {
        item_uis
    } else {
        applied_commands(
            items,
            slot_uis,
            apply_one_command(items, slot_uis, item_uis, cmds[0]),
            cmds.subrange(1, cmds.len() as int),
        )
    }
}

/// One more command at the end of a batch applies to the batch's result.
proof fn lemma_applied_commands_snoc(
    items: Items,
    slot_uis: Seq<Option<SlotUi>>,
    item_uis: Seq<Option<ItemUi>>,
    cmds: Seq<Command>,
    c: Command,
)
    ensures
        applied_commands(items, slot_uis, item_uis, cmds.push(c)) == apply_one_command(
            items,
            slot_uis,
            applied_commands(items, slot_uis, item_uis, cmds),
            c,
        ),
    decreases cmds.len(),
{
    if cmds.len() == 0 {
        assert(cmds.push(c)[0] == c);
        assert(cmds.push(c).subrange(1, 1) =~= Seq::<Command>::empty());
        assert(applied_commands(
            items,
            slot_uis,
            apply_one_command(items, slot_uis, item_uis, c),
            Seq::<Command>::empty(),
        ) == apply_one_command(items, slot_uis, item_uis, c));
    } else {
        assert(cmds.push(c)[0] == cmds[0]);
        assert(cmds.push(c).subrange(1, cmds.len() as int + 1) =~= cmds.subrange(
            1,
            cmds.len() as int,
        ).push(c));
        lemma_applied_commands_snoc(
            items,
            slot_uis,
            apply_one_command(items, slot_uis, item_uis, cmds[0]),
            cmds.subrange(1, cmds.len() as int),
            c,
        );
    }
}

/// Applies a drained cascade's structural commands in one deferred batch:
/// exactly the fold of `apply_one_command` over the batch, so every named
/// item view is despawned, every queued rebuild under a surviving slot view
/// appends its resolved item view in command order, and nothing else in the
/// world changes.
pub fn apply_commands(w: &mut World, cmds: Vec<Command>)
    ensures
        final(w).items == old(w).items,
        final(w).log == old(w).log,
        final(w).inventories == old(w).inventories,
        final(w).carries == old(w).carries,
        final(w).inventory_uis == old(w).inventory_uis,
        final(w).slot_uis == old(w).slot_uis,
        final(w).item_uis@ == applied_commands(
            old(w).items,
            old(w).slot_uis@,
            old(w).item_uis@,
            cmds@,
        ),
        old(w).item_uis@.len() <= final(w).item_uis@.len(),
        forall|t: int|
            #![trigger old(w).item_uis@[t]]
            0 <= t < old(w).item_uis@.len() ==> final(w).item_uis@[t] == old(w).item_uis@[t]
                || final(w).item_uis@[t] is None,
        forall|n: int|
            0 <= n < cmds@.len() ==> ((#[trigger] cmds@[n]) matches Command::DespawnItemUi { view }
                ==> (view.0 < old(w).item_uis@.len() ==> final(w).item_uis@[view.0 as int] is None)),
        forall|t: int|
            #![trigger old(w).item_uis@[t]]
            0 <= t < old(w).item_uis@.len() && (forall|n: int|
                0 <= n < cmds@.len() ==> (#[trigger] cmds@[n]) != (Command::DespawnItemUi {
                    view: EntityId(t as usize),
                })) ==> final(w).item_uis@[t] == old(w).item_uis@[t],
        forall|t: int|
            #![trigger final(w).item_uis@[t]]
            old(w).item_uis@.len() <= t < final(w).item_uis@.len() ==> final(w).item_uis@[t] is None
                || exists|n: int|
                0 <= n < cmds@.len() && ((#[trigger] cmds@[n]) matches Command::SpawnItemUi {
                    parent,
                    item,
                } && old(w).slot_live(parent.0 as int) && final(w).item_uis@[t] == built_item_view(
                    old(w).items,
                    parent,
                    Some(item),
                )),
{
    let mut n: usize = 0;
    while n < cmds.len()
        invariant
            n <= cmds@.len(),
            w.items == old(w).items,
            w.log == old(w).log,
            w.inventories == old(w).inventories,
            w.carries == old(w).carries,
            w.inventory_uis == old(w).inventory_uis,
            w.slot_uis == old(w).slot_uis,
            w.item_uis@ == applied_commands(
                old(w).items,
                old(w).slot_uis@,
                old(w).item_uis@,
                cmds@.subrange(0, n as int),
            ),
            old(w).item_uis@.len() <= w.item_uis@.len(),
            forall|t: int|
                #![trigger old(w).item_uis@[t]]
                0 <= t < old(w).item_uis@.len() ==> w.item_uis@[t] == old(w).item_uis@[t]
                    || w.item_uis@[t] is None,
            forall|m: int|
                0 <= m < n ==> ((#[trigger] cmds@[m]) matches Command::DespawnItemUi { view } ==> (
                view.0 < old(w).item_uis@.len() ==> w.item_uis@[view.0 as int] is None)),
            forall|t: int|
                #![trigger old(w).item_uis@[t]]
                0 <= t < old(w).item_uis@.len() && (forall|m: int|
                    0 <= m < n ==> (#[trigger] cmds@[m]) != (Command::DespawnItemUi {
                        view: EntityId(t as usize),
                    })) ==> w.item_uis@[t] == old(w).item_uis@[t],
            forall|t: int|
                #![trigger w.item_uis@[t]]
                old(w).item_uis@.len() <= t < w.item_uis@.len() ==> w.item_uis@[t] is None
                    || exists|m: int|
                    0 <= m < n && ((#[trigger] cmds@[m]) matches Command::SpawnItemUi {
                        parent,
                        item,
                    } && old(w).slot_live(parent.0 as int) && w.item_uis@[t] == built_item_view(
                        old(w).items,
                        parent,
                        Some(item),
                    )),
        decreases cmds@.len() - n,
    {
        let ghost w_step = *w;
        let cmd = cmds[n];
        match cmd {
            Command::DespawnItemUi { view } => {
                if view.0 < w.item_uis.len() {
                    w.item_uis[view.0] = None;
                }
            },
            Command::SpawnItemUi { parent, item } => {
                let parent_live = parent.0 < w.slot_uis.len() && w.slot_uis[parent.0].is_some();
                if parent_live {
                    let _spawned = spawn_item(w, parent, item);
                }
            },
        }
        proof {
            assert(cmds@.subrange(0, n + 1) =~= cmds@.subrange(0, n as int).push(cmds@[n as int]));
            lemma_applied_commands_snoc(
                old(w).items,
                old(w).slot_uis@,
                old(w).item_uis@,
                cmds@.subrange(0, n as int),
                cmds@[n as int],
            );
            assert(w.item_uis@ == apply_one_command(
                old(w).items,
                old(w).slot_uis@,
                w_step.item_uis@,
                cmds@[n as int],
            ));
        }
        n = n + 1;
    }
    proof {
        assert(cmds@.subrange(0, cmds@.len() as int) =~= cmds@);
    }
}

/// The event `e` was recorded while the log grew from `w0`'s to `w1`'s.
pub open spec fn logged_since(w0: World, w1: World, e: Event) -> bool {
    exists|n: int| w0.log@.len() <= n < w1.log@.len() && #[trigger] w1.log@[n] == e
}

/// A recorded event stays recorded while the log grows.
pub proof fn lemma_logged_since_extends(w0: World, w1: World, w2: World, e: Event)
    requires
        logged_since(w0, w1, e),
        w1.log@.is_prefix_of(w2.log@),
    ensures
        logged_since(w0, w2, e),
{
    let n = choose|n: int| w0.log@.len() <= n < w1.log@.len() && #[trigger] w1.log@[n] == e;
    lemma_prefix_index(w1.log@, w2.log@, n);
    assert(w2.log@[n] == e);
}

/// How many rows of the visited table are still unvisited.
pub open spec fn count_unvisited(s: Seq<bool>) -> nat
    decreases s.len(),
{
    if s.len() == 0 {
        0
    } else {
        count_unvisited(s.drop_last()) + if s.last() {
            0nat
        } else {
            1nat
        }
    }
}

/// Marking an unvisited row strictly shrinks the unvisited count.
pub proof fn lemma_count_unvisited_mark(s: Seq<bool>, i: int)
    requires
        0 <= i < s.len(),
        !s[i],
    ensures
        count_unvisited(s.update(i, true)) < count_unvisited(s),
    decreases s.len(),
{
    if i == s.len() - 1 {
        assert(s.update(i, true).drop_last() =~= s.drop_last());
    } else {
        assert(s.update(i, true).drop_last() =~= s.drop_last().update(i, true));
        lemma_count_unvisited_mark(s.drop_last(), i);
    }
}

/// The item `x` was fully processed by an `ItemChanged` cascade running
/// since `w0`: every live item whose template link points at `x` is marked
/// in the visited table, and every slot view showing `x` received a
/// `SlotChanged` notification.
pub open spec fn cascade_processed(w0: World, w1: World, x: EntityId, visited: Seq<bool>) -> bool {
    &&& (forall|d: int|
        0 <= d < visited.len() && w0.items.is_item(EntityId(d as usize)) && (#[trigger] w0.items.template_of(
            EntityId(d as usize),
        )) == Some(x) ==> visited[d])
    &&& (forall|v: int|
        w0.slot_live(v) && (#[trigger] w0.slot_ui(v)).data == Some(x) ==> logged_since(
            w0,
            w1,
            (Event::SlotChanged { view: EntityId(v as usize), content: Some(x) }),
        ))
}

/// An element of a prefix stands at the same place in the whole sequence.
pub proof fn lemma_prefix_index<T>(s1: Seq<T>, s2: Seq<T>, i: int)
    requires
        s1.is_prefix_of(s2),
        0 <= i < s1.len(),
    ensures
        s2[i] == s1[i],
{
    assert(s2.subrange(0, s1.len() as int)[i] == s1[i]);
}

/// Compares two slot contents.
pub fn same_content(a: Option<EntityId>, b: Option<EntityId>) -> (r: bool)
    ensures
        r == (a == b),
{
    match (a, b) {
        (None, None) => true,
        (Some(x), Some(y)) => x == y,
        _ => false,
    }
}

/// Handles `SlotChanged(view, content)`: updates the view's cached content,
/// queues the despawn of every item view under it and, if there is new
/// content, queues a fresh item view for it.
pub fn slot_changed(
    w: &mut World,
    view: EntityId,
    content: Option<EntityId>,
    cmds: &mut Vec<Command>,
) -> (r: Result<(), ModelError>)
    ensures
        match r {
            Ok(()) => {
                &&& old(w).slot_live(view.0 as int)
                &&& final(w).slot_uis@ == old(w).slot_uis@.update(
                    view.0 as int,
                    Some(
                        SlotUi {
                            data: content,
                            inventory: old(w).slot_ui(view.0 as int).inventory,
                            index: old(w).slot_ui(view.0 as int).index,
                        },
                    ),
                )
                &&& final(w).items == old(w).items
                &&& final(w).inventories == old(w).inventories
                &&& final(w).inventory_uis == old(w).inventory_uis
                &&& final(w).item_uis == old(w).item_uis
                &&& final(w).carries == old(w).carries
                &&& final(w).log == old(w).log
                &&& old(cmds)@.is_prefix_of(final(cmds)@)
                &&& forall|n: int|
                    old(cmds)@.len() <= n < final(cmds)@.len() ==> rebuild_command(
                        *old(w),
                        view,
                        content,
                        #[trigger] final(cmds)@[n],
                    )
                &&& forall|t: int|
                    old(w).item_ui_live(t) && (#[trigger] old(w).item_ui(t)).parent == view
                        ==> final(cmds)@.contains(
                        (Command::DespawnItemUi { view: EntityId(t as usize) }),
                    )
                &&& (content matches Some(item) ==> final(cmds)@.contains(
                    (Command::SpawnItemUi { parent: view, item }),
                ))
            },
            Err(err) => {
                &&& err == ModelError::EntityNotFound
                &&& !old(w).slot_live(view.0 as int)
                &&& *final(w) == *old(w)
                &&& final(cmds)@ == old(cmds)@
            },
        },
{
    if view.0 >= w.slot_uis.len() || w.slot_uis[view.0].is_none() {
        return Err(ModelError::EntityNotFound);
    }
    let (inventory, index) = {
        let su = w.slot_uis[view.0].as_ref().unwrap();
        (su.inventory, su.index)
    };
    w.slot_uis[view.0] = Some(SlotUi { data: content, inventory, index });
    let ghost base = cmds@.len();
    let mut t: usize = 0;
    while t < w.item_uis.len()
        invariant
            w.item_uis == old(w).item_uis,
            base <= cmds@.len(),
            cmds@.subrange(0, base as int) == old(cmds)@,
            t <= w.item_uis@.len(),
            forall|n: int|
                base <= n < cmds@.len() ==> rebuild_command(
                    *old(w),
                    view,
                    content,
                    #[trigger] cmds@[n],
                ),
            forall|k: int|
                0 <= k < t && old(w).item_ui_live(k) && (#[trigger] old(w).item_ui(k)).parent
                    == view ==> cmds@.contains(
                    (Command::DespawnItemUi { view: EntityId(k as usize) }),
                ),
        decreases w.item_uis@.len() - t,
    {
        match &w.item_uis[t] {
            Some(iu) => {
                if iu.parent == view {
                    cmds.push(Command::DespawnItemUi { view: EntityId(t) });
                }
            },
            None => {},
        }
        t = t + 1;
    }
    match content {
        Some(item) => {
            cmds.push(Command::SpawnItemUi { parent: view, item });
        },
        None => {},
    }
    Ok(())
}

/// Emits `SlotChanged(view, content)`: records the event in the log and
/// runs the slot-view handler.
pub(crate) fn emit_slot_changed(
    w: &mut World,
    view: EntityId,
    content: Option<EntityId>,
    cmds: &mut Vec<Command>,
)
    requires
        old(w).slot_live(view.0 as int),
    ensures
        final(w).slot_uis@ == old(w).slot_uis@.update(
            view.0 as int,
            Some(
                SlotUi {
                    data: content,
                    inventory: old(w).slot_ui(view.0 as int).inventory,
                    index: old(w).slot_ui(view.0 as int).index,
                },
            ),
        ),
        final(w).items == old(w).items,
        final(w).inventories == old(w).inventories,
        final(w).inventory_uis == old(w).inventory_uis,
        final(w).item_uis == old(w).item_uis,
        final(w).carries == old(w).carries,
        final(w).log@ == old(w).log@.push(Event::SlotChanged { view, content }),
        old(cmds)@.is_prefix_of(final(cmds)@),
        forall|n: int|
            old(cmds)@.len() <= n < final(cmds)@.len() ==> rebuild_command(
                *old(w),
                view,
                content,
                #[trigger] final(cmds)@[n],
            ),
        forall|t: int|
            old(w).item_ui_live(t) && (#[trigger] old(w).item_ui(t)).parent == view
                ==> final(cmds)@.contains((Command::DespawnItemUi { view: EntityId(t as usize) })),
        content matches Some(item) ==> final(cmds)@.contains(
            (Command::SpawnItemUi { parent: view, item }),
        ),
{
    w.log.push(Event::SlotChanged { view, content });
    let ghost w1 = *w;
    let r = slot_changed(w, view, content, cmds);
    proof {
        assert(r is Ok);
        assert forall|t: int|
            old(w).item_ui_live(t) && (#[trigger] old(w).item_ui(t)).parent
                == view implies cmds@.contains(
            (Command::DespawnItemUi { view: EntityId(t as usize) }),
        ) by {
            assert(w1.item_ui_live(t) && w1.item_ui(t).parent == view);
        }
    }
}

/// Handles `InventoryChanged(inventory)`: re-derives the expected content of
/// every slot view bound to the target inventory and emits `SlotChanged` at
/// each view whose cached content differs from the inventory's current
/// content. Once it returns, no view of `inventory` is stale.
pub fn inventory_changed(w: &mut World, inventory: EntityId, cmds: &mut Vec<Command>) -> (r: Result<
    (),
    ModelError,
>)
    ensures
        match r {
            Ok(()) => {
                &&& old(w).inv_live(inventory)
                &&& final(w).items == old(w).items
                &&& final(w).inventories == old(w).inventories
                &&& final(w).inventory_uis == old(w).inventory_uis
                &&& final(w).item_uis == old(w).item_uis
                &&& final(w).carries == old(w).carries
                &&& final(w).slot_uis@.len() == old(w).slot_uis@.len()
                &&& forall|v: int|
                    0 <= v < old(w).slot_uis@.len() ==> updated_view(
                        *old(w),
                        *final(w),
                        inventory,
                        v,
                    )
                &&& final(w).views_synced_for(inventory)
                &&& old(w).log@.is_prefix_of(final(w).log@)
                &&& slot_events_from(*old(w), *final(w), old(w).log@.len() as int, inventory)
                &&& forall|n: int|
                    old(w).log@.len() <= n < final(w).log@.len()
                        ==> ((#[trigger] final(w).log@[n]) matches Event::SlotChanged {
                        view,
                        content,
                    } ==> view_stale(*old(w), inventory, view.0 as int) && final(w).log@[n]
                        == stale_view_event(*old(w), inventory, view.0 as int))
                &&& forall|v: int|
                    #![trigger old(w).slot_uis@[v]]
                    0 <= v < old(w).slot_uis@.len() && view_stale(*old(w), inventory, v)
                        ==> logged_since(
                        *old(w),
                        *final(w),
                        stale_view_event(*old(w), inventory, v),
                    )
                &&& old(cmds)@.is_prefix_of(final(cmds)@)
                &&& propagation_commands_from(
                    *old(w),
                    inventory,
                    final(cmds)@,
                    old(cmds)@.len() as int,
                )
            },
            Err(err) => {
                &&& err == ModelError::EntityNotFound
                &&& !old(w).inv_live(inventory)
                &&& *final(w) == *old(w)
                &&& final(cmds)@ == old(cmds)@
            },
        },
{
    if !w.inventory_live(inventory) {
        return Err(ModelError::EntityNotFound);
    }
    let n_views = w.slot_uis.len();
    let mut v: usize = 0;
    while v < n_views
        invariant
            v <= n_views,
            n_views == old(w).slot_uis@.len(),
            old(w).inv_live(inventory),
            w.items == old(w).items,
            w.inventories == old(w).inventories,
            w.inventory_uis == old(w).inventory_uis,
            w.item_uis == old(w).item_uis,
            w.carries == old(w).carries,
            w.slot_uis@.len() == old(w).slot_uis@.len(),
            forall|k: int| 0 <= k < v ==> updated_view(*old(w), *w, inventory, k),
            forall|k: int| v <= k < n_views ==> w.slot_uis@[k] == old(w).slot_uis@[k],
            old(w).log@.is_prefix_of(w.log@),
            slot_events_from(*old(w), *w, old(w).log@.len() as int, inventory),
            forall|n: int|
                old(w).log@.len() <= n < w.log@.len() ==> ((#[trigger] w.log@[n])
                    matches Event::SlotChanged { view, content } ==> view_stale(
                    *old(w),
                    inventory,
                    view.0 as int,
                ) && w.log@[n] == stale_view_event(*old(w), inventory, view.0 as int)),
            forall|k: int|
                #![trigger old(w).slot_uis@[k]]
                0 <= k < v && view_stale(*old(w), inventory, k) ==> logged_since(
                    *old(w),
                    *w,
                    stale_view_event(*old(w), inventory, k),
                ),
            old(cmds)@.is_prefix_of(cmds@),
            propagation_commands_from(*old(w), inventory, cmds@, old(cmds)@.len() as int),
        decreases n_views - v,
    {
        let ghost w_iter = *w;
        let su_opt = w.slot_uis[v];
        match su_opt {
            Some(su) => {
                if su.inventory == inventory {
                    let inv_len = w.inventories[inventory.0].as_ref().unwrap().len();
                    if su.index < inv_len {
                        let content = w.inventories[inventory.0].as_ref().unwrap().0[su.index];
                        if !same_content(su.data, content) {
                            let ghost w_pre = *w;
                            let ghost cmds_pre = cmds@;
                            let ghost log_pre = w.log@;
                            emit_slot_changed(w, EntityId(v), content, cmds);
                            proof {
                                lemma_prefix_transfer(old(cmds)@, cmds_pre, cmds@);
                                lemma_prefix_transfer(old(w).log@, log_pre, w.log@);
                                assert forall|n: int|
                                    old(cmds)@.len() <= n < cmds@.len() implies propagation_command(
                                    *old(w),
                                    inventory,
                                    cmds@[n],
                                ) by {
                                    if n < cmds_pre.len() {
                                        assert(cmds@.subrange(0, cmds_pre.len() as int)[n]
                                            == cmds@[n]);
                                    } else {
                                        assert(rebuild_command(
                                            w_pre,
                                            EntityId(v as usize),
                                            content,
                                            cmds@[n],
                                        ));
                                    }
                                }
                                assert forall|n: int|
                                    old(w).log@.len() <= n < w.log@.len() implies slot_event_for(
                                    *old(w),
                                    inventory,
                                    w.log@[n],
                                ) by {
                                    if n < log_pre.len() {
                                        assert(w.log@.subrange(0, log_pre.len() as int)[n]
                                            == w.log@[n]);
                                    } else {
                                        assert(w.log@[n] == Event::SlotChanged {
                                            view: EntityId(v as usize),
                                            content,
                                        });
                                    }
                                }
                                assert(view_stale(*old(w), inventory, v as int));
                                assert(w.log@[log_pre.len() as int] == stale_view_event(
                                    *old(w),
                                    inventory,
                                    v as int,
                                ));
                                assert(logged_since(
                                    *old(w),
                                    *w,
                                    stale_view_event(*old(w), inventory, v as int),
                                ));
                                assert forall|n: int|
                                    old(w).log@.len() <= n < w.log@.len() implies ((#[trigger] w.log@[n])
                                    matches Event::SlotChanged { view, content: c2 } ==> view_stale(
                                    *old(w),
                                    inventory,
                                    view.0 as int,
                                ) && w.log@[n] == stale_view_event(
                                    *old(w),
                                    inventory,
                                    view.0 as int,
                                )) by {
                                    if n < log_pre.len() {
                                        assert(w.log@.subrange(0, log_pre.len() as int)[n]
                                            == w.log@[n]);
                                    }
                                }
                                assert forall|k: int|
                                    0 <= k < v && view_stale(*old(w), inventory, k) implies logged_since(
                                    *old(w),
                                    *w,
                                    stale_view_event(*old(w), inventory, k),
                                ) by {
                                    lemma_logged_since_extends(
                                        *old(w),
                                        w_pre,
                                        *w,
                                        stale_view_event(*old(w), inventory, k),
                                    );
                                }
                                assert(updated_view(*old(w), *w, inventory, v as int));
                            }
                        } else {
                            proof {
                                assert(su == (SlotUi {
                                    data: content,
                                    inventory: su.inventory,
                                    index: su.index,
                                }));
                                assert(updated_view(*old(w), *w, inventory, v as int));
                            }
                        }
                    } else {
                        proof {
                            assert(updated_view(*old(w), *w, inventory, v as int));
                        }
                    }
                } else {
                    proof {
                        assert(updated_view(*old(w), *w, inventory, v as int));
                    }
                }
            },
            None => {
                proof {
                    assert(updated_view(*old(w), *w, inventory, v as int));
                }
            },
        }
        proof {
            assert forall|k: int| 0 <= k < v + 1 implies updated_view(*old(w), *w, inventory, k) by {
                if k < v {
                    assert(updated_view(*old(w), w_iter, inventory, k));
                    assert(w.slot_uis@[k] == w_iter.slot_uis@[k]);
                }
            }
        }
        v = v + 1;
    }
    proof {
        assert forall|view: int|
            w.slot_live(view) && (#[trigger] w.slot_ui(view)).inventory == inventory
                && w.inv_live(inventory) && w.slot_ui(view).index < w.inv_of(
                inventory,
            )@.len() implies w.slot_ui(view).data == w.inv_of(inventory)@[w.slot_ui(
                view,
            ).index as int] by {
            assert(updated_view(*old(w), *w, inventory, view));
        }
        assert(w.views_synced_for(inventory));
    }
    Ok(())
}

/// A prefix of a prefix is a prefix.
pub proof fn lemma_prefix_transfer<T>(s1: Seq<T>, s2: Seq<T>, s3: Seq<T>)
    requires
        s1.is_prefix_of(s2),
        s2.is_prefix_of(s3),
    ensures
        s1.is_prefix_of(s3),
{
    assert forall|i: int| 0 <= i < s1.len() implies s1[i] == s3.subrange(0, s1.len() as int)[i] by {
        assert(s1[i] == s2.subrange(0, s1.len() as int)[i]);
        assert(s2[i] == s3.subrange(0, s2.len() as int)[i]);
    }
    assert(s1 =~= s3.subrange(0, s1.len() as int));
}

/// Tells every slot view currently showing `x` to rebuild: a `SlotChanged`
/// carrying the unchanged content, which re-creates the item view so that
/// changed attributes become visible. The cached contents themselves do not
/// change.
fn cascade_notify_views(w: &mut World, x: EntityId, cmds: &mut Vec<Command>)
    ensures
        final(w).items == old(w).items,
        final(w).inventories == old(w).inventories,
        final(w).inventory_uis == old(w).inventory_uis,
        final(w).carries == old(w).carries,
        final(w).item_uis == old(w).item_uis,
        final(w).slot_uis@ == old(w).slot_uis@,
        old(w).log@.is_prefix_of(final(w).log@),
        forall|n: int|
            old(w).log@.len() <= n < final(w).log@.len()
                ==> ((#[trigger] final(w).log@[n]) matches Event::SlotChanged { view, content }
                && content == Some(x) && old(w).slot_live(view.0 as int) && old(w).slot_ui(
                view.0 as int,
            ).data == Some(x)),
        forall|v: int|
            old(w).slot_live(v) && (#[trigger] old(w).slot_ui(v)).data == Some(x) ==> logged_since(
                *old(w),
                *final(w),
                (Event::SlotChanged { view: EntityId(v as usize), content: Some(x) }),
            ),
{
    let n_views = w.slot_uis.len();
    let mut v: usize = 0;
    while v < n_views
        invariant
            v <= n_views,
            n_views == old(w).slot_uis@.len(),
            w.items == old(w).items,
            w.inventories == old(w).inventories,
            w.inventory_uis == old(w).inventory_uis,
            w.carries == old(w).carries,
            w.item_uis == old(w).item_uis,
            w.slot_uis@ == old(w).slot_uis@,
            old(w).log@.is_prefix_of(w.log@),
            forall|n: int|
                old(w).log@.len() <= n < w.log@.len() ==> ((#[trigger] w.log@[n])
                    matches Event::SlotChanged { view, content } && content == Some(x) && old(
                    w,
                ).slot_live(view.0 as int) && old(w).slot_ui(view.0 as int).data == Some(x)),
            forall|k: int|
                0 <= k < v && old(w).slot_live(k) && (#[trigger] old(w).slot_ui(k)).data == Some(x)
                    ==> logged_since(
                    *old(w),
                    *w,
                    (Event::SlotChanged { view: EntityId(k as usize), content: Some(x) }),
                ),
        decreases n_views - v,
    {
        let su_opt = w.slot_uis[v];
        match su_opt {
            Some(su) => {
                let shows = match su.data {
                    Some(shown) => shown == x,
                    None => false,
                };
                if shows {
                    let ghost w_pre = *w;
                    emit_slot_changed(w, EntityId(v), Some(x), cmds);
                    proof {
                        assert(su == (SlotUi {
                            data: Some(x),
                            inventory: su.inventory,
                            index: su.index,
                        }));
                        assert(w.slot_uis@ =~= w_pre.slot_uis@);
                        assert(w.log@[w_pre.log@.len() as int] == (Event::SlotChanged {
                            view: EntityId(v),
                            content: Some(x),
                        }));
                        assert(logged_since(
                            *old(w),
                            *w,
                            (Event::SlotChanged { view: EntityId(v), content: Some(x) }),
                        ));
                        assert forall|k: int|
                            0 <= k < v && old(w).slot_live(k) && (#[trigger] old(w).slot_ui(
                                k,
                            )).data == Some(x) implies logged_since(
                            *old(w),
                            *w,
                            (Event::SlotChanged { view: EntityId(k as usize), content: Some(x) }),
                        ) by {
                            lemma_logged_since_extends(
                                *old(w),
                                w_pre,
                                *w,
                                (Event::SlotChanged {
                                    view: EntityId(k as usize),
                                    content: Some(x),
                                }),
                            );
                        }
                    }
                }
            },
            None => {},
        }
        v = v + 1;
    }
}

/// Marks every not-yet-visited live item whose template link points at `x`,
/// records its `ItemChanged` notification, and queues it for processing.
fn cascade_mark_dependents(
    w: &mut World,
    x: EntityId,
    visited: &mut Vec<bool>,
    stack: &mut Vec<EntityId>,
)
    requires
        old(visited)@.len() == old(w).items@.len(),
    ensures
        final(w).items == old(w).items,
        final(w).inventories == old(w).inventories,
        final(w).inventory_uis == old(w).inventory_uis,
        final(w).carries == old(w).carries,
        final(w).item_uis == old(w).item_uis,
        final(w).slot_uis == old(w).slot_uis,
        old(w).log@.is_prefix_of(final(w).log@),
        final(visited)@.len() == old(visited)@.len(),
        forall|d: int|
            0 <= d < old(visited)@.len() && old(visited)@[d] ==> #[trigger] final(visited)@[d],
        forall|d: int|
            #![trigger final(visited)@[d]]
            0 <= d < old(visited)@.len() && !old(visited)@[d] && final(visited)@[d] ==> old(
                w,
            ).items.is_item(EntityId(d as usize)) && old(w).items.template_of(EntityId(d as usize))
                == Some(x) && logged_since(
                *old(w),
                *final(w),
                (Event::ItemChanged { item: EntityId(d as usize) }),
            ) && final(stack)@.contains(EntityId(d as usize)),
        forall|d: int|
            0 <= d < old(visited)@.len() && old(w).items.is_item(EntityId(d as usize)) && (
            #[trigger] old(w).items.template_of(EntityId(d as usize))) == Some(x)
                ==> final(visited)@[d],
        forall|n: int|
            #![trigger final(w).log@[n]]
            old(w).log@.len() <= n < final(w).log@.len() ==> final(w).log@[n] is ItemChanged && {
                let dd = final(w).log@[n]->ItemChanged_item;
                dd.0 < old(visited)@.len() && !old(visited)@[dd.0 as int]
                    && final(visited)@[dd.0 as int]
            },
        forall|n1: int, n2: int|
            old(w).log@.len() <= n1 < n2 < final(w).log@.len() ==> (#[trigger] final(w).log@[n1])
                != (#[trigger] final(w).log@[n2]),
        old(stack)@.is_prefix_of(final(stack)@),
        forall|n: int|
            #![trigger final(stack)@[n]]
            old(stack)@.len() <= n < final(stack)@.len() ==> final(stack)@[n].0
                < old(visited)@.len() && !old(visited)@[final(stack)@[n].0 as int]
                && final(visited)@[final(stack)@[n].0 as int] && logged_since(
                *old(w),
                *final(w),
                (Event::ItemChanged { item: final(stack)@[n] }),
            ),
        count_unvisited(final(visited)@) <= count_unvisited(old(visited)@),
        final(stack)@.len() > old(stack)@.len() ==> count_unvisited(final(visited)@)
            < count_unvisited(old(visited)@),
{
    let n_items = w.items.len();
    let mut d: usize = 0;
    while d < n_items
        invariant
            d <= n_items,
            n_items == old(w).items@.len(),
            old(visited)@.len() == n_items,
            w.items == old(w).items,
            w.inventories == old(w).inventories,
            w.inventory_uis == old(w).inventory_uis,
            w.carries == old(w).carries,
            w.item_uis == old(w).item_uis,
            w.slot_uis == old(w).slot_uis,
            old(w).log@.is_prefix_of(w.log@),
            visited@.len() == n_items,
            forall|k: int| 0 <= k < n_items && old(visited)@[k] ==> #[trigger] visited@[k],
            forall|k: int|
                #![trigger visited@[k]]
                0 <= k < n_items && !old(visited)@[k] && visited@[k] ==> old(w).items.is_item(
                    EntityId(k as usize),
                ) && old(w).items.template_of(EntityId(k as usize)) == Some(x) && logged_since(
                    *old(w),
                    *w,
                    (Event::ItemChanged { item: EntityId(k as usize) }),
                ) && stack@.contains(EntityId(k as usize)),
            forall|k: int|
                0 <= k < d && old(w).items.is_item(EntityId(k as usize)) && (#[trigger] old(
                    w,
                ).items.template_of(EntityId(k as usize))) == Some(x) ==> visited@[k],
            forall|n: int|
                #![trigger w.log@[n]]
                old(w).log@.len() <= n < w.log@.len() ==> w.log@[n] is ItemChanged && {
                    let dd = w.log@[n]->ItemChanged_item;
                    dd.0 < n_items && !old(visited)@[dd.0 as int] && visited@[dd.0 as int]
                },
            forall|n1: int, n2: int|
                old(w).log@.len() <= n1 < n2 < w.log@.len() ==> (#[trigger] w.log@[n1]) != (
                #[trigger] w.log@[n2]),
            old(stack)@.is_prefix_of(stack@),
            forall|n: int|
                #![trigger stack@[n]]
                old(stack)@.len() <= n < stack@.len() ==> stack@[n].0 < n_items && !old(
                    visited,
                )@[stack@[n].0 as int] && visited@[stack@[n].0 as int] && logged_since(
                    *old(w),
                    *w,
                    (Event::ItemChanged { item: stack@[n] }),
                ),
            count_unvisited(visited@) <= count_unvisited(old(visited)@),
            stack@.len() > old(stack)@.len() ==> count_unvisited(visited@) < count_unvisited(
                old(visited)@,
            ),
        decreases n_items - d,
    {
        let dep = match w.items.get_template(EntityId(d)) {
            Ok(t) => t,
            Err(_) => None,
        };
        let points_here = match dep {
            Some(t) => t == x,
            None => false,
        };
        if points_here && !visited[d] {
            let ghost visited_pre = visited@;
            let ghost w_pre = *w;
            let ghost stack_pre = stack@;
            visited[d] = true;
            w.log.push(Event::ItemChanged { item: EntityId(d) });
            stack.push(EntityId(d));
            proof {
                lemma_count_unvisited_mark(visited_pre, d as int);
                assert(w.log@[w_pre.log@.len() as int] == (Event::ItemChanged {
                    item: EntityId(d),
                }));
                assert(logged_since(*old(w), *w, (Event::ItemChanged { item: EntityId(d) })));
                assert forall|k: int|
                    0 <= k < n_items && !old(visited)@[k] && visited@[k] implies old(
                    w,
                ).items.is_item(EntityId(k as usize)) && old(w).items.template_of(
                    EntityId(k as usize),
                ) == Some(x) && logged_since(
                    *old(w),
                    *w,
                    (Event::ItemChanged { item: EntityId(k as usize) }),
                ) && stack@.contains(EntityId(k as usize)) by {
                    if k != d {
                        assert(visited_pre[k]);
                        let n = choose|n: int|
                            old(w).log@.len() <= n < w_pre.log@.len() && #[trigger] w_pre.log@[n]
                                == (Event::ItemChanged { item: EntityId(k as usize) });
                        assert(w.log@[n] == (Event::ItemChanged { item: EntityId(k as usize) }));
                        let m = choose|m: int|
                            0 <= m < stack_pre.len() && stack_pre[m] == EntityId(k as usize);
                        assert(stack@[m] == EntityId(k as usize));
                    } else {
                        assert(stack@.last() == EntityId(k as usize));
                    }
                }
                assert forall|n: int|
                    old(stack)@.len() <= n < stack@.len() implies (#[trigger] stack@[n]).0
                    < n_items && !old(visited)@[stack@[n].0 as int] && visited@[stack@[n].0 as int]
                    && logged_since(*old(w), *w, (Event::ItemChanged { item: stack@[n] })) by {
                    if n < stack_pre.len() {
                        let e = stack_pre[n];
                        let m = choose|m: int|
                            old(w).log@.len() <= m < w_pre.log@.len() && #[trigger] w_pre.log@[m]
                                == (Event::ItemChanged { item: e });
                        assert(w.log@[m] == (Event::ItemChanged { item: e }));
                    }
                }
            }
        }
        d = d + 1;
    }
}

/// Handles `ItemChanged(item)`: every slot view currently showing the item
/// is told to rebuild its item view (its cached content does not change),
/// and the notification cascades through the inverse template edges to
/// every item that derives from a notified one — each transitive dependent
/// is visited exactly once, so the cascade ends even on damaged template
/// data. The deferred view rebuilds are applied before returning.
pub fn item_changed(w: &mut World, item: EntityId)
    ensures
        final(w).items == old(w).items,
        final(w).inventories == old(w).inventories,
        final(w).inventory_uis == old(w).inventory_uis,
        final(w).carries == old(w).carries,
        final(w).slot_uis@ == old(w).slot_uis@,
        old(w).log@.is_prefix_of(final(w).log@),
        old(w).item_uis@.len() <= final(w).item_uis@.len(),
        forall|t: int|
            #![trigger old(w).item_uis@[t]]
            0 <= t < old(w).item_uis@.len() ==> final(w).item_uis@[t] == old(w).item_uis@[t]
                || final(w).item_uis@[t] is None,
        logged_since(*old(w), *final(w), (Event::ItemChanged { item })),
        forall|x: EntityId, d: int|
            #![trigger logged_since(*old(w), *final(w), (Event::ItemChanged { item: x })), old(w).items.template_of(EntityId(d as usize))]
            logged_since(*old(w), *final(w), (Event::ItemChanged { item: x })) && 0 <= d < old(
                w,
            ).items@.len() && old(w).items.is_item(EntityId(d as usize)) && old(
                w,
            ).items.template_of(EntityId(d as usize)) == Some(x) ==> logged_since(
                *old(w),
                *final(w),
                (Event::ItemChanged { item: EntityId(d as usize) }),
            ),
        forall|x: EntityId, v: int|
            #![trigger logged_since(*old(w), *final(w), (Event::ItemChanged { item: x })), old(w).slot_ui(v)]
            logged_since(*old(w), *final(w), (Event::ItemChanged { item: x })) && old(w).slot_live(
                v,
            ) && old(w).slot_ui(v).data == Some(x) ==> logged_since(
                *old(w),
                *final(w),
                (Event::SlotChanged { view: EntityId(v as usize), content: Some(x) }),
            ),
        forall|n: int|
            old(w).log@.len() <= n < final(w).log@.len() ==> ((#[trigger] final(w).log@[n])
                matches Event::SlotChanged { view, content } ==> (old(w).slot_live(view.0 as int)
                && old(w).slot_ui(view.0 as int).data == content && content is Some
                && logged_since(
                *old(w),
                *final(w),
                (Event::ItemChanged { item: content.unwrap() }),
            ))),
        forall|n1: int, n2: int|
            old(w).log@.len() <= n1 < n2 < final(w).log@.len()
                ==> !((#[trigger] final(w).log@[n1]) is ItemChanged
                && (#[trigger] final(w).log@[n2]) == final(w).log@[n1]),
{
    let mut cmds: Vec<Command> = Vec::new();
    let n_items = w.items.len();
    let mut visited: Vec<bool> = Vec::new();
    let mut i: usize = 0;
    while i < n_items
        invariant
            i <= n_items,
            visited@.len() == i,
            forall|k: int| 0 <= k < i ==> !(#[trigger] visited@[k]),
        decreases n_items - i,
    {
        visited.push(false);
        i = i + 1;
    }
    let mut stack: Vec<EntityId> = Vec::new();
    if item.0 < n_items {
        visited[item.0] = true;
    }
    w.log.push(Event::ItemChanged { item });
    stack.push(item);
    proof {
        assert(w.log@[old(w).log@.len() as int] == (Event::ItemChanged { item }));
        assert(logged_since(*old(w), *w, (Event::ItemChanged { item })));
    }
    while stack.len() > 0
        invariant
            visited@.len() == n_items,
            n_items == old(w).items@.len(),
            item.0 < n_items ==> visited@[item.0 as int],
            w.items == old(w).items,
            w.inventories == old(w).inventories,
            w.inventory_uis == old(w).inventory_uis,
            w.carries == old(w).carries,
            w.item_uis == old(w).item_uis,
            w.slot_uis@ == old(w).slot_uis@,
            old(w).log@.is_prefix_of(w.log@),
            logged_since(*old(w), *w, (Event::ItemChanged { item })),
            forall|n: int|
                0 <= n < stack@.len() ==> logged_since(
                    *old(w),
                    *w,
                    (Event::ItemChanged { item: #[trigger] stack@[n] }),
                ),
            forall|x: EntityId|
                #![trigger logged_since(*old(w), *w, (Event::ItemChanged { item: x }))]
                logged_since(*old(w), *w, (Event::ItemChanged { item: x })) ==> x == item || (x.0
                    < n_items && visited@[x.0 as int]),
            forall|dd: int|
                0 <= dd < n_items && #[trigger] visited@[dd] ==> logged_since(
                    *old(w),
                    *w,
                    (Event::ItemChanged { item: EntityId(dd as usize) }),
                ),
            forall|dd: int|
                0 <= dd < n_items && #[trigger] visited@[dd] && !stack@.contains(
                    EntityId(dd as usize),
                ) ==> cascade_processed(*old(w), *w, EntityId(dd as usize), visited@),
            !stack@.contains(item) ==> cascade_processed(*old(w), *w, item, visited@),
            forall|n: int|
                old(w).log@.len() <= n < w.log@.len() ==> ((#[trigger] w.log@[n])
                    matches Event::SlotChanged { view, content } ==> (old(w).slot_live(
                    view.0 as int,
                ) && old(w).slot_ui(view.0 as int).data == content && content is Some
                    && logged_since(*old(w), *w, (Event::ItemChanged { item: content.unwrap() })))),
            forall|n1: int, n2: int|
                old(w).log@.len() <= n1 < n2 < w.log@.len() ==> !((#[trigger] w.log@[n1])
                    is ItemChanged && (#[trigger] w.log@[n2]) == w.log@[n1]),
        decreases count_unvisited(visited@), stack@.len(),
    {
        let ghost w_it = *w;
        let ghost visited_it = visited@;
        let ghost stack_it = stack@;
        let x = match stack.pop() {
            Some(x) => x,
            None => {
                proof {
                    assert(false);
                }
                item
            },
        };
        cascade_notify_views(w, x, &mut cmds);
        let ghost w_nv = *w;
        cascade_mark_dependents(w, x, &mut visited, &mut stack);
        proof {
            lemma_prefix_transfer(old(w).log@, w_it.log@, w_nv.log@);
            lemma_prefix_transfer(old(w).log@, w_nv.log@, w.log@);
            // every previously recorded item notification persists
            assert forall|e: Event|
                logged_since(*old(w), w_it, e) implies logged_since(*old(w), *w, e) by {
                lemma_logged_since_extends(*old(w), w_it, w_nv, e);
                lemma_logged_since_extends(*old(w), w_nv, *w, e);
            }
            // every recorded slot notification aims at a view showing a
            // notified item, with the view's unchanged cached content
            assert(stack_it[stack_it.len() - 1] == x);
            assert(logged_since(*old(w), w_it, (Event::ItemChanged { item: x })));
            assert forall|n: int|
                old(w).log@.len() <= n < w.log@.len() implies ((#[trigger] w.log@[n])
                matches Event::SlotChanged { view, content } ==> (old(w).slot_live(view.0 as int)
                && old(w).slot_ui(view.0 as int).data == content && content is Some
                && logged_since(
                *old(w),
                *w,
                (Event::ItemChanged { item: content.unwrap() }),
            ))) by {
                if n < w_it.log@.len() {
                    lemma_prefix_index(w_it.log@, w_nv.log@, n);
                    lemma_prefix_index(w_nv.log@, w.log@, n);
                    match w_it.log@[n] {
                        Event::SlotChanged { view, content } => {
                            assert(logged_since(
                                *old(w),
                                w_it,
                                (Event::ItemChanged { item: content.unwrap() }),
                            ));
                        },
                        _ => {},
                    }
                } else if n < w_nv.log@.len() {
                    lemma_prefix_index(w_nv.log@, w.log@, n);
                    match w_nv.log@[n] {
                        Event::SlotChanged { view, content } => {
                            assert(content == Some(x));
                        },
                        _ => {},
                    }
                } else {
                    assert(w.log@[n] is ItemChanged);
                }
            }
            // which item notifications the log now holds
            assert forall|y: EntityId|
                #![trigger logged_since(*old(w), *w, (Event::ItemChanged { item: y }))]
                logged_since(*old(w), *w, (Event::ItemChanged { item: y })) implies y == item || (
            y.0 < n_items && visited@[y.0 as int]) by {
                let n = choose|n: int|
                    old(w).log@.len() <= n < w.log@.len() && #[trigger] w.log@[n]
                        == (Event::ItemChanged { item: y });
                if n < w_it.log@.len() {
                    lemma_prefix_index(w_it.log@, w_nv.log@, n);
                    lemma_prefix_index(w_nv.log@, w.log@, n);
                    assert(logged_since(*old(w), w_it, (Event::ItemChanged { item: y })));
                    assert(y == item || (y.0 < n_items && visited_it[y.0 as int]));
                } else if n < w_nv.log@.len() {
                    lemma_prefix_index(w_nv.log@, w.log@, n);
                    assert(w_nv.log@[n] is SlotChanged);
                    assert(false);
                } else {
                    assert(w.log@[n] is ItemChanged && {
                        let dd = w.log@[n]->ItemChanged_item;
                        dd.0 < n_items && visited@[dd.0 as int]
                    });
                }
            }
            // the stack still names only recorded notifications
            assert forall|n: int|
                0 <= n < stack@.len() implies logged_since(
                *old(w),
                *w,
                (Event::ItemChanged { item: #[trigger] stack@[n] }),
            ) by {
                if n < stack_it.len() - 1 {
                    assert(stack@.subrange(0, stack_it.len() - 1)[n] == stack@[n]);
                    assert(stack_it.drop_last()[n] == stack_it[n]);
                    assert(logged_since(*old(w), w_it, (Event::ItemChanged { item: stack_it[n] })));
                }
            }
            // every visited row is recorded
            assert forall|dd: int|
                0 <= dd < n_items && #[trigger] visited@[dd] implies logged_since(
                *old(w),
                *w,
                (Event::ItemChanged { item: EntityId(dd as usize) }),
            ) by {
                if visited_it[dd] {
                    assert(logged_since(
                        *old(w),
                        w_it,
                        (Event::ItemChanged { item: EntityId(dd as usize) }),
                    ));
                }
            }
            // x itself is now fully processed
            assert(cascade_processed(*old(w), *w, x, visited@)) by {
                assert forall|v: int|
                    old(w).slot_live(v) && (#[trigger] old(w).slot_ui(v)).data == Some(
                        x,
                    ) implies logged_since(
                    *old(w),
                    *w,
                    (Event::SlotChanged { view: EntityId(v as usize), content: Some(x) }),
                ) by {
                    assert(w_it.slot_live(v) && w_it.slot_ui(v).data == Some(x));
                    assert(logged_since(
                        w_it,
                        w_nv,
                        (Event::SlotChanged { view: EntityId(v as usize), content: Some(x) }),
                    ));
                    let n = choose|n: int|
                        w_it.log@.len() <= n < w_nv.log@.len() && #[trigger] w_nv.log@[n]
                            == (Event::SlotChanged {
                            view: EntityId(v as usize),
                            content: Some(x),
                        });
                    lemma_prefix_index(w_nv.log@, w.log@, n);
                }
            }
            // processed rows stay processed
            assert forall|dd: int|
                0 <= dd < n_items && #[trigger] visited@[dd] && !stack@.contains(
                    EntityId(dd as usize),
                ) implies cascade_processed(*old(w), *w, EntityId(dd as usize), visited@) by {
                let e = EntityId(dd as usize);
                if e == x {
                } else if !visited_it[dd] {
                    assert(stack@.contains(e));
                    assert(false);
                } else {
                    if stack_it.contains(e) {
                        let m = choose|m: int| 0 <= m < stack_it.len() && stack_it[m] == e;
                        if m < stack_it.len() - 1 {
                            assert(stack_it.drop_last()[m] == e);
                            assert(stack@.subrange(0, stack_it.len() - 1)[m] == stack@[m]);
                            assert(stack@.contains(e));
                            assert(false);
                        } else {
                            assert(e == x);
                            assert(false);
                        }
                    }
                    assert(cascade_processed(*old(w), w_it, e, visited_it));
                    assert forall|v: int|
                        old(w).slot_live(v) && (#[trigger] old(w).slot_ui(v)).data == Some(
                            e,
                        ) implies logged_since(
                        *old(w),
                        *w,
                        (Event::SlotChanged { view: EntityId(v as usize), content: Some(e) }),
                    ) by {
                        lemma_logged_since_extends(
                            *old(w),
                            w_it,
                            w_nv,
                            (Event::SlotChanged { view: EntityId(v as usize), content: Some(e) }),
                        );
                        lemma_logged_since_extends(
                            *old(w),
                            w_nv,
                            *w,
                            (Event::SlotChanged { view: EntityId(v as usize), content: Some(e) }),
                        );
                    }
                }
            }
            // and the triggering item, once off the stack, is processed too
            if !stack@.contains(item) {
                if item != x {
                    if stack_it.contains(item) {
                        let m = choose|m: int| 0 <= m < stack_it.len() && stack_it[m] == item;
                        if m < stack_it.len() - 1 {
                            assert(stack_it.drop_last()[m] == item);
                            assert(stack@.subrange(0, stack_it.len() - 1)[m] == stack@[m]);
                            assert(stack@.contains(item));
                            assert(false);
                        } else {
                            assert(item == x);
                            assert(false);
                        }
                    }
                    assert(cascade_processed(*old(w), w_it, item, visited_it));
                    assert forall|v: int|
                        old(w).slot_live(v) && (#[trigger] old(w).slot_ui(v)).data == Some(
                            item,
                        ) implies logged_since(
                        *old(w),
                        *w,
                        (Event::SlotChanged { view: EntityId(v as usize), content: Some(item) }),
                    ) by {
                        lemma_logged_since_extends(
                            *old(w),
                            w_it,
                            w_nv,
                            (Event::SlotChanged {
                                view: EntityId(v as usize),
                                content: Some(item),
                            }),
                        );
                        lemma_logged_since_extends(
                            *old(w),
                            w_nv,
                            *w,
                            (Event::SlotChanged {
                                view: EntityId(v as usize),
                                content: Some(item),
                            }),
                        );
                    }
                    assert(cascade_processed(*old(w), *w, item, visited@));
                }
            }
            // no item is notified twice
            assert forall|n1: int, n2: int|
                old(w).log@.len() <= n1 < n2 < w.log@.len() implies !((#[trigger] w.log@[n1])
                is ItemChanged && (#[trigger] w.log@[n2]) == w.log@[n1]) by {
                if n2 < w_it.log@.len() {
                    lemma_prefix_index(w_it.log@, w_nv.log@, n1);
                    lemma_prefix_index(w_it.log@, w_nv.log@, n2);
                    lemma_prefix_index(w_nv.log@, w.log@, n1);
                    lemma_prefix_index(w_nv.log@, w.log@, n2);
                } else if n2 < w_nv.log@.len() {
                    lemma_prefix_index(w_nv.log@, w.log@, n2);
                    assert(w_nv.log@[n2] is SlotChanged);
                } else {
                    if w.log@[n2] is ItemChanged {
                        let dd = w.log@[n2]->ItemChanged_item;
                        assert(!visited_it[dd.0 as int]);
                        if n1 < w_it.log@.len() {
                            lemma_prefix_index(w_it.log@, w_nv.log@, n1);
                            lemma_prefix_index(w_nv.log@, w.log@, n1);
                            if w.log@[n1] == w.log@[n2] {
                                assert(logged_since(
                                    *old(w),
                                    w_it,
                                    (Event::ItemChanged { item: dd }),
                                ));
                                assert(dd == item || visited_it[dd.0 as int]);
                                assert(false);
                            }
                        } else if n1 < w_nv.log@.len() {
                            lemma_prefix_index(w_nv.log@, w.log@, n1);
                            assert(w_nv.log@[n1] is SlotChanged);
                        }
                    }
                }
            }
        }
    }
    let ghost w_done = *w;
    apply_commands(w, cmds);
    proof {
        assert(w.log@ == w_done.log@);
        assert forall|x: EntityId|
            logged_since(*old(w), *w, (Event::ItemChanged { item: x })) implies cascade_processed(
            *old(w),
            w_done,
            x,
            visited@,
        ) by {
            assert(logged_since(*old(w), w_done, (Event::ItemChanged { item: x })));
            if x == item {
                assert(cascade_processed(*old(w), w_done, item, visited@));
            } else {
                assert(x.0 < n_items && visited@[x.0 as int]);
                assert(EntityId(x.0 as usize) == x);
                assert(cascade_processed(*old(w), w_done, x, visited@));
            }
        }
        assert forall|x: EntityId, d: int|
            #![trigger logged_since(*old(w), *w, (Event::ItemChanged { item: x })), old(w).items.template_of(EntityId(d as usize))]
            logged_since(*old(w), *w, (Event::ItemChanged { item: x })) && 0 <= d < old(
                w,
            ).items@.len() && old(w).items.is_item(EntityId(d as usize)) && old(
                w,
            ).items.template_of(EntityId(d as usize)) == Some(x) implies logged_since(
            *old(w),
            *w,
            (Event::ItemChanged { item: EntityId(d as usize) }),
        ) by {
            assert(cascade_processed(*old(w), w_done, x, visited@));
            assert(visited@[d]);
            assert(logged_since(*old(w), w_done, (Event::ItemChanged { item: EntityId(d as usize) })));
        }
        assert forall|x: EntityId, v: int|
            #![trigger logged_since(*old(w), *w, (Event::ItemChanged { item: x })), old(w).slot_ui(v)]
            logged_since(*old(w), *w, (Event::ItemChanged { item: x })) && old(w).slot_live(v)
                && old(w).slot_ui(v).data == Some(x) implies logged_since(
            *old(w),
            *w,
            (Event::SlotChanged { view: EntityId(v as usize), content: Some(x) }),
        ) by {
            assert(cascade_processed(*old(w), w_done, x, visited@));
            assert(logged_since(
                *old(w),
                w_done,
                (Event::SlotChanged { view: EntityId(v as usize), content: Some(x) }),
            ));
        }
    }
}

} // verus!
