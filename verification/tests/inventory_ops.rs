use item_inventory::change_propagation::Event;
use item_inventory::inventory::Inventory;
use item_inventory::items::{ItemRecord, Items};
use item_inventory::world::World;
use item_inventory::{EntityId, ModelError};

fn bare_item() -> ItemRecord {
    ItemRecord { name: None, icon: None, count: None, template: None }
}

fn spawn_item_entity(w: &mut World) -> EntityId {
    w.items.spawn(bare_item())
}

fn inventory_changed_count(w: &World, from: usize) -> usize {
    w.log[from..]
        .iter()
        .filter(|e| matches!(e, Event::InventoryChanged { .. }))
        .count()
}

#[test]
fn new_inventory_is_empty() {
    let inv = Inventory::new::<4>();
    assert_eq!(inv.len(), 4);
    for i in 0..4 {
        assert_eq!(inv.get(i), Ok(None));
    }
    assert_eq!(inv.get(4), Err(ModelError::IndexOutOfBounds));
}

#[test]
fn single_inventory_operations() {
    let mut inv = Inventory::new::<3>();
    let x = EntityId(11);
    let y = EntityId(12);
    assert_eq!(inv.put(0, x), Ok(()));
    assert_eq!(inv.put(0, y), Err(ModelError::SlotOccupied));
    assert_eq!(inv.put(2, y), Ok(()));
    assert_eq!(inv.swap(0, 1), Ok(()));
    assert_eq!(inv.get(0), Ok(None));
    assert_eq!(inv.get(1), Ok(Some(x)));
    assert_eq!(inv.take(2), Ok(Some(y)));
    assert_eq!(inv.get(2), Ok(None));
    assert_eq!(inv.swap(0, 3), Err(ModelError::IndexOutOfBounds));
    assert_eq!(inv.take(5), Err(ModelError::IndexOutOfBounds));
    assert_eq!(inv.len(), 3);
}

#[test]
fn take_and_put_round_trip() {
    let mut w = World::new();
    let x = spawn_item_entity(&mut w);
    let inv = w.spawn_inventory(Inventory::new::<3>());
    w.put(inv, 1, x).unwrap();
    assert_eq!(w.get(inv, 1), Ok(Some(x)));
    assert_eq!(w.take(inv, 1), Ok(Some(x)));
    assert_eq!(w.get(inv, 1), Ok(None));
    // taking from the now-empty slot returns nothing and emits nothing
    let base = w.log.len();
    assert_eq!(w.take(inv, 1), Ok(None));
    assert_eq!(w.log.len(), base);
}

#[test]
fn put_into_occupied_slot_is_refused() {
    let mut w = World::new();
    let x = spawn_item_entity(&mut w);
    let y = spawn_item_entity(&mut w);
    let inv = w.spawn_inventory(Inventory::new::<2>());
    w.put(inv, 0, x).unwrap();
    let base = w.log.len();
    assert_eq!(w.put(inv, 0, y), Err(ModelError::SlotOccupied));
    assert_eq!(w.get(inv, 0), Ok(Some(x)));
    assert_eq!(w.log.len(), base);
}

#[test]
fn index_and_entity_errors() {
    let mut w = World::new();
    let x = spawn_item_entity(&mut w);
    let inv = w.spawn_inventory(Inventory::new::<2>());
    assert_eq!(w.get(inv, 2), Err(ModelError::IndexOutOfBounds));
    assert_eq!(w.put(inv, 2, x), Err(ModelError::IndexOutOfBounds));
    assert_eq!(w.take(inv, 9), Err(ModelError::IndexOutOfBounds));
    let ghost_inv = EntityId(77);
    assert_eq!(w.get(ghost_inv, 0), Err(ModelError::EntityNotFound));
    assert_eq!(w.take(ghost_inv, 0), Err(ModelError::EntityNotFound));
}

#[test]
fn swap_of_slot_with_itself_changes_nothing_and_emits_nothing() {
    let mut w = World::new();
    let x = spawn_item_entity(&mut w);
    let inv = w.spawn_inventory(Inventory::new::<3>());
    w.put(inv, 0, x).unwrap();
    let base = w.log.len();
    assert_eq!(w.swap(inv, 0, 0), Ok(()));
    assert_eq!(w.get(inv, 0), Ok(Some(x)));
    assert_eq!(w.log.len(), base);
    assert_eq!(inventory_changed_count(&w, base), 0);
}

#[test]
fn swap_exchanges_two_slots_with_one_notification() {
    let mut w = World::new();
    let x = spawn_item_entity(&mut w);
    let inv = w.spawn_inventory(Inventory::new::<3>());
    w.put(inv, 0, x).unwrap();
    let base = w.log.len();
    assert_eq!(w.swap(inv, 0, 2), Ok(()));
    assert_eq!(w.get(inv, 0), Ok(None));
    assert_eq!(w.get(inv, 2), Ok(Some(x)));
    assert_eq!(inventory_changed_count(&w, base), 1);
}

#[test]
fn swap_across_moves_both_contents_with_exactly_two_notifications() {
    // Inventory A slot 0 = item X, inventory B slot 2 = item Y. After the
    // cross-inventory swap, A slot 0 = Y and B slot 2 = X, and exactly two
    // InventoryChanged events were emitted, one per inventory.
    let mut w = World::new();
    let x = spawn_item_entity(&mut w);
    let y = spawn_item_entity(&mut w);
    let a = w.spawn_inventory(Inventory::new::<2>());
    let b = w.spawn_inventory(Inventory::new::<3>());
    w.put(a, 0, x).unwrap();
    w.put(b, 2, y).unwrap();
    let base = w.log.len();
    assert_eq!(w.swap_across(a, 0, b, 2), Ok(()));
    assert_eq!(w.get(a, 0), Ok(Some(y)));
    assert_eq!(w.get(b, 2), Ok(Some(x)));
    assert_eq!(inventory_changed_count(&w, base), 2);
    assert!(w.log[base..].contains(&Event::InventoryChanged { inventory: a }));
    assert!(w.log[base..].contains(&Event::InventoryChanged { inventory: b }));
}

#[test]
fn failed_swap_across_changes_neither_inventory() {
    let mut w = World::new();
    let x = spawn_item_entity(&mut w);
    let y = spawn_item_entity(&mut w);
    let a = w.spawn_inventory(Inventory::new::<2>());
    let b = w.spawn_inventory(Inventory::new::<3>());
    w.put(a, 0, x).unwrap();
    w.put(b, 2, y).unwrap();
    let base = w.log.len();
    assert_eq!(w.swap_across(a, 0, b, 5), Err(ModelError::IndexOutOfBounds));
    assert_eq!(w.get(a, 0), Ok(Some(x)));
    assert_eq!(w.get(b, 2), Ok(Some(y)));
    assert_eq!(w.log.len(), base);
    assert_eq!(w.swap_across(a, 0, EntityId(50), 0), Err(ModelError::EntityNotFound));
    assert_eq!(w.get(a, 0), Ok(Some(x)));
}

#[test]
fn swap_across_on_one_inventory_falls_back_to_swap() {
    let mut w = World::new();
    let x = spawn_item_entity(&mut w);
    let a = w.spawn_inventory(Inventory::new::<2>());
    w.put(a, 0, x).unwrap();
    let base = w.log.len();
    assert_eq!(w.swap_across(a, 0, a, 1), Ok(()));
    assert_eq!(w.get(a, 0), Ok(None));
    assert_eq!(w.get(a, 1), Ok(Some(x)));
    assert_eq!(inventory_changed_count(&w, base), 1);
    // and the degenerate same-slot case stays a silent no-op
    let base = w.log.len();
    assert_eq!(w.swap_across(a, 1, a, 1), Ok(()));
    assert_eq!(w.get(a, 1), Ok(Some(x)));
    assert_eq!(w.log.len(), base);
}

#[test]
fn items_never_duplicate_across_operations() {
    // Exercise a chain of operations and check the exactly-one-owner
    // invariant by scanning every slot of every inventory.
    let mut w = World::new();
    let x = spawn_item_entity(&mut w);
    let y = spawn_item_entity(&mut w);
    let a = w.spawn_inventory(Inventory::new::<2>());
    let b = w.spawn_inventory(Inventory::new::<2>());
    w.put(a, 0, x).unwrap();
    w.put(b, 1, y).unwrap();
    w.swap_across(a, 0, b, 0).unwrap();
    w.swap(b, 0, 1).unwrap();
    w.take(b, 0).unwrap();
    w.put(a, 1, y).unwrap();
    let mut seen: Vec<EntityId> = Vec::new();
    for inv in [a, b] {
        for idx in 0..2 {
            if let Ok(Some(item)) = w.get(inv, idx) {
                assert!(!seen.contains(&item));
                seen.push(item);
            }
        }
    }
}
