use item_inventory::carry::{
    cancel_carry, drop_item, pickup, swap, DropOutcome, InteractionData,
};
use item_inventory::change_propagation::Event;
use item_inventory::inventory::Inventory;
use item_inventory::items::ItemRecord;
use item_inventory::tooltip::tooltip_text;
use item_inventory::views::spawn_inventory_ui;
use item_inventory::world::World;
use item_inventory::{EntityId, ModelError};

const MOUSE: u64 = 0;

fn named_item(w: &mut World, name: &str, icon: &str) -> EntityId {
    w.items.spawn(ItemRecord {
        name: Some(String::from(name)),
        icon: Some(String::from(icon)),
        count: None,
        template: None,
    })
}

#[test]
fn classification_covers_the_three_cases() {
    let a = EntityId(1);
    let b = EntityId(2);
    assert_eq!(
        InteractionData::new(a, 3, a, 3),
        InteractionData::SameSlot { inventory: a, index: 3 }
    );
    assert_eq!(
        InteractionData::new(a, 0, a, 2),
        InteractionData::SameInventory { inventory: a, index_a: 0, index_b: 2 }
    );
    assert_eq!(
        InteractionData::new(a, 0, b, 2),
        InteractionData::Different { inventory_a: a, index_a: 0, inventory_b: b, index_b: 2 }
    );
}

#[test]
fn executing_a_same_slot_interaction_is_a_no_op() {
    let mut w = World::new();
    let x = named_item(&mut w, "x", "x.png");
    let a = w.spawn_inventory(Inventory::new::<2>());
    w.put(a, 0, x).unwrap();
    let base = w.log.len();
    assert_eq!(swap(&mut w, InteractionData::new(a, 0, a, 0)), Ok(()));
    assert_eq!(w.get(a, 0), Ok(Some(x)));
    assert_eq!(w.log.len(), base);
}

#[test]
fn executing_a_cross_inventory_interaction_swaps() {
    let mut w = World::new();
    let x = named_item(&mut w, "x", "x.png");
    let a = w.spawn_inventory(Inventory::new::<2>());
    let b = w.spawn_inventory(Inventory::new::<2>());
    w.put(a, 0, x).unwrap();
    assert_eq!(swap(&mut w, InteractionData::new(a, 0, b, 1)), Ok(()));
    assert_eq!(w.get(a, 0), Ok(None));
    assert_eq!(w.get(b, 1), Ok(Some(x)));
}

#[test]
fn pickup_and_same_slot_drop_round_trip() {
    // Item X in (inv A, slot 0): the pickup creates a carry holding X and
    // notifies A, leaving slot 0 empty; dropping back onto (A, slot 0)
    // returns X and destroys the carry, with A as it was before.
    let mut w = World::new();
    let x = named_item(&mut w, "x", "x.png");
    let a = w.spawn_inventory(Inventory::new::<2>());
    w.put(a, 0, x).unwrap();
    spawn_inventory_ui(&mut w, a).unwrap();
    let before: Vec<Option<EntityId>> = vec![w.get(a, 0).unwrap(), w.get(a, 1).unwrap()];

    let base = w.log.len();
    let origin_view = w
        .slot_uis
        .iter()
        .position(|entry| entry.as_ref().is_some_and(|su| su.inventory == a && su.index == 0))
        .expect("a slot view for (a, 0)");
    let carry = pickup(&mut w, MOUSE, a, 0).unwrap().expect("a carry");
    assert_eq!(w.get(a, 0), Ok(None));
    assert!(w.log[base..].contains(&Event::InventoryChanged { inventory: a }));
    // the source's view already shows the empty slot while the item is carried
    assert_eq!(w.slot_uis[origin_view].as_ref().unwrap().data, None);
    // the carry reuses the view-mirror machinery: a one-slot inventory with
    // its own inventory and slot views
    let staging = w.carries[carry.0].as_ref().unwrap().inventory;
    assert_eq!(w.get(staging, 0), Ok(Some(x)));
    assert!(w
        .inventory_uis
        .iter()
        .any(|entry| entry.as_ref().is_some_and(|iu| iu.data == staging)));
    assert!(w
        .slot_uis
        .iter()
        .any(|entry| entry
            .as_ref()
            .is_some_and(|su| su.inventory == staging && su.data == Some(x))));

    assert_eq!(drop_item(&mut w, MOUSE, a, 0), Ok(DropOutcome::Placed));
    let after: Vec<Option<EntityId>> = vec![w.get(a, 0).unwrap(), w.get(a, 1).unwrap()];
    assert_eq!(before, after);
    assert!(w.carries[carry.0].is_none());
    assert_eq!(w.get(staging, 0), Err(ModelError::EntityNotFound));
    // the carry's views vanished with it; the origin's view shows the item
    assert!(w
        .slot_uis
        .iter()
        .all(|entry| entry.as_ref().is_none_or(|su| su.inventory != staging)));
    assert_eq!(w.slot_uis[origin_view].as_ref().unwrap().data, Some(x));
}

#[test]
fn drop_onto_occupied_slot_is_rejected() {
    // X picked up from (A, 0); a drop onto (B, 1), which holds Y, is
    // rejected: X returns to (A, 0) and Y stays at (B, 1).
    let mut w = World::new();
    let x = named_item(&mut w, "x", "x.png");
    let y = named_item(&mut w, "y", "y.png");
    let a = w.spawn_inventory(Inventory::new::<2>());
    let b = w.spawn_inventory(Inventory::new::<2>());
    w.put(a, 0, x).unwrap();
    w.put(b, 1, y).unwrap();
    pickup(&mut w, MOUSE, a, 0).unwrap().expect("a carry");
    assert_eq!(drop_item(&mut w, MOUSE, b, 1), Ok(DropOutcome::Rejected));
    assert_eq!(w.get(a, 0), Ok(Some(x)));
    assert_eq!(w.get(b, 1), Ok(Some(y)));
    assert!(w.carries.iter().all(|c| c.is_none()));
}

#[test]
fn drop_onto_empty_slot_of_another_inventory_places() {
    let mut w = World::new();
    let x = named_item(&mut w, "x", "x.png");
    let a = w.spawn_inventory(Inventory::new::<2>());
    let b = w.spawn_inventory(Inventory::new::<2>());
    w.put(a, 0, x).unwrap();
    pickup(&mut w, MOUSE, a, 0).unwrap().expect("a carry");
    assert_eq!(drop_item(&mut w, MOUSE, b, 0), Ok(DropOutcome::Placed));
    assert_eq!(w.get(a, 0), Ok(None));
    assert_eq!(w.get(b, 0), Ok(Some(x)));
}

#[test]
fn one_carry_per_pointer() {
    let mut w = World::new();
    let x = named_item(&mut w, "x", "x.png");
    let y = named_item(&mut w, "y", "y.png");
    let a = w.spawn_inventory(Inventory::new::<2>());
    w.put(a, 0, x).unwrap();
    w.put(a, 1, y).unwrap();
    pickup(&mut w, MOUSE, a, 0).unwrap().expect("a carry");
    // the pointer already carries: a second pickup request is ignored
    assert_eq!(pickup(&mut w, MOUSE, a, 1), Ok(None));
    assert_eq!(w.get(a, 1), Ok(Some(y)));
    // another pointer may still pick up
    assert!(pickup(&mut w, 1, a, 1).unwrap().is_some());
}

#[test]
fn pickup_of_empty_slot_is_ignored() {
    let mut w = World::new();
    let a = w.spawn_inventory(Inventory::new::<2>());
    let base = w.log.len();
    assert_eq!(pickup(&mut w, MOUSE, a, 0), Ok(None));
    assert_eq!(w.log.len(), base);
    assert_eq!(pickup(&mut w, MOUSE, a, 7), Err(ModelError::IndexOutOfBounds));
    assert_eq!(pickup(&mut w, MOUSE, EntityId(9), 0), Err(ModelError::EntityNotFound));
}

#[test]
fn drop_without_carry_is_ignored() {
    let mut w = World::new();
    let a = w.spawn_inventory(Inventory::new::<2>());
    let base = w.log.len();
    assert_eq!(drop_item(&mut w, MOUSE, a, 0), Ok(DropOutcome::Ignored));
    assert_eq!(w.log.len(), base);
}

#[test]
fn disconnect_returns_the_item_to_its_origin() {
    let mut w = World::new();
    let x = named_item(&mut w, "x", "x.png");
    let a = w.spawn_inventory(Inventory::new::<2>());
    w.put(a, 0, x).unwrap();
    pickup(&mut w, MOUSE, a, 0).unwrap().expect("a carry");
    assert_eq!(w.get(a, 0), Ok(None));
    assert_eq!(cancel_carry(&mut w, MOUSE), Ok(true));
    assert_eq!(w.get(a, 0), Ok(Some(x)));
    assert!(w.carries.iter().all(|c| c.is_none()));
    // nothing left to cancel
    assert_eq!(cancel_carry(&mut w, MOUSE), Ok(false));
}

#[test]
fn tooltip_shows_the_resolved_name_unless_carrying() {
    let mut w = World::new();
    let template = w.items.spawn(ItemRecord {
        name: Some(String::from("Granite")),
        icon: Some(String::from("granite.png")),
        count: None,
        template: None,
    });
    let rock = w.items.spawn(ItemRecord {
        name: None,
        icon: None,
        count: None,
        template: Some(template),
    });
    let a = w.spawn_inventory(Inventory::new::<2>());
    w.put(a, 0, rock).unwrap();
    spawn_inventory_ui(&mut w, a).unwrap();
    let item_view = EntityId(
        w.item_uis
            .iter()
            .position(|entry| entry.as_ref().is_some_and(|iu| iu.item == rock))
            .expect("an item view"),
    );
    assert_eq!(tooltip_text(&w, MOUSE, item_view), Ok(Some(String::from("Granite"))));
    // while this pointer carries something, no tooltip is offered
    let second = w.items.spawn(ItemRecord {
        name: None,
        icon: Some(String::from("x.png")),
        count: None,
        template: None,
    });
    w.put(a, 1, second).unwrap();
    pickup(&mut w, MOUSE, a, 1).unwrap().expect("a carry");
    assert_eq!(tooltip_text(&w, MOUSE, item_view), Ok(None));
}
