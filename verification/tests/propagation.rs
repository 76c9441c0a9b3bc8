use item_inventory::change_propagation::{item_changed, Event};
use item_inventory::inventory::Inventory;
use item_inventory::items::{ItemRecord, Items};
use item_inventory::views::spawn_inventory_ui;
use item_inventory::world::World;
use item_inventory::EntityId;

fn bare_item() -> ItemRecord {
    ItemRecord { name: None, icon: None, count: None, template: None }
}

fn icon_item(icon: &str) -> ItemRecord {
    ItemRecord { icon: Some(String::from(icon)), ..bare_item() }
}

/// Every live slot view bound to `inv` caches exactly the inventory's
/// current content at its index.
fn views_synced(w: &World, inv: EntityId) -> bool {
    w.slot_uis.iter().all(|entry| match entry {
        Some(su) => {
            su.inventory != inv || w.get(inv, su.index) == Ok(su.data)
        },
        None => true,
    })
}

#[test]
fn mutations_leave_no_stale_views() {
    let mut w = World::new();
    let x = w.items.spawn(icon_item("x.png"));
    let y = w.items.spawn(icon_item("y.png"));
    let inv = w.spawn_inventory(Inventory::new::<3>());
    w.put(inv, 0, x).unwrap();
    spawn_inventory_ui(&mut w, inv).unwrap();
    assert!(views_synced(&w, inv));
    w.put(inv, 2, y).unwrap();
    assert!(views_synced(&w, inv));
    w.swap(inv, 0, 1).unwrap();
    assert!(views_synced(&w, inv));
    w.take(inv, 2).unwrap();
    assert!(views_synced(&w, inv));
}

#[test]
fn only_stale_views_are_notified() {
    let mut w = World::new();
    let x = w.items.spawn(icon_item("x.png"));
    let inv = w.spawn_inventory(Inventory::new::<3>());
    let views_base = w.slot_uis.len();
    spawn_inventory_ui(&mut w, inv).unwrap();
    // the view of slot 1 is the only one whose cached content goes stale
    let base = w.log.len();
    w.put(inv, 1, x).unwrap();
    let slot_events: Vec<&Event> = w.log[base..]
        .iter()
        .filter(|e| matches!(e, Event::SlotChanged { .. }))
        .collect();
    assert_eq!(slot_events.len(), 1);
    assert_eq!(
        slot_events[0],
        &Event::SlotChanged { view: EntityId(views_base + 1), content: Some(x) }
    );
}

#[test]
fn item_views_are_rebuilt_from_resolved_data() {
    // The slot view's item view carries the icon resolved through the
    // template chain and the item's own count.
    let mut w = World::new();
    let template = w.items.spawn(icon_item("pick.png"));
    let pick = w.items.spawn(ItemRecord {
        template: Some(template),
        count: Some(3),
        ..bare_item()
    });
    let inv = w.spawn_inventory(Inventory::new::<1>());
    w.put(inv, 0, pick).unwrap();
    spawn_inventory_ui(&mut w, inv).unwrap();
    let item_view = w
        .item_uis
        .iter()
        .flatten()
        .find(|iu| iu.item == pick)
        .expect("an item view for the slot's content");
    assert_eq!(item_view.icon, String::from("pick.png"));
    assert_eq!(item_view.count, Some(3));
}

#[test]
fn unresolvable_icon_skips_the_item_view_only() {
    // An item without any icon in its chain gets no item view; the slot
    // view itself is still built and synchronised.
    let mut w = World::new();
    let plain = w.items.spawn(bare_item());
    let inv = w.spawn_inventory(Inventory::new::<1>());
    w.put(inv, 0, plain).unwrap();
    let views_base = w.slot_uis.len();
    spawn_inventory_ui(&mut w, inv).unwrap();
    assert!(w.item_uis.iter().flatten().all(|iu| iu.item != plain));
    assert_eq!(w.slot_uis[views_base].as_ref().unwrap().data, Some(plain));
}

#[test]
fn item_change_cascades_to_dependents_and_their_views() {
    // Template chain: pickaxe (Template = precursor) and stone
    // (Template = precursor). Notifying the precursor also notifies both
    // dependents, and every slot view showing any of the three is told to
    // rebuild.
    let mut w = World::new();
    let precursor = w.items.spawn(icon_item("precursor.png"));
    let pickaxe = w.items.spawn(ItemRecord { template: Some(precursor), ..bare_item() });
    let stone = w.items.spawn(ItemRecord { template: Some(precursor), ..bare_item() });
    let inv = w.spawn_inventory(Inventory::new::<3>());
    w.put(inv, 0, precursor).unwrap();
    w.put(inv, 1, pickaxe).unwrap();
    w.put(inv, 2, stone).unwrap();
    let views_base = w.slot_uis.len();
    spawn_inventory_ui(&mut w, inv).unwrap();
    let base = w.log.len();
    item_changed(&mut w, precursor);
    let tail = &w.log[base..];
    assert!(tail.contains(&Event::ItemChanged { item: precursor }));
    assert!(tail.contains(&Event::ItemChanged { item: pickaxe }));
    assert!(tail.contains(&Event::ItemChanged { item: stone }));
    assert!(tail.contains(&Event::SlotChanged {
        view: EntityId(views_base),
        content: Some(precursor)
    }));
    assert!(tail.contains(&Event::SlotChanged {
        view: EntityId(views_base + 1),
        content: Some(pickaxe)
    }));
    assert!(tail.contains(&Event::SlotChanged {
        view: EntityId(views_base + 2),
        content: Some(stone)
    }));
    // cached contents did not change: the rebuild is for attributes only
    assert_eq!(w.slot_uis[views_base].as_ref().unwrap().data, Some(precursor));
}

#[test]
fn item_change_notifies_each_dependent_once() {
    let mut w = World::new();
    let root = w.items.spawn(icon_item("root.png"));
    let mid = w.items.spawn(ItemRecord { template: Some(root), ..bare_item() });
    let leaf_a = w.items.spawn(ItemRecord { template: Some(mid), ..bare_item() });
    let leaf_b = w.items.spawn(ItemRecord { template: Some(mid), ..bare_item() });
    let base = w.log.len();
    item_changed(&mut w, root);
    for probe in [root, mid, leaf_a, leaf_b] {
        let hits = w.log[base..]
            .iter()
            .filter(|e| **e == Event::ItemChanged { item: probe })
            .count();
        assert_eq!(hits, 1);
    }
}

#[test]
fn item_change_terminates_even_on_cyclic_template_data() {
    // A template cycle is a content-authoring defect; the cascade's
    // visited-once guard must still drain.
    let mut items = Items::new();
    let a = items.spawn(bare_item());
    let b = items.spawn(ItemRecord { template: Some(a), ..bare_item() });
    items.set_template(a, Some(b)).unwrap();
    let mut w = World::new();
    w.items = items;
    let base = w.log.len();
    item_changed(&mut w, a);
    let tail = &w.log[base..];
    assert!(tail.contains(&Event::ItemChanged { item: a }));
    assert!(tail.contains(&Event::ItemChanged { item: b }));
    assert_eq!(tail.len(), 2);
}
