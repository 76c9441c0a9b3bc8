use item_inventory::items::{AttrKind, AttrValue, ItemRecord, Items};
use item_inventory::{EntityId, ModelError};

fn bare_item() -> ItemRecord {
    ItemRecord { name: None, icon: None, count: None, template: None }
}

#[test]
fn resolves_icon_through_template_chain() {
    // Item C has no icon and Template = B; B has no icon and Template = A;
    // A has icon "rock.png". Resolving C's icon lands on A.
    let mut items = Items::new();
    let a = items.spawn(ItemRecord { icon: Some(String::from("rock.png")), ..bare_item() });
    let b = items.spawn(ItemRecord { template: Some(a), ..bare_item() });
    let c = items.spawn(ItemRecord { template: Some(b), ..bare_item() });
    assert_eq!(items.extend_find(c, AttrKind::Icon), Ok(Some(a)));
    assert_eq!(
        items.extended_get(c, AttrKind::Icon),
        Ok(Some(AttrValue::Icon(String::from("rock.png"))))
    );
}

#[test]
fn own_attribute_wins_over_template() {
    let mut items = Items::new();
    let a = items.spawn(ItemRecord { icon: Some(String::from("far.png")), ..bare_item() });
    let c = items.spawn(ItemRecord {
        icon: Some(String::from("near.png")),
        template: Some(a),
        ..bare_item()
    });
    assert_eq!(items.extend_find(c, AttrKind::Icon), Ok(Some(c)));
    assert_eq!(
        items.extended_get(c, AttrKind::Icon),
        Ok(Some(AttrValue::Icon(String::from("near.png"))))
    );
}

#[test]
fn chain_without_owner_resolves_to_none() {
    let mut items = Items::new();
    let a = items.spawn(bare_item());
    let b = items.spawn(ItemRecord { template: Some(a), ..bare_item() });
    assert_eq!(items.extended_get(b, AttrKind::Icon), Ok(None));
}

#[test]
fn dangling_template_degrades_to_none() {
    let mut items = Items::new();
    let a = items.spawn(bare_item());
    let b = items.spawn(ItemRecord { template: Some(a), ..bare_item() });
    items.despawn(a).unwrap();
    assert_eq!(items.extended_get(b, AttrKind::Icon), Ok(None));
    // A template link onto an identifier that never existed behaves the same.
    let c = items.spawn(ItemRecord { template: Some(EntityId(999)), ..bare_item() });
    assert_eq!(items.extended_get(c, AttrKind::Name), Ok(None));
}

#[test]
fn template_cycle_is_reported() {
    let mut items = Items::new();
    let a = items.spawn(bare_item());
    let b = items.spawn(ItemRecord { template: Some(a), ..bare_item() });
    items.set_template(a, Some(b)).unwrap();
    assert_eq!(items.extend_find(a, AttrKind::Icon), Err(ModelError::TemplateCycle));
    assert_eq!(items.extended_get(b, AttrKind::Icon), Err(ModelError::TemplateCycle));
}

#[test]
fn dead_entity_is_reported() {
    let mut items = Items::new();
    let a = items.spawn(bare_item());
    items.despawn(a).unwrap();
    assert_eq!(items.extend_find(a, AttrKind::Icon), Err(ModelError::EntityNotFound));
    assert_eq!(items.get(a, AttrKind::Icon), Err(ModelError::EntityNotFound));
    assert_eq!(items.despawn(a), Err(ModelError::EntityNotFound));
}

#[test]
fn own_lookup_ignores_template() {
    let mut items = Items::new();
    let a = items.spawn(ItemRecord { count: Some(7), ..bare_item() });
    let b = items.spawn(ItemRecord { template: Some(a), ..bare_item() });
    assert_eq!(items.get(b, AttrKind::Count), Ok(None));
    assert_eq!(items.get(a, AttrKind::Count), Ok(Some(AttrValue::Count(7))));
}

#[test]
fn set_attr_changes_resolution() {
    let mut items = Items::new();
    let a = items.spawn(bare_item());
    let b = items.spawn(ItemRecord { template: Some(a), ..bare_item() });
    assert_eq!(items.extended_get(b, AttrKind::Name), Ok(None));
    items.set_attr(a, AttrValue::Name(String::from("granite"))).unwrap();
    assert_eq!(
        items.extended_get(b, AttrKind::Name),
        Ok(Some(AttrValue::Name(String::from("granite"))))
    );
}
