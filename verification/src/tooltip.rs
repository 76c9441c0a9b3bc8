//! The tooltip decision: which text, if any, to show when a pointer hovers
//! over an item view.

use vstd::prelude::*;

use crate::items::{AttrKind, AttrValue, Found};
use crate::world::World;
use crate::{EntityId, ModelError};

verus! {

/// The display name a tooltip for `item_view` would show to the pointer
/// `pointer_id`: the name resolved through the item's template chain. No
/// text is shown for a dead view, for an item without a resolvable name, or
/// while the pointer is busy carrying an item.
pub fn tooltip_text(w: &World, pointer_id: u64, item_view: EntityId) -> (r: Result<
    Option<String>,
    ModelError,
>)
    ensures
        match r {
            Ok(text) => match text {
                Some(name) => {
                    &&& w.item_ui_live(item_view.0 as int)
                    &&& !w.pointer_busy(pointer_id)
                    &&& {
                        let item = w.item_ui(item_view.0 as int).item;
                        match w.items.find_owner(item, AttrKind::Name, w.items@.len()) {
                            Found::Owner(o) => w.items.rec(o).name == Some(name),
                            _ => false,
                        }
                    }
                },
                None => !w.item_ui_live(item_view.0 as int) || w.pointer_busy(pointer_id) || (
                w.items.find_owner(
                    w.item_ui(item_view.0 as int).item,
                    AttrKind::Name,
                    w.items@.len(),
                ) == Found::Absent) || !w.items.is_item(w.item_ui(item_view.0 as int).item),
            },
            Err(err) => {
                &&& err == ModelError::TemplateCycle
                &&& w.item_ui_live(item_view.0 as int)
                &&& !w.pointer_busy(pointer_id)
                &&& w.items.find_owner(
                    w.item_ui(item_view.0 as int).item,
                    AttrKind::Name,
                    w.items@.len(),
                ) == Found::Cycle
            },
        },
{
    if item_view.0 >= w.item_uis.len() || w.item_uis[item_view.0].is_none() {
        return Ok(None);
    }
    if w.find_carry(pointer_id).is_some() {
        return Ok(None);
    }
    let item = w.item_uis[item_view.0].as_ref().unwrap().item;
    match w.items.extended_get(item, AttrKind::Name) {
        Ok(Some(AttrValue::Name(name))) => Ok(Some(name)),
        Ok(Some(_)) => {
            proof {
                assert(false);
            }
            Ok(None)
        },
        Ok(None) => Ok(None),
        Err(ModelError::TemplateCycle) => Err(ModelError::TemplateCycle),
        // A dangling item reference degrades to "no tooltip"; the view is
        // merely stale, not an error worth aborting for.
        Err(_) => Ok(None),
    }
}

} // verus!
