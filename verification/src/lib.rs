//! An item/inventory data model with template-based attribute fallback,
//! fixed-capacity inventories, a synchronously drained change-propagation
//! cascade that keeps presentation mirrors consistent, and a slot-transfer
//! protocol for picking up, dropping and swapping items.
//!
//! The pieces, leaves first: [`items`] holds the item table and the
//! template resolver; [`inventory`] the fixed-size slot containers;
//! [`views`] the presentation mirrors and their lifecycle; [`world`] the
//! whole state with the notifying inventory operations;
//! [`change_propagation`] the event cascade that re-derives stale views;
//! [`carry`] the transfer protocol; and [`tooltip`] the hover-text
//! decision. Presentation itself (pixels, images, input devices) is a
//! host's concern and stays outside the model.

use vstd::prelude::*;

pub mod carry;
pub mod change_propagation;
pub mod inventory;
pub mod items;
pub mod tooltip;
pub mod views;
pub mod world;

verus! {

/// Opaque identifier of an entity in one of the world's tables.
#[derive(Clone, Copy, PartialEq, Eq, Structural, Debug, Hash)]
pub struct EntityId(pub usize);

/// The failure cases of the model's operations.
#[derive(Clone, Copy, PartialEq, Eq, Structural, Debug)]
pub enum ModelError {
    /// A slot index at or past the inventory's fixed length.
    IndexOutOfBounds,
    /// An attempt to put an item into a slot that already holds one.
    SlotOccupied,
    /// A template chain that exceeds the iteration cap, i.e. contains a cycle.
    TemplateCycle,
    /// A referenced entity that does not exist (any more).
    EntityNotFound,
}

} // verus!
