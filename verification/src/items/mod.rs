//! Items and what holds them.

pub mod inventory;
pub mod item;
