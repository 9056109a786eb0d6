//! A guillotine two-dimensional cutting-stock solver core.
//!
//! Given a catalog of rectangular part types with demands and a catalog of
//! rectangular sheet types with per-sheet cost and optional stock, the
//! library models guillotine-cuttable layouts (recursive axis-aligned
//! partitions of a sheet), enumerates feasible insertions of parts into
//! layouts, tracks remaining quantities in a `Problem`, and collects the
//! best solutions reported by search workers.

pub mod blueprint;
pub mod codec;
pub mod collector;
pub mod cost;
pub mod entities;
pub mod enumerator;
pub mod laws;
pub mod layout;
pub mod node;
pub mod problem;
