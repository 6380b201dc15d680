//! A puzzle world of gadgets: finite-state devices placed on a sparse grid,
//! and an agent that walks across them by following their traversal rules.
//!
//! Every function in this crate is verified against its contract, except the
//! few accessors of hash tables in [`tables`] and the one of `Rc` in
//! [`gadget`], whose contracts are taken on trust.

pub mod tables;
pub mod math;
pub mod perimeter;
pub mod grid;
pub mod gadget;
pub mod agent;
pub mod undo;
pub mod ui;
