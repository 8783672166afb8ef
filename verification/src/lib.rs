//! Workloads for keyed collections, made from a seed, and the books of a
//! comparison that runs them against two instances.
//!
//! - [`cursor`]: the byte cursor from which values are drawn;
//! - [`draw`]: shapes that are drawn, one value or a run of values;
//! - [`types`], [`order`]: the value shapes and their order;
//! - [`weights`], [`set`], [`lookup_map`], [`tree_map`]: the actions and the
//!   tables that choose among their kinds;
//! - [`legacy_set`]: the actions that the entry point of the older set takes;
//! - [`generator`], [`scenario`]: the seeded stream, trials and workloads;
//! - [`wire`], [`payload`]: the bytes that are submitted;
//! - [`adapter`]: the calls that an instance makes for an action;
//! - [`gas`], [`runner`], [`comparison`]: costs, phases and the course of a
//!   comparison.

pub mod adapter;
pub mod comparison;
pub mod cursor;
pub mod draw;
pub mod gas;
pub mod generator;
pub mod legacy_set;
pub mod lookup_map;
pub mod order;
pub mod payload;
pub mod runner;
pub mod scenario;
pub mod set;
pub mod tree_map;
pub mod types;
pub mod weights;
pub mod wire;
