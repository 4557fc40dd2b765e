//! Restaurant orders tracked per table: meal items with a cooking
//! lifecycle, orders whose totals are proved to match a recomputation over
//! their non-removed items, repositories of orders and menus over a
//! concurrent map, and the bookkeeping of the worker pool that runs the
//! cooking simulation.

pub mod cooking;
pub mod meal;
pub mod menu;
pub mod order;
pub mod pool;
pub mod price;
pub mod repo;
pub mod resp;
mod sources;
