//! A verified Entity-Component-System runtime core.
//!
//! Game-world objects ("entities") are loosely bound sets of typed data
//! ("components"), and independent behavior units ("systems") run against
//! that data each simulation tick. Entities are identified by stale-safe
//! generational ids; each component kind lives in a dense, compacting
//! store with deferred and immediate deletion paths; a sequential
//! scheduler drives the systems in registration order.

pub mod component;
pub mod component_manager;
pub mod entity;
pub mod error;
pub mod generational_id;
pub mod query;
pub mod system;
pub mod system_manager;
pub mod universe;
pub mod world;
