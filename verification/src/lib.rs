//! An entity-component-system runtime.
//!
//! Entities are plain handles, handed out in ascending order and never
//! reused. Components are payloads that report the key of their type;
//! a world keeps one column per component type, with one slot per entity,
//! and all columns grow in lockstep with the entity count. A query finds the
//! entities that hold a component of each required type. Systems are units of
//! per-tick logic; the scheduler runs each registered system once per tick.
//!
//! - `type_key`: the type key, `std::any::TypeId`, and its comparison
//! - `error`: what an operation can report
//! - `storage`: the component capability and the column
//! - `model`: the mathematical content of a world, and what holds of it
//! - `world`: the world
//! - `query`: the query
//! - `system`: the system capability and the scheduler
//! - `naming`: the names of generated system structs

pub mod error;
pub mod model;
pub mod naming;
pub mod query;
pub mod storage;
pub mod system;
pub mod type_key;
pub mod world;
