//! An entity-component runtime: type-keyed component columns with per-entity
//! membership bitmasks, bitmask queries, an ordered registry of systems, and
//! type-keyed singleton resources.
//!
//! Component and resource types are identified by their `TypeId`; the values
//! themselves are of one closed type per store (`C` for components, `R` for
//! resources), usually an enum with one variant per kind.
pub mod bits;
pub mod config;
pub mod custom_errors;
pub mod entities;
pub mod input;
pub mod query;
pub mod resources;
pub mod systems;
pub mod type_key;
pub mod world;

pub use custom_errors::CustomErrors;
pub use world::World;
