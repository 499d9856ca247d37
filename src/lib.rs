//! An in-process entity store: payload values kept behind numeric ids,
//! partitioned by payload kind, with composites that group entities under a
//! shared, cascading lifecycle.

pub mod laws;
pub mod maps;
pub mod payload;
pub mod world;

pub use payload::{Payload, Value};
pub use world::{Component, Entity, EntityModel, TypedEntity, World, WorldModel};
