//! A small entity-component scheduler driving per-frame simulation logic for
//! renderable game objects.
//!
//! The crate owns a store of entities and their components, a store of
//! singleton resources, an ordered pipeline of stages whose systems read and
//! write that data, and a deferred command buffer so that structural changes
//! never happen mid-iteration.  The embedding engine talks to it through a
//! handful of entry points on [`ecs::ECS`]: register or unregister an entity,
//! feed it the sampled input state, and advance the simulation by one pass.

pub mod access;
pub mod commands;
pub mod ecs;
pub mod input;
pub mod laws;
pub mod math;
pub mod render;
pub mod resources;
pub mod schedule;
pub mod store;
pub mod systems;
pub mod world;
