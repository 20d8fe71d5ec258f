//! A verified model of a game-world snapshot: kingdoms owning players owning
//! villages, plus a coordinate grid of classified map cells.
//!
//! The raw snapshot arrives as loosely typed JSON text. The decoder turns it
//! into a structured record, coercing fields that may be either numbers or
//! numeric strings; the builder cross-references the entities into keyed
//! tables and a coordinate index; the classifier assigns every grid cell one
//! of four kinds. Queries then resolve ownership chains over the built world.

pub mod config;
pub mod json;
pub mod raw;
pub mod table;
pub mod world;
