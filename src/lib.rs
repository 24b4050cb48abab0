//! Game-data definitions: registries that issue typed identifiers to named records,
//! and the build that turns raw, name-referencing records into resolved ones.
//!
//! Raw records of four categories (biomes, monster types, monster moves, monsters)
//! refer to each other by name. [`def_pipeline`] builds one [`def_database::DefDatabase`]
//! per category in dependency order, replacing every name by the identifier of the
//! record it names. Monster types may refer to each other in any order: they are
//! built in two passes. Records with a missing reference are reported as
//! [`link_error::LinkError`]s and left out of their registry. [`shared::GameState`] drives loading, linking and play.

pub mod biome;
pub mod def_database;
pub mod def_pipeline;
pub mod def_types;
pub mod jumping;
pub mod link_error;
pub mod monster_definition;
pub mod monster_move;
pub mod monster_type;
pub mod scalar;
pub mod shared;
