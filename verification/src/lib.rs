//! A sequential, verified core of an entity/component storage engine:
//! entity identifiers, a bucketed sparse array with occupancy masks and
//! conservative existence ranges, an archetype-indexed chunk directory,
//! typed component stores with an end-of-frame dispose pass, a
//! double-buffered free-list allocator, a stage-driven scheduler, and
//! mask-intersecting query iteration.

pub mod chunked_store;
pub mod components;
pub mod entity_id;
pub mod frame_dispose;
pub mod logger;
pub mod metrics;
pub mod placeholder;
pub mod query;
pub mod slot_map;
pub mod sparse_array;
pub mod system;
pub mod timers;
pub mod world;
