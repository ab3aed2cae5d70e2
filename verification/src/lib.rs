//! Core library of a deterministic, tick-driven world simulator.
//!
//! The crate holds the verified parts of the simulator: the entity and
//! component store, the tile grid, the deterministic random-stream
//! manager, the technology catalog, the snapshot cadence, and the
//! integer-valued decision rules of the simulation systems.  The
//! floating-point numerics of the subsystems, scenario file I/O and the
//! command-line front end live outside the library and call into it.

pub mod config;
pub mod ecs;
pub mod engine;
pub mod rng;
pub mod scenario;
pub mod snapshot;
pub mod spatial;
pub mod systems;
pub mod technology;
pub mod world;

pub use engine::EngineSettings;
pub use scenario::ScenarioLoader;
pub use spatial::{TileGrid, TilePos};
