//! Snapshot version resolution: locate, for a set of live filesystem paths,
//! every preserved historical copy held in filesystem-native snapshots, and
//! return them as an ordered, deduplicated version history per path.

pub mod assoc;
pub mod config;
pub mod data;
pub mod display;
pub mod file_mounts;
pub mod laws;
pub mod mounts;
pub mod results;
pub mod text;
pub mod versions;
