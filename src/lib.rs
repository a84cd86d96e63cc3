//! Write propagation for a publish/subscribe network: a per-path cache of
//! publish handles, a staleness filter that lets only the newest value of a
//! path through, and the retry decisions taken when a delivery fails.
pub mod path_map;
pub mod path;
pub mod types;
pub mod cache;
pub mod pipeline;
pub mod delivery;
pub mod laws;
pub mod logging;
