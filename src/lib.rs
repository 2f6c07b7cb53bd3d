//! Blueprint spawning over an explicit entity graph: a library of named scene
//! assets, a per-tick spawn state machine, post-spawn normalisation and
//! cleanup, a bounding-box cache and deep cloning of entity subtrees.
pub mod aabb;
pub mod config;
pub mod graph;
pub mod resolver;
pub mod spawn;
pub mod post_spawn;
pub mod pipeline;
