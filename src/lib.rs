//! Run-time core of a frame-synchronous game: a priority-ordered, frame-budgeted
//! cooperative job runner, the suspension protocol of generator-backed jobs, a
//! weak-reference asset cache and a deferred command-batching queue.

pub mod asset;
pub mod batch;
pub mod entries;
pub mod file;
pub mod gen_job;
pub mod input;
pub mod jobs;
pub mod state;
pub mod tilemap;
pub mod visibility;
