//! A verified admission and scheduling core for an inference engine: a bounded
//! FIFO admission queue, a scheduler with a fixed concurrency limit, and the
//! routing of executor results to per-request responses.
pub mod request;
pub mod response;
pub mod queue;
pub mod scheduler;
pub mod laws;
