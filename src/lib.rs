//! Aggregation of a per-user interest embedding: sampling of knowledge-base
//! entries, the per-entry decisions, and the run that merges the result into
//! the persisted user embedding. Vector arithmetic and the outside services
//! are driven by the caller through the actions of [`pipeline::Run`].

pub mod model;
pub mod sampling;
pub mod pipeline;
