//! Coordination of a fleet of small networked display workers: the
//! coordinator's worker registry and directive broadcasting, the wire
//! protocol between the two sides, and the worker's rendering decisions.
pub mod text;
pub mod wire;
pub mod command;
pub mod registry;
pub mod api;
pub mod render;
