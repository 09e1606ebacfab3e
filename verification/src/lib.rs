//! Core of a log viewer: parsers for several vendor log formats, the
//! assembly of parsed sources into one tree, and an indexed, filterable
//! store over the flattened entries.

pub mod filtering;
pub mod filters;
pub mod laws;
pub mod links;
pub mod log_store;
pub mod model;
pub mod model_internal;
pub mod parse;
pub mod scroll;
pub mod selection;
pub mod sorting;
pub mod text;
