//! The read-only side: what the query commands ask of the store.

pub mod commands;
pub mod formatters;
pub mod render;
