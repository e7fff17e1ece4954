//! A reconciliation engine for watched directories: a registry of watched
//! roots and their entries, kept current from a stream of change events,
//! with a retention window for removed entries.

pub mod filesystem;
pub mod layout;
pub mod path;
pub mod service;
pub mod state;
pub mod theorems;
