//! Compiles a manifest of SSH users into the plays that provision their
//! accounts and authorized keys across a host inventory.
pub mod config;
pub mod error;
pub mod grouping;
pub mod inventory;
pub mod laws;
pub mod model;
pub mod plays;
pub mod text;
