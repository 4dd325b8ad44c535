//! Ordered folders and scripts with positional reordering and cascading
//! deletion, and the decision logic that supervises a backend process.

pub mod app_state_repository;
pub mod endpoints;
pub mod filters;
pub mod folder_repository;
pub mod get_db;
pub mod health;
pub mod model;
pub mod order;
pub mod port;
pub mod script_repository;
pub mod shell;
pub mod supervisor;
pub mod text;
