//! Network usage tracking: per-adapter and per-application byte accounting,
//! usage storage and queries, limit alerts, and the formatting and version
//! rules around them.
pub mod clock;
pub mod commands;
pub mod db;
pub mod monitor;
pub mod text;
