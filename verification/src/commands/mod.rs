//! The operations the user interface invokes, expressed over the library's
//! own types.
pub mod network;
pub mod settings;
pub mod theme;
pub mod update;
pub mod usage;
