//! Guardian: a process supervisor library.
//!
//! The library holds the verified core of a supervisor for a small fleet of
//! interdependent processes: dependency ordering, a five-level health model,
//! generational file backups, and a prioritized recovery policy.

pub mod backup;
pub mod compress;
pub mod config;
pub mod graph;
pub mod health;
pub mod log_rotation;
pub mod notification;
pub mod process;
pub mod recovery;
pub mod shims;
pub mod strmap;
pub mod supervisor;
pub mod text;
