//! A replicated, versioned virtual file system behind an LSP gateway.
//!
//! The crate holds the deterministic core of the system: the VFS state
//! machine and its command algebra, the replicated log store model, the
//! snapshot builder and installer, the JSON-RPC framing used towards
//! analyzer processes, and the partition-aware request router.

pub mod types;
pub mod error;
pub mod config;
pub mod path;
pub mod file;
pub mod commands;
pub mod vfs;
pub mod logstore;
pub mod statemachine;
pub mod router;
pub mod cluster;
pub mod proxy;
pub mod gateway;
pub mod frame;
