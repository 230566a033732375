//! Tunable configuration for the consensus, VFS and cache layers.
//!
//! Durations are carried as plain integers (milliseconds or seconds) so
//! that the defaults can be stated exactly.

use vstd::prelude::*;

verus! {

/// Consensus configuration.
#[derive(Clone, Debug, PartialEq, Eq, Structural)]
pub struct RaftConfig {
    /// Heartbeat interval in milliseconds.
    pub heartbeat_interval_ms: u64,
    /// Minimum election timeout in milliseconds.
    pub election_timeout_min_ms: u64,
    /// Maximum election timeout in milliseconds.
    pub election_timeout_max_ms: u64,
    /// Maximum entries per append RPC.
    pub max_append_entries: u64,
    /// Snapshot chunk size in bytes for transfer.
    pub snapshot_chunk_size: u64,
    /// Maximum log entries before a snapshot is triggered.
    pub max_log_entries: u64,
    /// Maximum log bytes before a snapshot is triggered.
    pub max_log_bytes: u64,
}

impl Default for RaftConfig {
    fn default() -> (r: Self)
        ensures
            r.heartbeat_interval_ms == 100,
            r.election_timeout_min_ms == 300,
            r.election_timeout_max_ms == 500,
            r.max_append_entries == 100,
            r.snapshot_chunk_size == 1048576,
            r.max_log_entries == 10000,
            r.max_log_bytes == 104857600,
    {
        RaftConfig {
            heartbeat_interval_ms: 100,
            election_timeout_min_ms: 300,
            election_timeout_max_ms: 500,
            max_append_entries: 100,
            snapshot_chunk_size: 1048576,
            max_log_entries: 10000,
            max_log_bytes: 104857600,
        }
    }
}

/// Virtual file system configuration.
#[derive(Clone, Debug, PartialEq, Eq, Structural)]
pub struct VfsConfig {
    /// Maximum file size in bytes.
    pub max_file_size: u64,
    /// Maximum files per consensus group.
    pub max_files_per_group: u64,
    /// Whether file content compression is enabled.
    pub enable_compression: bool,
}

impl Default for VfsConfig {
    fn default() -> (r: Self)
        ensures
            r.max_file_size == 10485760,
            r.max_files_per_group == 200,
            r.enable_compression == true,
    {
        VfsConfig { max_file_size: 10485760, max_files_per_group: 200, enable_compression: true }
    }
}

/// Analysis cache configuration.
#[derive(Clone, Debug, PartialEq, Eq, Structural)]
pub struct CacheConfig {
    /// In-memory cache maximum entries.
    pub l1_max_entries: u64,
    /// Disk cache maximum bytes.
    pub l2_max_bytes: u64,
    /// Cache entry time-to-live in seconds.
    pub ttl_secs: u64,
}

impl Default for CacheConfig {
    fn default() -> (r: Self)
        ensures
            r.l1_max_entries == 10000,
            r.l2_max_bytes == 1073741824,
            r.ttl_secs == 3600,
    {
        CacheConfig { l1_max_entries: 10000, l2_max_bytes: 1073741824, ttl_secs: 3600 }
    }
}

} // verus!
