//! Error taxonomy shared across the system.

use vstd::prelude::*;
use crate::types::{FileId, NodeId, RaftGroupId};

verus! {

/// Every error the system can surface on the wire or internally.
///
/// Errors are either retriable (leadership or reachability may change) or
/// terminal (deterministic outcomes of the state machine, or fatal faults).
#[derive(Clone, Debug)]
pub enum VRaftError {
    NotLeader { leader: Option<NodeId> },
    GroupNotFound(RaftGroupId),
    RaftConsensus(String),
    RaftLog(String),
    FileNotFound(FileId),
    FileExists(String),
    InvalidPath(String),
    PathNotInWorkspace(String),
    NodeUnreachable(NodeId),
    Timeout,
    ConnectionFailed(String),
    LanguageServer(String),
    UnsupportedLanguage(String),
    LanguageServerNotRunning,
    InvalidLspRequest(String),
    Storage(String),
    Serialization(String),
    TransactionAborted(String),
    TransactionTimeout,
    Internal(String),
    Io(String),
}

impl VRaftError {
    /// True exactly for the errors a gateway may retry: leadership and
    /// reachability can change, while all other errors are deterministic
    /// or fatal.
    pub fn is_retriable(&self) -> (r: bool)
        ensures
            r == (self matches VRaftError::NotLeader { .. } || self matches VRaftError::NodeUnreachable(_)
                || self matches VRaftError::Timeout || self matches VRaftError::TransactionTimeout),
    {
        match self {
            VRaftError::NotLeader { .. } => true,
            VRaftError::NodeUnreachable(_) => true,
            VRaftError::Timeout => true,
            VRaftError::TransactionTimeout => true,
            _ => false,
        }
    }

    pub fn is_not_leader(&self) -> (r: bool)
        ensures
            r == (self matches VRaftError::NotLeader { .. }),
    {
        match self {
            VRaftError::NotLeader { .. } => true,
            _ => false,
        }
    }
}

} // verus!
