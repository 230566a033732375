//! Cluster membership, failure detection and group metadata.

use vstd::prelude::*;
use crate::types::{NodeId, RaftGroupId, Timestamp};

verus! {

/// A node's health as the cluster sees it.
#[derive(Clone, Copy, Debug, PartialEq, Eq, Structural)]
pub enum NodeStatus {
    /// Responding normally.
    Healthy,
    /// Suspected down.
    Suspect,
    /// Confirmed down.
    Down,
    /// Joining the cluster.
    Joining,
    /// Leaving the cluster.
    Leaving,
}

/// What the cluster knows of one node.
#[derive(Debug)]
pub struct ClusterNode {
    pub id: NodeId,
    /// Network address, as text.
    pub addr: String,
    pub status: NodeStatus,
    pub raft_groups: Vec<RaftGroupId>,
    pub last_heartbeat: Timestamp,
}

impl Clone for ClusterNode {
    fn clone(&self) -> (r: Self)
        ensures
            r.id == self.id,
            r.addr@ == self.addr@,
            r.status == self.status,
            r.raft_groups@ == self.raft_groups@,
            r.last_heartbeat == self.last_heartbeat,
    {
        let mut groups: Vec<RaftGroupId> = Vec::new();
        let mut i: usize = 0;
        while i < self.raft_groups.len()
            invariant
                i <= self.raft_groups@.len(),
                groups@ =~= self.raft_groups@.subrange(0, i as int),
            decreases self.raft_groups@.len() - i,
        {
            groups.push(self.raft_groups[i]);
            proof {
                assert(groups@ =~= self.raft_groups@.subrange(0, i + 1));
            }
            i = i + 1;
        }
        proof {
            assert(self.raft_groups@.subrange(0, self.raft_groups@.len() as int)
                =~= self.raft_groups@);
        }
        ClusterNode {
            id: self.id,
            addr: self.addr.clone(),
            status: self.status,
            raft_groups: groups,
            last_heartbeat: self.last_heartbeat,
        }
    }
}

/// No node id occurs twice.
pub open spec fn nodes_unique(s: Seq<ClusterNode>) -> bool {
    forall|i: int, j: int| 0 <= i < j < s.len() ==> (#[trigger] s[i]).id.0 != (#[trigger] s[j]).id.0
}

/// The status recorded for a node id, if the node is known.
pub open spec fn status_of(s: Seq<ClusterNode>, id: u64) -> Option<NodeStatus> {
    if exists|i: int| 0 <= i < s.len() && (#[trigger] s[i]).id.0 == id {
        let i = choose|i: int| 0 <= i < s.len() && (#[trigger] s[i]).id.0 == id;
        Some(s[i].status)
    } else {
        None
    }
}

proof fn lemma_status_at(s: Seq<ClusterNode>, i: int)
    requires
        nodes_unique(s),
        0 <= i < s.len(),
    ensures
        status_of(s, s[i].id.0) == Some(s[i].status),
{
    let id = s[i].id.0;
    assert(exists|j: int| 0 <= j < s.len() && (#[trigger] s[j]).id.0 == id);
    let j = choose|j: int| 0 <= j < s.len() && (#[trigger] s[j]).id.0 == id;
    if i != j {
        assert(false);
    }
}

/// The registry of known nodes.
pub struct ClusterMembership {
    nodes: Vec<ClusterNode>,
    local_node_id: NodeId,
}

impl ClusterMembership {
    pub closed spec fn inv(self) -> bool {
        nodes_unique(self.nodes@)
    }

    pub closed spec fn spec_nodes(self) -> Seq<ClusterNode> {
        self.nodes@
    }

    pub closed spec fn spec_local(self) -> u64 {
        self.local_node_id.0
    }

    /// The status recorded for a node.
    pub open spec fn spec_status(self, id: u64) -> Option<NodeStatus> {
        status_of(self.spec_nodes(), id)
    }

    pub fn new(local_node_id: NodeId) -> (r: Self)
        ensures
            r.inv(),
            r.spec_nodes() == Seq::<ClusterNode>::empty(),
            r.spec_local() == local_node_id.0,
    {
        ClusterMembership { nodes: Vec::new(), local_node_id }
    }

    /// Add a node or replace what is known of it.
    #[verifier::loop_isolation(false)]
    pub fn upsert_node(&mut self, node: ClusterNode)
        requires
            old(self).inv(),
        ensures
            final(self).inv(),
            final(self).spec_status(node.id.0) == Some(node.status),
    {
        let mut i: usize = 0;
        while i < self.nodes.len()
            invariant
                i <= self.nodes@.len(),
                *self == *old(self),
                forall|j: int| 0 <= j < i ==> (#[trigger] self.nodes@[j]).id.0 != node.id.0,
            decreases self.nodes@.len() - i,
        {
            if self.nodes[i].id.0 == node.id.0 {
                let ghost s0 = self.nodes@;
                let ghost e = node;
                self.nodes.set(i, node);
                proof {
                    assert forall|a: int, b: int| 0 <= a < b < self.nodes@.len() implies (
                    #[trigger] self.nodes@[a]).id.0 != (#[trigger] self.nodes@[b]).id.0 by {
                        assert(self.nodes@[a].id.0 == s0[a].id.0 && self.nodes@[b].id.0
                            == s0[b].id.0);
                    }
                    lemma_status_at(self.nodes@, i as int);
                }
                return;
            }
            i = i + 1;
        }
        let ghost s0 = self.nodes@;
        self.nodes.push(node);
        proof {
            assert forall|a: int, b: int| 0 <= a < b < self.nodes@.len() implies (
            #[trigger] self.nodes@[a]).id.0 != (#[trigger] self.nodes@[b]).id.0 by {
                if b == s0.len() {
                    assert(self.nodes@[a].id.0 == s0[a].id.0);
                }
            }
            lemma_status_at(self.nodes@, self.nodes@.len() - 1);
        }
    }

    /// What is known of a node.
    #[verifier::loop_isolation(false)]
    pub fn get_node(&self, id: NodeId) -> (r: Option<ClusterNode>)
        requires
            self.inv(),
        ensures
            match r {
                Some(n) => n.id.0 == id.0 && self.spec_status(id.0) == Some(n.status),
                None => self.spec_status(id.0) is None,
            },
    {
        let mut i: usize = 0;
        while i < self.nodes.len()
            invariant
                i <= self.nodes@.len(),
                forall|j: int| 0 <= j < i ==> (#[trigger] self.nodes@[j]).id.0 != id.0,
            decreases self.nodes@.len() - i,
        {
            if self.nodes[i].id.0 == id.0 {
                proof {
                    lemma_status_at(self.nodes@, i as int);
                }
                return Some(self.nodes[i].clone());
            }
            i = i + 1;
        }
        None
    }

    /// Every node currently marked healthy.
    #[verifier::loop_isolation(false)]
    pub fn healthy_nodes(&self) -> (r: Vec<ClusterNode>)
        requires
            self.inv(),
        ensures
            forall|k: int| 0 <= k < r@.len() ==> (#[trigger] r@[k]).status == NodeStatus::Healthy
                && self.spec_status(r@[k].id.0) == Some(NodeStatus::Healthy),
            forall|j: int| 0 <= j < self.spec_nodes().len() && (
            #[trigger] self.spec_nodes()[j]).status == NodeStatus::Healthy ==> exists|k: int|
                0 <= k < r@.len() && (#[trigger] r@[k]).id.0 == self.spec_nodes()[j].id.0,
    {
        let mut out: Vec<ClusterNode> = Vec::new();
        let mut i: usize = 0;
        while i < self.nodes.len()
            invariant
                i <= self.nodes@.len(),
                forall|k: int| 0 <= k < out@.len() ==> (#[trigger] out@[k]).status
                    == NodeStatus::Healthy && self.spec_status(out@[k].id.0) == Some(
                    NodeStatus::Healthy,
                ),
                forall|j: int| 0 <= j < i && (#[trigger] self.nodes@[j]).status
                    == NodeStatus::Healthy ==> exists|k: int| 0 <= k < out@.len() && (
                #[trigger] out@[k]).id.0 == self.nodes@[j].id.0,
            decreases self.nodes@.len() - i,
        {
            let is_healthy = match self.nodes[i].status {
                NodeStatus::Healthy => true,
                _ => false,
            };
            if is_healthy {
                let ghost out0 = out@;
                let n = self.nodes[i].clone();
                proof {
                    lemma_status_at(self.nodes@, i as int);
                }
                out.push(n);
                proof {
                    assert forall|j: int|
                        0 <= j < i + 1 && (#[trigger] self.nodes@[j]).status
                            == NodeStatus::Healthy implies exists|k: int| 0 <= k < out@.len() && (
                    #[trigger] out@[k]).id.0 == self.nodes@[j].id.0 by {
                        if j < i {
                            let k = choose|k: int| 0 <= k < out0.len() && (#[trigger] out0[k]).id.0
                                == self.nodes@[j].id.0;
                            assert(out@[k] == out0[k]);
                        } else {
                            assert(out@[out@.len() - 1].id.0 == self.nodes@[j].id.0);
                        }
                    }
                }
            }
            i = i + 1;
        }
        out
    }

    /// Mark a node suspect.
    #[verifier::loop_isolation(false)]
    pub fn mark_suspect(&mut self, id: NodeId)
        requires
            old(self).inv(),
        ensures
            final(self).inv(),
            old(self).spec_status(id.0) is Some ==> final(self).spec_status(id.0) == Some(
                NodeStatus::Suspect,
            ),
            old(self).spec_status(id.0) is None ==> final(self).spec_status(id.0) is None,
    {
        self.set_status(id, NodeStatus::Suspect);
    }

    /// Mark a node down.
    #[verifier::loop_isolation(false)]
    pub fn mark_down(&mut self, id: NodeId)
        requires
            old(self).inv(),
        ensures
            final(self).inv(),
            old(self).spec_status(id.0) is Some ==> final(self).spec_status(id.0) == Some(
                NodeStatus::Down,
            ),
            old(self).spec_status(id.0) is None ==> final(self).spec_status(id.0) is None,
    {
        self.set_status(id, NodeStatus::Down);
    }

    /// Set a known node's status.
    #[verifier::loop_isolation(false)]
    fn set_status(&mut self, id: NodeId, status: NodeStatus)
        requires
            old(self).inv(),
        ensures
            final(self).inv(),
            old(self).spec_status(id.0) is Some ==> final(self).spec_status(id.0) == Some(status),
            old(self).spec_status(id.0) is None ==> final(self).spec_status(id.0) is None,
    {
        let mut i: usize = 0;
        while i < self.nodes.len()
            invariant
                i <= self.nodes@.len(),
                *self == *old(self),
                forall|j: int| 0 <= j < i ==> (#[trigger] self.nodes@[j]).id.0 != id.0,
            decreases self.nodes@.len() - i,
        {
            if self.nodes[i].id.0 == id.0 {
                let ghost s0 = self.nodes@;
                proof {
                    lemma_status_at(s0, i as int);
                }
                let mut n = self.nodes[i].clone();
                n.status = status;
                self.nodes.set(i, n);
                proof {
                    assert forall|a: int, b: int| 0 <= a < b < self.nodes@.len() implies (
                    #[trigger] self.nodes@[a]).id.0 != (#[trigger] self.nodes@[b]).id.0 by {
                        assert(self.nodes@[a].id.0 == s0[a].id.0 && self.nodes@[b].id.0
                            == s0[b].id.0);
                    }
                    lemma_status_at(self.nodes@, i as int);
                }
                return;
            }
            i = i + 1;
        }
    }

    /// Record a heartbeat: the node's timestamp moves, and a suspect
    /// node becomes healthy again.
    #[verifier::loop_isolation(false)]
    pub fn update_heartbeat(&mut self, id: NodeId)
        requires
            old(self).inv(),
        ensures
            final(self).inv(),
            old(self).spec_status(id.0) == Some(NodeStatus::Suspect) ==> final(self).spec_status(
                id.0,
            ) == Some(NodeStatus::Healthy),
            match old(self).spec_status(id.0) {
                Some(st) => st != NodeStatus::Suspect ==> final(self).spec_status(id.0) == Some(
                    st,
                ),
                None => final(self).spec_status(id.0) is None,
            },
    {
        let mut i: usize = 0;
        while i < self.nodes.len()
            invariant
                i <= self.nodes@.len(),
                *self == *old(self),
                forall|j: int| 0 <= j < i ==> (#[trigger] self.nodes@[j]).id.0 != id.0,
            decreases self.nodes@.len() - i,
        {
            if self.nodes[i].id.0 == id.0 {
                let ghost s0 = self.nodes@;
                proof {
                    lemma_status_at(s0, i as int);
                }
                let mut n = self.nodes[i].clone();
                n.last_heartbeat = Timestamp::now();
                let is_suspect = match n.status {
                    NodeStatus::Suspect => true,
                    _ => false,
                };
                if is_suspect {
                    n.status = NodeStatus::Healthy;
                }
                self.nodes.set(i, n);
                proof {
                    assert forall|a: int, b: int| 0 <= a < b < self.nodes@.len() implies (
                    #[trigger] self.nodes@[a]).id.0 != (#[trigger] self.nodes@[b]).id.0 by {
                        assert(self.nodes@[a].id.0 == s0[a].id.0 && self.nodes@[b].id.0
                            == s0[b].id.0);
                    }
                    lemma_status_at(self.nodes@, i as int);
                }
                return;
            }
            i = i + 1;
        }
    }

    /// Forget a node.
    #[verifier::loop_isolation(false)]
    pub fn remove_node(&mut self, id: NodeId)
        requires
            old(self).inv(),
        ensures
            final(self).inv(),
            final(self).spec_status(id.0) is None,
    {
        let mut i: usize = 0;
        while i < self.nodes.len()
            invariant
                i <= self.nodes@.len(),
                *self == *old(self),
                forall|j: int| 0 <= j < i ==> (#[trigger] self.nodes@[j]).id.0 != id.0,
            decreases self.nodes@.len() - i,
        {
            if self.nodes[i].id.0 == id.0 {
                let ghost s0 = self.nodes@;
                self.nodes.remove(i);
                proof {
                    assert forall|a: int, b: int| 0 <= a < b < self.nodes@.len() implies (
                    #[trigger] self.nodes@[a]).id.0 != (#[trigger] self.nodes@[b]).id.0 by {
                        let a0 = if a < i as int { a } else { a + 1 };
                        let b0 = if b < i as int { b } else { b + 1 };
                        assert(self.nodes@[a] == s0[a0] && self.nodes@[b] == s0[b0]);
                    }
                    if exists|j: int| 0 <= j < self.nodes@.len() && (
                    #[trigger] self.nodes@[j]).id.0 == id.0 {
                        let j = choose|j: int| 0 <= j < self.nodes@.len() && (
                        #[trigger] self.nodes@[j]).id.0 == id.0;
                        let j0 = if j < i as int { j } else { j + 1 };
                        assert(self.nodes@[j] == s0[j0]);
                        assert(false);
                    }
                }
                return;
            }
            i = i + 1;
        }
        proof {
            assert(self.spec_status(id.0) is None);
        }
    }

    /// How many nodes are known.
    pub fn node_count(&self) -> (r: usize)
        ensures
            r == self.spec_nodes().len(),
    {
        self.nodes.len()
    }

    /// How many nodes are currently healthy.
    #[verifier::loop_isolation(false)]
    pub fn healthy_node_count(&self) -> (r: usize)
        ensures
            r <= self.spec_nodes().len(),
    {
        let mut count: usize = 0;
        let mut i: usize = 0;
        while i < self.nodes.len()
            invariant
                i <= self.nodes@.len(),
                count <= i,
            decreases self.nodes@.len() - i,
        {
            let is_healthy = match self.nodes[i].status {
                NodeStatus::Healthy => true,
                _ => false,
            };
            if is_healthy {
                count = count + 1;
            }
            i = i + 1;
        }
        count
    }
}

// ---------------------------------------------------------------------------
// Failure detection.
// ---------------------------------------------------------------------------

/// Heartbeat-based failure detection: a node is suspect after one
/// silence threshold and failed after a longer one.
pub struct FailureDetector {
    /// Silence in milliseconds before a node is suspect.
    pub suspicion_timeout_ms: u64,
    /// Silence in milliseconds before a node is failed.
    pub failure_timeout_ms: u64,
}

impl FailureDetector {
    pub fn new(suspicion_timeout_ms: u64, failure_timeout_ms: u64) -> (r: Self)
        ensures
            r.suspicion_timeout_ms == suspicion_timeout_ms,
            r.failure_timeout_ms == failure_timeout_ms,
    {
        FailureDetector { suspicion_timeout_ms, failure_timeout_ms }
    }

    /// Whether a node silent for this many milliseconds is suspect.
    pub fn is_suspect(&self, elapsed_ms: u64) -> (r: bool)
        ensures
            r == (elapsed_ms > self.suspicion_timeout_ms),
    {
        elapsed_ms > self.suspicion_timeout_ms
    }

    /// Whether a node silent for this many milliseconds is failed.
    pub fn is_failed(&self, elapsed_ms: u64) -> (r: bool)
        ensures
            r == (elapsed_ms > self.failure_timeout_ms),
    {
        elapsed_ms > self.failure_timeout_ms
    }
}

impl Default for FailureDetector {
    /// Five seconds to suspicion, ten to failure.
    fn default() -> (r: Self)
        ensures
            r.suspicion_timeout_ms == 5000,
            r.failure_timeout_ms == 10000,
    {
        FailureDetector { suspicion_timeout_ms: 5000, failure_timeout_ms: 10000 }
    }
}

// ---------------------------------------------------------------------------
// Cluster metadata: the routing table of the metadata group.
// ---------------------------------------------------------------------------

/// Where a partition lives.
#[derive(Debug)]
pub struct RoutingEntry {
    pub group_id: RaftGroupId,
    pub leader: Option<NodeId>,
    pub replicas: Vec<NodeId>,
}

impl Clone for RoutingEntry {
    fn clone(&self) -> (r: Self)
        ensures
            r.group_id == self.group_id,
            r.leader == self.leader,
            r.replicas@ == self.replicas@,
    {
        let mut replicas: Vec<NodeId> = Vec::new();
        let mut i: usize = 0;
        while i < self.replicas.len()
            invariant
                i <= self.replicas@.len(),
                replicas@ =~= self.replicas@.subrange(0, i as int),
            decreases self.replicas@.len() - i,
        {
            replicas.push(self.replicas[i]);
            proof {
                assert(replicas@ =~= self.replicas@.subrange(0, i + 1));
            }
            i = i + 1;
        }
        proof {
            assert(self.replicas@.subrange(0, self.replicas@.len() as int) =~= self.replicas@);
        }
        RoutingEntry { group_id: self.group_id, leader: self.leader, replicas }
    }
}

/// The partition-to-group routing table and group allocation counter.
pub struct ClusterMetadata {
    routing_table: Vec<(Vec<u8>, RoutingEntry)>,
    next_group_id: u64,
}

/// Whether two byte keys are equal.
fn bytes_eq(a: &Vec<u8>, b: &Vec<u8>) -> (r: bool)
    ensures
        r == (a@ == b@),
{
    if a.len() != b.len() {
        return false;
    }
    let mut i: usize = 0;
    while i < a.len()
        invariant
            i <= a@.len() == b@.len(),
            forall|j: int| 0 <= j < i ==> a@[j] == b@[j],
        decreases a@.len() - i,
    {
        if a[i] != b[i] {
            return false;
        }
        i = i + 1;
    }
    proof {
        assert(a@ =~= b@);
    }
    true
}

impl ClusterMetadata {
    pub closed spec fn spec_next_group(self) -> u64 {
        self.next_group_id
    }

    pub closed spec fn spec_table(self) -> Seq<(Seq<u8>, RaftGroupId)> {
        self.routing_table@.map_values(|e: (Vec<u8>, RoutingEntry)| (e.0@, e.1.group_id))
    }

    /// Group ids start at 1; 0 is the metadata group itself.
    pub fn new() -> (r: Self)
        ensures
            r.spec_next_group() == 1,
            r.spec_table() == Seq::<(Seq<u8>, RaftGroupId)>::empty(),
    {
        let r = ClusterMetadata { routing_table: Vec::new(), next_group_id: 1 };
        proof {
            assert(r.spec_table() =~= Seq::<(Seq<u8>, RaftGroupId)>::empty());
        }
        r
    }

    /// The routing entry of a partition key, if one is recorded.
    #[verifier::loop_isolation(false)]
    pub fn lookup(&self, key: &Vec<u8>) -> (r: Option<RoutingEntry>)
        ensures
            match r {
                Some(e) => exists|i: int| 0 <= i < self.spec_table().len() && (
                #[trigger] self.spec_table()[i]).0 == key@ && self.spec_table()[i].1 == e.group_id,
                None => forall|i: int| 0 <= i < self.spec_table().len() ==> (
                #[trigger] self.spec_table()[i]).0 != key@,
            },
    {
        let mut i: usize = 0;
        while i < self.routing_table.len()
            invariant
                i <= self.routing_table@.len(),
                forall|j: int| 0 <= j < i ==> (#[trigger] self.spec_table()[j]).0 != key@,
            decreases self.routing_table@.len() - i,
        {
            if bytes_eq(&self.routing_table[i].0, key) {
                proof {
                    assert(self.spec_table()[i as int].0 == key@);
                }
                return Some(self.routing_table[i].1.clone());
            }
            proof {
                assert(self.spec_table()[i as int].0 == self.routing_table@[i as int].0@);
            }
            i = i + 1;
        }
        None
    }

    /// Record where a partition lives.
    pub fn update_routing(&mut self, key: Vec<u8>, entry: RoutingEntry)
        ensures
            final(self).spec_table() == old(self).spec_table().push((key@, entry.group_id)),
            final(self).spec_next_group() == old(self).spec_next_group(),
    {
        self.routing_table.push((key, entry));
        proof {
            assert(self.spec_table() =~= old(self).spec_table().push(
                (self.routing_table@.last().0@, self.routing_table@.last().1.group_id),
            ));
        }
    }

    /// Mint a fresh group id.
    pub fn allocate_group_id(&mut self) -> (r: RaftGroupId)
        requires
            old(self).spec_next_group() < u64::MAX,
        ensures
            r.0 == old(self).spec_next_group(),
            final(self).spec_next_group() == old(self).spec_next_group() + 1,
            final(self).spec_table() == old(self).spec_table(),
    {
        let id = self.next_group_id;
        self.next_group_id = self.next_group_id + 1;
        RaftGroupId(id)
    }
}

} // verus!
