//! Partition-aware routing of LSP requests.
//!
//! The router decides whether a request is served locally, sent to one
//! leader, scattered over every group, or run as a two-phase commit; it
//! keeps a path-to-node cache and a group-to-leader cache that leaders'
//! redirects refresh.

use vstd::prelude::*;
use crate::types::{NodeId, RaftGroupId};
use crate::path::{VfsPath, PathKey};

verus! {

/// How a request is dispatched.
#[derive(Clone, Debug)]
pub enum RouteDecision {
    /// To exactly one node: the leader of the file's group.
    Single(NodeId),
    /// Served from local state.
    LocalOnly,
    /// Fanned out to every listed group and aggregated.
    ScatterGather(Vec<RaftGroupId>),
    /// A mutation across the listed groups, prepared then committed.
    TwoPhaseCommit(Vec<RaftGroupId>),
}

/// The cached leader in a leader list.
pub open spec fn seq_leader_of(s: Seq<(RaftGroupId, NodeId)>, g: u64) -> Option<u64> {
    if exists|i: int| 0 <= i < s.len() && (#[trigger] s[i]).0.0 == g {
        let i = choose|i: int| 0 <= i < s.len() && (#[trigger] s[i]).0.0 == g;
        Some(s[i].1.0)
    } else {
        None
    }
}

/// The cached owner in a path cache list.
pub open spec fn seq_owner_of(s: Seq<(VfsPath, NodeId)>, k: PathKey) -> Option<u64> {
    if exists|i: int| 0 <= i < s.len() && (#[trigger] s[i]).0.key() == k {
        let i = choose|i: int| 0 <= i < s.len() && (#[trigger] s[i]).0.key() == k;
        Some(s[i].1.0)
    } else {
        None
    }
}

pub open spec fn leaders_unique(s: Seq<(RaftGroupId, NodeId)>) -> bool {
    forall|i: int, j: int| 0 <= i < j < s.len() ==> (#[trigger] s[i]).0.0 != (#[trigger] s[j]).0.0
}

pub open spec fn owners_unique(s: Seq<(VfsPath, NodeId)>) -> bool {
    forall|i: int, j: int| 0 <= i < j < s.len() ==> (#[trigger] s[i]).0.key() != (
    #[trigger] s[j]).0.key()
}

proof fn lemma_seq_leader_at(s: Seq<(RaftGroupId, NodeId)>, i: int)
    requires
        leaders_unique(s),
        0 <= i < s.len(),
    ensures
        seq_leader_of(s, s[i].0.0) == Some(s[i].1.0),
{
    let g = s[i].0.0;
    assert(exists|j: int| 0 <= j < s.len() && (#[trigger] s[j]).0.0 == g);
    let j = choose|j: int| 0 <= j < s.len() && (#[trigger] s[j]).0.0 == g;
    if i != j {
        assert(false);
    }
}

proof fn lemma_seq_owner_at(s: Seq<(VfsPath, NodeId)>, i: int)
    requires
        owners_unique(s),
        0 <= i < s.len(),
    ensures
        seq_owner_of(s, s[i].0.key()) == Some(s[i].1.0),
{
    let k = s[i].0.key();
    assert(exists|j: int| 0 <= j < s.len() && (#[trigger] s[j]).0.key() == k);
    let j = choose|j: int| 0 <= j < s.len() && (#[trigger] s[j]).0.key() == k;
    if i != j {
        assert(false);
    }
}

/// Updating one group's entry leaves every other lookup unchanged.
proof fn lemma_leader_update(s: Seq<(RaftGroupId, NodeId)>, i: int, e: (RaftGroupId, NodeId))
    requires
        leaders_unique(s),
        0 <= i < s.len(),
        e.0.0 == s[i].0.0,
    ensures
        leaders_unique(s.update(i, e)),
        seq_leader_of(s.update(i, e), e.0.0) == Some(e.1.0),
        forall|g: u64| g != e.0.0 ==> #[trigger] seq_leader_of(s.update(i, e), g)
            == seq_leader_of(s, g),
{
    let s2 = s.update(i, e);
    assert forall|a: int, b: int| 0 <= a < b < s2.len() implies (#[trigger] s2[a]).0.0 != (
    #[trigger] s2[b]).0.0 by {
        assert(s2[a].0.0 == s[a].0.0 && s2[b].0.0 == s[b].0.0);
    }
    lemma_seq_leader_at(s2, i);
    assert forall|g: u64| g != e.0.0 implies #[trigger] seq_leader_of(s2, g) == seq_leader_of(
        s,
        g,
    ) by {
        if exists|a: int| 0 <= a < s.len() && (#[trigger] s[a]).0.0 == g {
            let a = choose|a: int| 0 <= a < s.len() && (#[trigger] s[a]).0.0 == g;
            assert(a != i);
            assert(s2[a].0.0 == g);
            lemma_seq_leader_at(s, a);
            lemma_seq_leader_at(s2, a);
        } else {
            if exists|a: int| 0 <= a < s2.len() && (#[trigger] s2[a]).0.0 == g {
                let a = choose|a: int| 0 <= a < s2.len() && (#[trigger] s2[a]).0.0 == g;
                assert(s[a].0.0 == g);
            }
        }
    }
}

/// Appending a fresh group leaves every other lookup unchanged.
proof fn lemma_leader_push(s: Seq<(RaftGroupId, NodeId)>, e: (RaftGroupId, NodeId))
    requires
        leaders_unique(s),
        forall|i: int| 0 <= i < s.len() ==> (#[trigger] s[i]).0.0 != e.0.0,
    ensures
        leaders_unique(s.push(e)),
        seq_leader_of(s.push(e), e.0.0) == Some(e.1.0),
        forall|g: u64| g != e.0.0 ==> #[trigger] seq_leader_of(s.push(e), g) == seq_leader_of(
            s,
            g,
        ),
{
    let s2 = s.push(e);
    assert forall|a: int, b: int| 0 <= a < b < s2.len() implies (#[trigger] s2[a]).0.0 != (
    #[trigger] s2[b]).0.0 by {
        if b == s.len() {
            assert(s2[a].0.0 == s[a].0.0);
        }
    }
    lemma_seq_leader_at(s2, s.len() as int);
    assert forall|g: u64| g != e.0.0 implies #[trigger] seq_leader_of(s2, g) == seq_leader_of(
        s,
        g,
    ) by {
        if exists|a: int| 0 <= a < s.len() && (#[trigger] s[a]).0.0 == g {
            let a = choose|a: int| 0 <= a < s.len() && (#[trigger] s[a]).0.0 == g;
            assert(s2[a].0.0 == g);
            lemma_seq_leader_at(s, a);
            lemma_seq_leader_at(s2, a);
        } else {
            if exists|a: int| 0 <= a < s2.len() && (#[trigger] s2[a]).0.0 == g {
                let a = choose|a: int| 0 <= a < s2.len() && (#[trigger] s2[a]).0.0 == g;
                assert(a < s.len());
                assert(s[a].0.0 == g);
            }
        }
    }
}

/// The same two facts for the path cache, on update and push.
proof fn lemma_owner_update(s: Seq<(VfsPath, NodeId)>, i: int, e: (VfsPath, NodeId))
    requires
        owners_unique(s),
        0 <= i < s.len(),
        e.0.key() == s[i].0.key(),
    ensures
        owners_unique(s.update(i, e)),
        seq_owner_of(s.update(i, e), e.0.key()) == Some(e.1.0),
        forall|k: PathKey| k != e.0.key() ==> #[trigger] seq_owner_of(s.update(i, e), k)
            == seq_owner_of(s, k),
{
    let s2 = s.update(i, e);
    assert forall|a: int, b: int| 0 <= a < b < s2.len() implies (#[trigger] s2[a]).0.key() != (
    #[trigger] s2[b]).0.key() by {
        assert(s2[a].0.key() == s[a].0.key() && s2[b].0.key() == s[b].0.key());
    }
    lemma_seq_owner_at(s2, i);
    assert forall|k: PathKey| k != e.0.key() implies #[trigger] seq_owner_of(s2, k)
        == seq_owner_of(s, k) by {
        if exists|a: int| 0 <= a < s.len() && (#[trigger] s[a]).0.key() == k {
            let a = choose|a: int| 0 <= a < s.len() && (#[trigger] s[a]).0.key() == k;
            assert(a != i);
            assert(s2[a].0.key() == k);
            lemma_seq_owner_at(s, a);
            lemma_seq_owner_at(s2, a);
        } else {
            if exists|a: int| 0 <= a < s2.len() && (#[trigger] s2[a]).0.key() == k {
                let a = choose|a: int| 0 <= a < s2.len() && (#[trigger] s2[a]).0.key() == k;
                assert(s[a].0.key() == k);
            }
        }
    }
}

proof fn lemma_owner_push(s: Seq<(VfsPath, NodeId)>, e: (VfsPath, NodeId))
    requires
        owners_unique(s),
        forall|i: int| 0 <= i < s.len() ==> (#[trigger] s[i]).0.key() != e.0.key(),
    ensures
        owners_unique(s.push(e)),
        seq_owner_of(s.push(e), e.0.key()) == Some(e.1.0),
        forall|k: PathKey| k != e.0.key() ==> #[trigger] seq_owner_of(s.push(e), k)
            == seq_owner_of(s, k),
{
    let s2 = s.push(e);
    assert forall|a: int, b: int| 0 <= a < b < s2.len() implies (#[trigger] s2[a]).0.key() != (
    #[trigger] s2[b]).0.key() by {
        if b == s.len() {
            assert(s2[a].0.key() == s[a].0.key());
        }
    }
    lemma_seq_owner_at(s2, s.len() as int);
    assert forall|k: PathKey| k != e.0.key() implies #[trigger] seq_owner_of(s2, k)
        == seq_owner_of(s, k) by {
        if exists|a: int| 0 <= a < s.len() && (#[trigger] s[a]).0.key() == k {
            let a = choose|a: int| 0 <= a < s.len() && (#[trigger] s[a]).0.key() == k;
            assert(s2[a].0.key() == k);
            lemma_seq_owner_at(s, a);
            lemma_seq_owner_at(s2, a);
        } else {
            if exists|a: int| 0 <= a < s2.len() && (#[trigger] s2[a]).0.key() == k {
                let a = choose|a: int| 0 <= a < s2.len() && (#[trigger] s2[a]).0.key() == k;
                assert(a < s.len());
                assert(s[a].0.key() == k);
            }
        }
    }
}

proof fn lemma_owner_remove(s: Seq<(VfsPath, NodeId)>, i: int)
    requires
        owners_unique(s),
        0 <= i < s.len(),
    ensures
        owners_unique(s.remove(i)),
        seq_owner_of(s.remove(i), s[i].0.key()) is None,
        forall|k: PathKey| k != s[i].0.key() ==> #[trigger] seq_owner_of(s.remove(i), k)
            == seq_owner_of(s, k),
{
    let s2 = s.remove(i);
    assert forall|a: int, b: int| 0 <= a < b < s2.len() implies (#[trigger] s2[a]).0.key() != (
    #[trigger] s2[b]).0.key() by {
        let a0 = if a < i { a } else { a + 1 };
        let b0 = if b < i { b } else { b + 1 };
        assert(s2[a] == s[a0] && s2[b] == s[b0]);
    }
    if exists|a: int| 0 <= a < s2.len() && (#[trigger] s2[a]).0.key() == s[i].0.key() {
        let a = choose|a: int| 0 <= a < s2.len() && (#[trigger] s2[a]).0.key() == s[i].0.key();
        let a0 = if a < i { a } else { a + 1 };
        assert(s2[a] == s[a0]);
        assert(false);
    }
    assert forall|k: PathKey| k != s[i].0.key() implies #[trigger] seq_owner_of(s2, k)
        == seq_owner_of(s, k) by {
        if exists|a: int| 0 <= a < s.len() && (#[trigger] s[a]).0.key() == k {
            let a = choose|a: int| 0 <= a < s.len() && (#[trigger] s[a]).0.key() == k;
            assert(a != i);
            let a2 = if a < i { a } else { a - 1 };
            assert(s2[a2] == s[a]);
            lemma_seq_owner_at(s, a);
            lemma_seq_owner_at(s2, a2);
        } else {
            if exists|a: int| 0 <= a < s2.len() && (#[trigger] s2[a]).0.key() == k {
                let a = choose|a: int| 0 <= a < s2.len() && (#[trigger] s2[a]).0.key() == k;
                let a0 = if a < i { a } else { a + 1 };
                assert(s2[a] == s[a0]);
            }
        }
    }
}

/// The router's caches and identity.
pub struct LspRouter {
    /// Which node owns each path, learned from successful routing.
    file_cache: Vec<(VfsPath, NodeId)>,
    /// Which node leads each group, refreshed from leader redirects.
    group_leaders: Vec<(RaftGroupId, NodeId)>,
    /// This node.
    local_node_id: Option<NodeId>,
}

impl LspRouter {
    /// No path key occurs twice and no group occurs twice.
    pub closed spec fn inv(self) -> bool {
        owners_unique(self.file_cache@) && leaders_unique(self.group_leaders@)
    }

    /// The cached owner of a path.
    pub closed spec fn owner_of(self, k: PathKey) -> Option<u64> {
        seq_owner_of(self.file_cache@, k)
    }

    /// The cached leader of a group.
    pub closed spec fn leader_of(self, g: u64) -> Option<u64> {
        seq_leader_of(self.group_leaders@, g)
    }

    /// The set of groups with a cached leader.
    pub open spec fn known_groups(self) -> Set<u64> {
        Set::new(|g: u64| self.leader_of(g) is Some)
    }

    pub closed spec fn spec_local(self) -> Option<u64> {
        match self.local_node_id {
            Some(n) => Some(n.0),
            None => None,
        }
    }

    /// An empty router with cold caches.
    pub fn new() -> (r: Self)
        ensures
            r.inv(),
            forall|k: PathKey| #[trigger] r.owner_of(k) is None,
            forall|g: u64| #[trigger] r.leader_of(g) is None,
            r.spec_local() is None,
    {
        LspRouter { file_cache: Vec::new(), group_leaders: Vec::new(), local_node_id: None }
    }

    /// Record this node's identity.
    pub fn set_local_node(&mut self, node_id: NodeId)
        requires
            old(self).inv(),
        ensures
            final(self).inv(),
            final(self).spec_local() == Some(node_id.0),
            forall|k: PathKey| #[trigger] final(self).owner_of(k) == old(self).owner_of(k),
            forall|g: u64| #[trigger] final(self).leader_of(g) == old(self).leader_of(g),
    {
        self.local_node_id = Some(node_id);
    }

    /// Learn a group's leader, as a redirect or a successful reply
    /// reported it.
    #[verifier::loop_isolation(false)]
    pub fn update_leader(&mut self, group_id: RaftGroupId, leader: NodeId)
        requires
            old(self).inv(),
        ensures
            final(self).inv(),
            final(self).leader_of(group_id.0) == Some(leader.0),
            forall|g: u64| g != group_id.0 ==> #[trigger] final(self).leader_of(g) == old(
                self,
            ).leader_of(g),
            forall|k: PathKey| #[trigger] final(self).owner_of(k) == old(self).owner_of(k),
            final(self).spec_local() == old(self).spec_local(),
    {
        let mut i: usize = 0;
        while i < self.group_leaders.len()
            invariant
                i <= self.group_leaders@.len(),
                *self == *old(self),
                forall|j: int| 0 <= j < i ==> (#[trigger] self.group_leaders@[j]).0.0
                    != group_id.0,
            decreases self.group_leaders@.len() - i,
        {
            if self.group_leaders[i].0.0 == group_id.0 {
                proof {
                    lemma_leader_update(self.group_leaders@, i as int, (group_id, leader));
                }
                self.group_leaders.set(i, (group_id, leader));
                return;
            }
            i = i + 1;
        }
        proof {
            lemma_leader_push(self.group_leaders@, (group_id, leader));
        }
        self.group_leaders.push((group_id, leader));
    }

    /// Route a request on one file: to the cached owner when the cache
    /// is warm, else to local state.
    #[verifier::loop_isolation(false)]
    pub fn route_for_file(&self, path: &VfsPath) -> (r: RouteDecision)
        requires
            self.inv(),
        ensures
            match self.owner_of(path.key()) {
                Some(n) => r matches RouteDecision::Single(node) && node.0 == n,
                None => r matches RouteDecision::LocalOnly,
            },
    {
        let mut i: usize = 0;
        while i < self.file_cache.len()
            invariant
                i <= self.file_cache@.len(),
                forall|j: int| 0 <= j < i ==> (#[trigger] self.file_cache@[j]).0.key()
                    != path.key(),
            decreases self.file_cache@.len() - i,
        {
            if self.file_cache[i].0 == *path {
                proof {
                    lemma_seq_owner_at(self.file_cache@, i as int);
                }
                return RouteDecision::Single(self.file_cache[i].1);
            }
            i = i + 1;
        }
        RouteDecision::LocalOnly
    }

    /// Route a workspace-wide request: scatter over every known group,
    /// or serve locally when no leader is known.
    #[verifier::loop_isolation(false)]
    pub fn route_workspace(&self) -> (r: RouteDecision)
        requires
            self.inv(),
        ensures
            self.known_groups() =~= Set::<u64>::empty() ==> r matches RouteDecision::LocalOnly,
            !(self.known_groups() =~= Set::<u64>::empty()) ==> (r matches
                RouteDecision::ScatterGather(gs) && gs@.map_values(|g: RaftGroupId| g.0).to_set()
                == self.known_groups()),
    {
        if self.group_leaders.len() == 0 {
            proof {
                assert forall|g: u64| !(#[trigger] self.known_groups().contains(g)) by {
                    assert(self.leader_of(g) is None);
                }
                assert(self.known_groups() =~= Set::<u64>::empty());
            }
            return RouteDecision::LocalOnly;
        }
        let mut groups: Vec<RaftGroupId> = Vec::new();
        let mut i: usize = 0;
        while i < self.group_leaders.len()
            invariant
                i <= self.group_leaders@.len(),
                groups@.len() == i,
                forall|j: int| 0 <= j < i ==> (#[trigger] groups@[j]).0
                    == self.group_leaders@[j].0.0,
            decreases self.group_leaders@.len() - i,
        {
            groups.push(self.group_leaders[i].0);
            i = i + 1;
        }
        proof {
            let gs = groups@.map_values(|g: RaftGroupId| g.0);
            assert forall|g: u64| #[trigger] gs.to_set().contains(g) implies self.known_groups().contains(
                g,
            ) by {
                let j = choose|j: int| 0 <= j < gs.len() && gs[j] == g;
                lemma_seq_leader_at(self.group_leaders@, j);
            }
            assert forall|g: u64| #[trigger] self.known_groups().contains(g) implies gs.to_set().contains(
                g,
            ) by {
                assert(seq_leader_of(self.group_leaders@, g) is Some);
                let j = choose|j: int| 0 <= j < self.group_leaders@.len() && (
                #[trigger] self.group_leaders@[j]).0.0 == g;
                assert(gs[j] == g);
            }
            assert(gs.to_set() =~= self.known_groups());
            lemma_seq_leader_at(self.group_leaders@, 0);
            assert(self.known_groups().contains(self.group_leaders@[0].0.0));
        }
        RouteDecision::ScatterGather(groups)
    }

    /// The cached leader of a group.
    #[verifier::loop_isolation(false)]
    pub fn get_leader(&self, group_id: RaftGroupId) -> (r: Option<NodeId>)
        requires
            self.inv(),
        ensures
            match r {
                Some(n) => self.leader_of(group_id.0) == Some(n.0),
                None => self.leader_of(group_id.0) is None,
            },
    {
        let mut i: usize = 0;
        while i < self.group_leaders.len()
            invariant
                i <= self.group_leaders@.len(),
                forall|j: int| 0 <= j < i ==> (#[trigger] self.group_leaders@[j]).0.0
                    != group_id.0,
            decreases self.group_leaders@.len() - i,
        {
            if self.group_leaders[i].0.0 == group_id.0 {
                proof {
                    lemma_seq_leader_at(self.group_leaders@, i as int);
                }
                return Some(self.group_leaders[i].1);
            }
            i = i + 1;
        }
        None
    }

    /// Remember which node served a path.
    #[verifier::loop_isolation(false)]
    pub fn cache_file_owner(&mut self, path: VfsPath, node_id: NodeId)
        requires
            old(self).inv(),
        ensures
            final(self).inv(),
            final(self).owner_of(path.key()) == Some(node_id.0),
            forall|k: PathKey| k != path.key() ==> #[trigger] final(self).owner_of(k) == old(
                self,
            ).owner_of(k),
            forall|g: u64| #[trigger] final(self).leader_of(g) == old(self).leader_of(g),
    {
        let mut i: usize = 0;
        while i < self.file_cache.len()
            invariant
                i <= self.file_cache@.len(),
                *self == *old(self),
                forall|j: int| 0 <= j < i ==> (#[trigger] self.file_cache@[j]).0.key()
                    != path.key(),
            decreases self.file_cache@.len() - i,
        {
            if self.file_cache[i].0 == path {
                proof {
                    lemma_owner_update(self.file_cache@, i as int, (path, node_id));
                }
                self.file_cache.set(i, (path, node_id));
                return;
            }
            i = i + 1;
        }
        proof {
            lemma_owner_push(self.file_cache@, (path, node_id));
        }
        self.file_cache.push((path, node_id));
    }

    /// Forget a path's cached owner.
    #[verifier::loop_isolation(false)]
    pub fn invalidate_file(&mut self, path: &VfsPath)
        requires
            old(self).inv(),
        ensures
            final(self).inv(),
            final(self).owner_of(path.key()) is None,
            forall|k: PathKey| k != path.key() ==> #[trigger] final(self).owner_of(k) == old(
                self,
            ).owner_of(k),
            forall|g: u64| #[trigger] final(self).leader_of(g) == old(self).leader_of(g),
    {
        let mut i: usize = 0;
        while i < self.file_cache.len()
            invariant
                i <= self.file_cache@.len(),
                *self == *old(self),
                forall|j: int| 0 <= j < i ==> (#[trigger] self.file_cache@[j]).0.key()
                    != path.key(),
            decreases self.file_cache@.len() - i,
        {
            if self.file_cache[i].0 == *path {
                proof {
                    lemma_owner_remove(self.file_cache@, i as int);
                }
                self.file_cache.remove(i);
                return;
            }
            i = i + 1;
        }
    }

    /// Drop all cached state.
    pub fn clear(&mut self)
        ensures
            final(self).inv(),
            forall|k: PathKey| #[trigger] final(self).owner_of(k) is None,
            forall|g: u64| #[trigger] final(self).leader_of(g) is None,
            final(self).spec_local() == old(self).spec_local(),
    {
        self.file_cache.clear();
        self.group_leaders.clear();
    }
}

// ---------------------------------------------------------------------------
// Scatter-gather aggregation.
// ---------------------------------------------------------------------------

/// Accumulates per-group responses and errors of a fan-out.
pub struct ResponseAggregator<T> {
    responses: Vec<T>,
    errors: Vec<String>,
}

impl<T> ResponseAggregator<T> {
    pub closed spec fn spec_responses(self) -> Seq<T> {
        self.responses@
    }

    pub closed spec fn spec_errors(self) -> Seq<Seq<char>> {
        self.errors@.map_values(|s: String| s@)
    }

    /// An empty aggregate.
    pub fn new() -> (r: Self)
        ensures
            r.spec_responses() == Seq::<T>::empty(),
            r.spec_errors() == Seq::<Seq<char>>::empty(),
    {
        let r = ResponseAggregator { responses: Vec::new(), errors: Vec::new() };
        proof {
            assert(r.spec_errors() =~= Seq::<Seq<char>>::empty());
        }
        r
    }

    /// Keep one leg's response.
    pub fn add_response(&mut self, response: T)
        ensures
            final(self).spec_responses() == old(self).spec_responses().push(response),
            final(self).spec_errors() == old(self).spec_errors(),
    {
        self.responses.push(response);
        proof {
            assert(self.spec_errors() =~= old(self).spec_errors());
        }
    }

    /// Keep one leg's error.
    pub fn add_error(&mut self, error: String)
        ensures
            final(self).spec_errors() == old(self).spec_errors().push(error@),
            final(self).spec_responses() == old(self).spec_responses(),
    {
        self.errors.push(error);
        proof {
            assert(self.spec_errors() =~= old(self).spec_errors().push(error@));
        }
    }

    /// Everything gathered, as a pair of responses and errors.
    pub fn into_results(self) -> (r: (Vec<T>, Vec<String>))
        ensures
            r.0@ == self.spec_responses(),
            r.1@.map_values(|s: String| s@) == self.spec_errors(),
    {
        (self.responses, self.errors)
    }

    /// The responses gathered so far.
    pub fn responses(&self) -> (r: &[T])
        ensures
            r@ == self.spec_responses(),
    {
        self.responses.as_slice()
    }

    /// Whether any leg erred.
    pub fn has_errors(&self) -> (r: bool)
        ensures
            r == (self.spec_errors().len() > 0),
    {
        !self.errors.is_empty()
    }
}

} // verus!
