//! The replicated log: entries, votes, and the single-writer log store.
//!
//! The store is the authoritative in-memory model of the durable log; a
//! persistence layer mirrors it to a key-value engine whose keys are the
//! big-endian entry indices, so that lexical key order equals numeric
//! log order.

use vstd::prelude::*;
use crate::types::RaftGroupId;
use crate::commands::{VfsCommand, CmdModel, cmd_model};

verus! {

/// A log position: a term and an index, ordered by index within a term
/// and by term across terms.
#[derive(Clone, Copy, Debug, PartialEq, Eq, Structural)]
pub struct LogId {
    pub term: u64,
    pub index: u64,
}

/// A persisted vote of the consensus protocol.
#[derive(Clone, Copy, Debug, PartialEq, Eq, Structural)]
pub struct Vote {
    pub term: u64,
    pub node_id: u64,
    pub committed: bool,
}

/// A member node as carried in membership entries: its network address.
#[derive(Debug)]
pub struct VRaftNode {
    pub addr: String,
}

/// A group's membership configuration.
#[derive(Debug)]
pub struct RaftMembership {
    pub group_id: RaftGroupId,
    pub nodes: Vec<(u64, VRaftNode)>,
    pub leader: Option<u64>,
}

/// A replicated request: the command and the group it is for.
#[derive(Debug)]
pub struct VfsRequest {
    pub group_id: RaftGroupId,
    pub command: VfsCommand,
}

/// What a log entry carries.
#[derive(Debug)]
pub enum EntryPayload {
    /// A leader's no-op entry.
    Blank,
    /// A replicated VFS request.
    Normal(VfsRequest),
    /// A membership change.
    Membership(RaftMembership),
}

/// One entry of the replicated log.
#[derive(Debug)]
pub struct LogEntry {
    pub log_id: LogId,
    pub payload: EntryPayload,
}

// Spec-level mirrors.

pub struct MembershipModel {
    pub group: u64,
    pub nodes: Seq<(u64, Seq<char>)>,
    pub leader: Option<u64>,
}

pub open spec fn membership_model(m: RaftMembership) -> MembershipModel {
    MembershipModel {
        group: m.group_id.0,
        nodes: m.nodes@.map_values(|p: (u64, VRaftNode)| (p.0, p.1.addr@)),
        leader: m.leader,
    }
}

pub enum PayloadModel {
    Blank,
    Normal { group: u64, cmd: CmdModel },
    Membership(MembershipModel),
}

pub open spec fn payload_model(p: EntryPayload) -> PayloadModel {
    match p {
        EntryPayload::Blank => PayloadModel::Blank,
        EntryPayload::Normal(req) => PayloadModel::Normal {
            group: req.group_id.0,
            cmd: cmd_model(req.command),
        },
        EntryPayload::Membership(m) => PayloadModel::Membership(membership_model(m)),
    }
}

pub struct EntryModel {
    pub log_id: LogId,
    pub payload: PayloadModel,
}

pub open spec fn entry_model(e: LogEntry) -> EntryModel {
    EntryModel { log_id: e.log_id, payload: payload_model(e.payload) }
}

pub open spec fn log_view(v: Seq<LogEntry>) -> Seq<EntryModel> {
    v.map_values(|e: LogEntry| entry_model(e))
}


// ---------------------------------------------------------------------------
// Clones that preserve the models.
// ---------------------------------------------------------------------------

impl Clone for VRaftNode {
    fn clone(&self) -> (r: Self)
        ensures
            r.addr@ == self.addr@,
    {
        VRaftNode { addr: self.addr.clone() }
    }
}

impl Clone for RaftMembership {
    fn clone(&self) -> (r: Self)
        ensures
            membership_model(r) == membership_model(*self),
    {
        let mut nodes: Vec<(u64, VRaftNode)> = Vec::new();
        let mut i: usize = 0;
        while i < self.nodes.len()
            invariant
                i <= self.nodes@.len(),
                nodes@.len() == i,
                forall|k: int| #![auto] 0 <= k < i ==> nodes@[k].0 == self.nodes@[k].0
                    && nodes@[k].1.addr@ == self.nodes@[k].1.addr@,
            decreases self.nodes@.len() - i,
        {
            let pair = &self.nodes[i];
            nodes.push((pair.0, pair.1.clone()));
            i = i + 1;
        }
        let r = RaftMembership { group_id: self.group_id, nodes, leader: self.leader };
        proof {
            assert(membership_model(r).nodes =~= membership_model(*self).nodes);
        }
        r
    }
}

impl Clone for VfsRequest {
    fn clone(&self) -> (r: Self)
        ensures
            r.group_id == self.group_id,
            crate::commands::cmd_model(r.command) == crate::commands::cmd_model(self.command),
    {
        VfsRequest { group_id: self.group_id, command: self.command.clone() }
    }
}

impl Clone for EntryPayload {
    fn clone(&self) -> (r: Self)
        ensures
            payload_model(r) == payload_model(*self),
    {
        match self {
            EntryPayload::Blank => EntryPayload::Blank,
            EntryPayload::Normal(req) => EntryPayload::Normal(req.clone()),
            EntryPayload::Membership(m) => EntryPayload::Membership(m.clone()),
        }
    }
}

impl Clone for LogEntry {
    fn clone(&self) -> (r: Self)
        ensures
            entry_model(r) == entry_model(*self),
            r.log_id == self.log_id,
    {
        LogEntry { log_id: self.log_id, payload: self.payload.clone() }
    }
}

/// Mapping a log entry sequence commutes with push.
pub proof fn lemma_log_view_push(v: Seq<LogEntry>, e: LogEntry)
    ensures
        log_view(v.push(e)) == log_view(v) + seq![entry_model(e)],
{
    assert(log_view(v.push(e)) =~= log_view(v) + seq![entry_model(e)]);
}

// ---------------------------------------------------------------------------
// The durable key layout: 8-byte big-endian indices.
// ---------------------------------------------------------------------------

/// The big-endian bytes of a log index, most significant first.
pub open spec fn be_bytes(x: u64) -> Seq<u8> {
    seq![
        (x >> 56) as u8,
        (x >> 48) as u8,
        (x >> 40) as u8,
        (x >> 32) as u8,
        (x >> 24) as u8,
        (x >> 16) as u8,
        (x >> 8) as u8,
        x as u8,
    ]
}

/// The key a log index is stored under: its 8 big-endian bytes.
pub fn log_key(index: u64) -> (r: Vec<u8>)
    ensures
        r@ == be_bytes(index),
{
    let mut r: Vec<u8> = Vec::new();
    r.push((index >> 56) as u8);
    r.push((index >> 48) as u8);
    r.push((index >> 40) as u8);
    r.push((index >> 32) as u8);
    r.push((index >> 24) as u8);
    r.push((index >> 16) as u8);
    r.push((index >> 8) as u8);
    r.push(index as u8);
    proof {
        assert(r@ =~= be_bytes(index));
    }
    r
}

/// The index a key was made from.
pub fn index_from_key(key: &Vec<u8>) -> (r: u64)
    requires
        key@.len() == 8,
    ensures
        key@ == be_bytes(r) ==> r == spec_index_of(key@),
        r == spec_index_of(key@),
{
    ((key[0] as u64) << 56) | ((key[1] as u64) << 48) | ((key[2] as u64) << 40) | ((key[3] as u64)
        << 32) | ((key[4] as u64) << 24) | ((key[5] as u64) << 16) | ((key[6] as u64) << 8) | (
    key[7] as u64)
}

/// The index encoded by 8 big-endian bytes.
pub open spec fn spec_index_of(k: Seq<u8>) -> u64 {
    (((k[0] as u64) << 56) | ((k[1] as u64) << 48) | ((k[2] as u64) << 40) | ((k[3] as u64) << 32)
        | ((k[4] as u64) << 24) | ((k[5] as u64) << 16) | ((k[6] as u64) << 8) | (
    k[7] as u64)) as u64
}

/// Key encoding round-trips: decoding the key of an index yields it.
pub proof fn lemma_key_round_trip(x: u64)
    ensures
        spec_index_of(be_bytes(x)) == x,
{
    assert(((((x >> 56) as u8) as u64) << 56) | ((((x >> 48) as u8) as u64) << 48) | ((((x >> 40)
        as u8) as u64) << 40) | ((((x >> 32) as u8) as u64) << 32) | ((((x >> 24) as u8) as u64)
        << 24) | ((((x >> 16) as u8) as u64) << 16) | ((((x >> 8) as u8) as u64) << 8) | (((
    x as u8) as u64)) == x) by (bit_vector);
}

/// Lexicographic order on two 8-byte keys, most significant byte first.
pub open spec fn key_lt(a: Seq<u8>, b: Seq<u8>) -> bool {
    if a[0] != b[0] {
        a[0] < b[0]
    } else if a[1] != b[1] {
        a[1] < b[1]
    } else if a[2] != b[2] {
        a[2] < b[2]
    } else if a[3] != b[3] {
        a[3] < b[3]
    } else if a[4] != b[4] {
        a[4] < b[4]
    } else if a[5] != b[5] {
        a[5] < b[5]
    } else if a[6] != b[6] {
        a[6] < b[6]
    } else {
        a[7] < b[7]
    }
}

/// Lexical order on big-endian keys is numeric order on indices: what
/// makes range deletes on the key space sound.
pub proof fn lemma_key_order(x: u64, y: u64)
    ensures
        key_lt(be_bytes(x), be_bytes(y)) <==> x < y,
{
    let a0 = (x >> 56) as u8;
    let b0 = (y >> 56) as u8;
    let a1 = (x >> 48) as u8;
    let b1 = (y >> 48) as u8;
    let a2 = (x >> 40) as u8;
    let b2 = (y >> 40) as u8;
    let a3 = (x >> 32) as u8;
    let b3 = (y >> 32) as u8;
    let a4 = (x >> 24) as u8;
    let b4 = (y >> 24) as u8;
    let a5 = (x >> 16) as u8;
    let b5 = (y >> 16) as u8;
    let a6 = (x >> 8) as u8;
    let b6 = (y >> 8) as u8;
    let a7 = x as u8;
    let b7 = y as u8;
    assert((if a0 != b0 {
        a0 < b0
    } else if a1 != b1 {
        a1 < b1
    } else if a2 != b2 {
        a2 < b2
    } else if a3 != b3 {
        a3 < b3
    } else if a4 != b4 {
        a4 < b4
    } else if a5 != b5 {
        a5 < b5
    } else if a6 != b6 {
        a6 < b6
    } else {
        a7 < b7
    }) <==> x < y) by (bit_vector)
        requires
            a0 == (x >> 56) as u8 && b0 == (y >> 56) as u8 && a1 == (x >> 48) as u8 && b1 == (y
                >> 48) as u8 && a2 == (x >> 40) as u8 && b2 == (y >> 40) as u8 && a3 == (x >> 32)
                as u8 && b3 == (y >> 32) as u8 && a4 == (x >> 24) as u8 && b4 == (y >> 24) as u8
                && a5 == (x >> 16) as u8 && b5 == (y >> 16) as u8 && a6 == (x >> 8) as u8 && b6 == (
            y >> 8) as u8 && a7 == x as u8 && b7 == y as u8,
    ;
}

// ---------------------------------------------------------------------------
// The log store.
// ---------------------------------------------------------------------------

/// The single-writer log store of one group: an ordered, contiguous run
/// of entries plus the persisted vote, committed and last-purged marks.
pub struct LogStore {
    entries: Vec<LogEntry>,
    vote: Option<Vote>,
    committed: Option<LogId>,
    last_purged: Option<LogId>,
}

impl LogStore {
    /// The stored entries.
    pub closed spec fn entries_view(self) -> Seq<EntryModel> {
        log_view(self.entries@)
    }

    pub closed spec fn spec_vote(self) -> Option<Vote> {
        self.vote
    }

    pub closed spec fn spec_committed(self) -> Option<LogId> {
        self.committed
    }

    pub closed spec fn spec_last_purged(self) -> Option<LogId> {
        self.last_purged
    }

    /// The index of the first stored entry (meaningful when non-empty).
    pub open spec fn first_index(self) -> u64 {
        self.entries_view()[0].log_id.index
    }

    /// The id of the last entry the log knows of: the last stored entry,
    /// or the purge mark when the log is empty.
    pub open spec fn last_log_id(self) -> Option<LogId> {
        if self.entries_view().len() > 0 {
            Some(self.entries_view().last().log_id)
        } else {
            self.spec_last_purged()
        }
    }

    /// Entries are contiguous by index and lie strictly above the purge
    /// mark.
    pub open spec fn inv(self) -> bool {
        &&& forall|i: int| 0 <= i < self.entries_view().len() ==> (
        #[trigger] self.entries_view()[i]).log_id.index == self.first_index() + i
        &&& self.first_index() + self.entries_view().len() <= u64::MAX
        &&& match self.spec_last_purged() {
            Some(p) => self.entries_view().len() > 0 ==> self.first_index() > p.index,
            None => true,
        }
    }

    /// An empty store with no marks.
    pub fn new() -> (r: Self)
        ensures
            r.inv(),
            r.entries_view() == Seq::<EntryModel>::empty(),
            r.spec_vote() is None,
            r.spec_committed() is None,
            r.spec_last_purged() is None,
    {
        let r = LogStore { entries: Vec::new(), vote: None, committed: None, last_purged: None };
        proof {
            assert(r.entries_view() =~= Seq::<EntryModel>::empty());
        }
        r
    }

    /// Rebuild a store from recovered state, as read back from the
    /// durable engine on startup.
    pub fn restore(
        entries: Vec<LogEntry>,
        vote: Option<Vote>,
        committed: Option<LogId>,
        last_purged: Option<LogId>,
    ) -> (r: Self)
        requires
            forall|i: int| 0 <= i < entries@.len() ==> (#[trigger] entries@[i]).log_id.index
                == entries@[0].log_id.index + i,
            entries@.len() > 0 ==> entries@[0].log_id.index + entries@.len() <= u64::MAX,
            match last_purged {
                Some(p) => entries@.len() > 0 ==> entries@[0].log_id.index > p.index,
                None => true,
            },
        ensures
            r.inv(),
            r.entries_view() == log_view(entries@),
            r.spec_vote() == vote,
            r.spec_committed() == committed,
            r.spec_last_purged() == last_purged,
    {
        let r = LogStore { entries, vote, committed, last_purged };
        r
    }

    /// Append entries at the tail. The caller appends in strictly
    /// increasing index order, continuing the existing run.
    pub fn append(&mut self, entries: Vec<LogEntry>)
        requires
            old(self).inv(),
            forall|i: int| 0 <= i < entries@.len() ==> (#[trigger] entries@[i]).log_id.index
                == entries@[0].log_id.index + i,
            entries@.len() > 0 && old(self).entries_view().len() > 0 ==> entries@[0].log_id.index
                == old(self).last_log_id().unwrap().index + 1,
            entries@.len() > 0 && old(self).entries_view().len() == 0 ==> match old(
                self,
            ).spec_last_purged() {
                Some(p) => entries@[0].log_id.index > p.index,
                None => true,
            },
            entries@.len() > 0 ==> entries@[0].log_id.index + entries@.len() <= u64::MAX,
        ensures
            final(self).inv(),
            final(self).entries_view() == old(self).entries_view() + log_view(entries@),
            final(self).spec_vote() == old(self).spec_vote(),
            final(self).spec_committed() == old(self).spec_committed(),
            final(self).spec_last_purged() == old(self).spec_last_purged(),
    {
        let ghost old_view = self.entries_view();
        let mut incoming = entries;
        let ghost inc = incoming@;
        self.entries.append(&mut incoming);
        proof {
            assert(self.entries@ == old(self).entries@ + inc);
            assert(self.entries_view() =~= old_view + log_view(inc));
        }
    }

    /// Remove the suffix from `log_id.index` on; the purge mark does not
    /// move.
    pub fn truncate(&mut self, log_id: LogId)
        requires
            old(self).inv(),
        ensures
            final(self).inv(),
            final(self).entries_view() == old(self).entries_view().take(
                final(self).entries_view().len() as int,
            ),
            forall|j: int| 0 <= j < final(self).entries_view().len() ==> (
            #[trigger] final(self).entries_view()[j]).log_id.index < log_id.index,
            forall|j: int|
                final(self).entries_view().len() <= j < old(self).entries_view().len() ==> (
                #[trigger] old(self).entries_view()[j]).log_id.index >= log_id.index,
            final(self).spec_vote() == old(self).spec_vote(),
            final(self).spec_committed() == old(self).spec_committed(),
            final(self).spec_last_purged() == old(self).spec_last_purged(),
    {
        let n = self.entries.len();
        if n == 0 {
            proof {
                assert(self.entries_view().take(0) =~= self.entries_view());
            }
            return;
        }
        let first = self.entries[0].log_id.index;
        let keep: usize = if log_id.index <= first {
            0
        } else if log_id.index - first < n as u64 {
            (log_id.index - first) as usize
        } else {
            n
        };
        self.entries.truncate(keep);
        proof {
            assert(self.entries@ =~= old(self).entries@.subrange(0, keep as int));
            assert(self.entries_view() =~= old(self).entries_view().take(keep as int));
        }
    }

    /// Advance the purge mark to `log_id` and drop every entry with an
    /// index at or below it.
    pub fn purge(&mut self, log_id: LogId)
        requires
            old(self).inv(),
        ensures
            final(self).inv(),
            final(self).spec_last_purged() == Some(log_id),
            final(self).entries_view() == old(self).entries_view().skip(
                old(self).entries_view().len() - final(self).entries_view().len(),
            ),
            forall|j: int| 0 <= j < final(self).entries_view().len() ==> (
            #[trigger] final(self).entries_view()[j]).log_id.index > log_id.index,
            forall|j: int|
                0 <= j < old(self).entries_view().len() - final(self).entries_view().len() ==> (
                #[trigger] old(self).entries_view()[j]).log_id.index <= log_id.index,
            final(self).spec_vote() == old(self).spec_vote(),
            final(self).spec_committed() == old(self).spec_committed(),
    {
        self.last_purged = Some(log_id);
        let n = self.entries.len();
        if n == 0 {
            proof {
                assert(self.entries_view().skip(0) =~= self.entries_view());
            }
            return;
        }
        let first = self.entries[0].log_id.index;
        let drop_count: usize = if log_id.index < first {
            0
        } else {
            let offset = log_id.index - first;
            if offset >= n as u64 {
                n
            } else {
                (offset + 1) as usize
            }
        };
        let tail = self.entries.split_off(drop_count);
        self.entries = tail;
        proof {
            assert(self.entries@ =~= old(self).entries@.skip(drop_count as int));
            assert(self.entries_view() =~= old(self).entries_view().skip(drop_count as int));
        }
    }

    /// The log state: the purge mark and the last known log id; an empty
    /// log reports the purge mark as its last id.
    pub fn get_log_state(&self) -> (r: (Option<LogId>, Option<LogId>))
        requires
            self.inv(),
        ensures
            r.0 == self.spec_last_purged(),
            r.1 == self.last_log_id(),
    {
        let last = if self.entries.len() > 0 {
            Some(self.entries[self.entries.len() - 1].log_id)
        } else {
            self.last_purged
        };
        (self.last_purged, last)
    }

    /// The stored entries with indices in `[lo, hi)`: the read starts at
    /// `lo` and stops at the first absent index, so it is empty unless
    /// `lo` itself is stored — in particular, empty for any `lo` at or
    /// below the purge mark.
    pub fn try_get_log_entries(&self, lo: u64, hi: u64) -> (r: Vec<LogEntry>)
        requires
            self.inv(),
        ensures
            log_view(r@) == range_of(self.entries_view(), lo, hi),
            forall|j: int| 0 <= j < r@.len() ==> (#[trigger] log_view(r@)[j]).log_id.index == lo
                + j,
    {
        let mut out: Vec<LogEntry> = Vec::new();
        let n = self.entries.len();
        if n == 0 || hi <= lo {
            proof {
                assert(log_view(out@) =~= range_of(self.entries_view(), lo, hi));
            }
            return out;
        }
        let first = self.entries[0].log_id.index;
        if lo < first || lo - first >= n as u64 {
            proof {
                assert(log_view(out@) =~= range_of(self.entries_view(), lo, hi));
            }
            return out;
        }
        let a: usize = (lo - first) as usize;
        let b: usize = if hi - first < n as u64 {
            (hi - first) as usize
        } else {
            n
        };
        let mut i: usize = a;
        while i < b
            invariant
                a <= i,
                i <= b || b < a,
                b <= n == self.entries@.len(),
                log_view(out@) =~= log_view(self.entries@).subrange(a as int, i as int),
            decreases b - i,
        {
            let ghost before = out@;
            let e = self.entries[i].clone();
            out.push(e);
            proof {
                lemma_log_view_push(before, e);
                assert(log_view(self.entries@).subrange(a as int, i as int) + seq![entry_model(e)]
                    =~= log_view(self.entries@).subrange(a as int, i + 1));
            }
            i = i + 1;
        }
        proof {
            assert(log_view(out@) =~= range_of(self.entries_view(), lo, hi));
        }
        out
    }

    /// Record the latest vote.
    pub fn save_vote(&mut self, vote: Vote)
        ensures
            final(self).spec_vote() == Some(vote),
            final(self).entries_view() == old(self).entries_view(),
            final(self).spec_committed() == old(self).spec_committed(),
            final(self).spec_last_purged() == old(self).spec_last_purged(),
            old(self).inv() ==> final(self).inv(),
    {
        self.vote = Some(vote);
    }

    /// The recorded vote.
    pub fn read_vote(&self) -> (r: Option<Vote>)
        ensures
            r == self.spec_vote(),
    {
        self.vote
    }

    /// Record the last committed log id.
    pub fn save_committed(&mut self, committed: Option<LogId>)
        ensures
            final(self).spec_committed() == committed,
            final(self).entries_view() == old(self).entries_view(),
            final(self).spec_vote() == old(self).spec_vote(),
            final(self).spec_last_purged() == old(self).spec_last_purged(),
            old(self).inv() ==> final(self).inv(),
    {
        self.committed = committed;
    }

    /// The recorded committed log id.
    pub fn read_committed(&self) -> (r: Option<LogId>)
        ensures
            r == self.spec_committed(),
    {
        self.committed
    }
}

/// The entries a range read `[lo, hi)` yields: the run starting exactly
/// at `lo` and stopping at `hi` or at the first absent index. A `lo`
/// that is not stored — below the first entry (at or under the purge
/// mark) or past the last — yields the empty range.
pub open spec fn range_of(v: Seq<EntryModel>, lo: u64, hi: u64) -> Seq<EntryModel> {
    if v.len() == 0 || hi <= lo {
        Seq::empty()
    } else {
        let f = v[0].log_id.index;
        if lo < f || lo - f >= v.len() {
            Seq::empty()
        } else {
            let b = if hi - f < v.len() {
                hi - f
            } else {
                v.len() as int
            };
            v.subrange(lo - f, b)
        }
    }
}

} // verus!
