//! The state machine that consumes committed log entries and drives one
//! group's VFS, with its snapshot builder and installer.

use vstd::prelude::*;
use vstd::pervasive::unreached;
use crate::types::RaftGroupId;
use crate::vfs::{Vfs, FsModel, apply_step, cmd_size, files_map, unique_ids, has_file_id,
    file_idx, lemma_model_wf, lemma_apply_bounds};
use crate::file::VfsFile;
use crate::commands::{VfsResponse, RespModel, resp_model, cmd_model};
use crate::logstore::{LogId, LogEntry, EntryModel, EntryPayload, PayloadModel, RaftMembership,
    MembershipModel, membership_model, log_view, entry_model};

verus! {

/// The response a state machine gives for one applied entry.
#[derive(Debug)]
pub struct VfsStateMachineResponse {
    pub response: VfsResponse,
}

pub open spec fn responses_view(v: Seq<VfsStateMachineResponse>) -> Seq<RespModel> {
    v.map_values(|r: VfsStateMachineResponse| resp_model(r.response))
}

proof fn lemma_responses_view_push(v: Seq<VfsStateMachineResponse>, r: VfsStateMachineResponse)
    ensures
        responses_view(v.push(r)) == responses_view(v) + seq![resp_model(r.response)],
{
    assert(responses_view(v.push(r)) =~= responses_view(v) + seq![resp_model(r.response)]);
}

/// The observable state of a state machine.
pub struct SmModel {
    pub fs: FsModel,
    pub last_applied: Option<LogId>,
    pub membership_log_id: Option<LogId>,
    pub membership: Option<MembershipModel>,
}

/// Applying one committed entry: the applied mark always advances to the
/// entry's id; a blank entry does nothing else, a command drives the
/// VFS, a membership entry replaces the stored configuration.
pub open spec fn sm_step(m: SmModel, e: EntryModel) -> (SmModel, RespModel) {
    match e.payload {
        PayloadModel::Blank => (
            SmModel { last_applied: Some(e.log_id), ..m },
            RespModel::Applied(None),
        ),
        PayloadModel::Normal { group, cmd } => {
            let st = apply_step(m.fs, cmd);
            (SmModel { fs: st.0, last_applied: Some(e.log_id), ..m }, st.1)
        },
        PayloadModel::Membership(mm) => (
            SmModel {
                last_applied: Some(e.log_id),
                membership_log_id: Some(e.log_id),
                membership: Some(mm),
                ..m
            },
            RespModel::Applied(None),
        ),
    }
}

/// Applying a run of committed entries in order, with one response per
/// entry.
pub open spec fn sm_steps(m: SmModel, es: Seq<EntryModel>) -> (SmModel, Seq<RespModel>)
    decreases es.len(),
{
    if es.len() == 0 {
        (m, Seq::empty())
    } else {
        let prefix = sm_steps(m, es.drop_last());
        let step = sm_step(prefix.0, es.last());
        (step.0, prefix.1.push(step.1))
    }
}

/// How much id and version headroom an entry can consume.
pub open spec fn entry_size(e: EntryModel) -> nat {
    match e.payload {
        PayloadModel::Normal { group, cmd } => cmd_size(cmd),
        _ => 0,
    }
}

pub open spec fn entries_size(es: Seq<EntryModel>) -> nat
    decreases es.len(),
{
    if es.len() == 0 {
        0
    } else {
        entries_size(es.drop_last()) + entry_size(es.last())
    }
}

proof fn lemma_entries_size_split(es: Seq<EntryModel>, i: int, n: int)
    requires
        0 <= i < n <= es.len(),
    ensures
        entries_size(es.subrange(i, n)) == entry_size(es[i]) + entries_size(es.subrange(i + 1, n)),
    decreases n - i,
{
    if n == i + 1 {
        assert(es.subrange(i, n) =~= seq![es[i]]);
        assert(es.subrange(i + 1, n) =~= Seq::<EntryModel>::empty());
        assert(seq![es[i]].drop_last() =~= Seq::<EntryModel>::empty());
    } else {
        lemma_entries_size_split(es, i, n - 1);
        assert(es.subrange(i, n).drop_last() =~= es.subrange(i, n - 1));
        assert(es.subrange(i + 1, n).drop_last() =~= es.subrange(i + 1, n - 1));
        assert(es.subrange(i, n).last() == es[n - 1]);
        assert(es.subrange(i + 1, n).last() == es[n - 1]);
    }
}

proof fn lemma_entries_size_prefix(es: Seq<EntryModel>, i: int)
    requires
        0 <= i <= es.len(),
    ensures
        entries_size(es.subrange(0, i)) <= entries_size(es),
    decreases es.len() - i,
{
    if i < es.len() {
        lemma_entries_size_prefix(es, i + 1);
        assert(es.subrange(0, i + 1).drop_last() =~= es.subrange(0, i));
    } else {
        assert(es.subrange(0, i) =~= es);
    }
}

/// The 64-bit counters cannot wrap while these entries apply.
pub open spec fn entries_headroom(m: SmModel, es: Seq<EntryModel>) -> bool {
    &&& m.fs.next_id + entries_size(es) <= u64::MAX
    &&& forall|id: u64| #![auto] m.fs.files.dom().contains(id) ==> m.fs.files[id].version
        + entries_size(es) <= u64::MAX
}

/// Replay is compositional: applying a committed prefix and then the
/// rest reaches the same state and responses as applying the whole run
/// at once, so any replica that has applied `L[0..k]` is in the state
/// the whole prefix determines, however the entries were batched.
pub proof fn lemma_replay_prefix(m: SmModel, es1: Seq<EntryModel>, es2: Seq<EntryModel>)
    ensures
        sm_steps(m, es1 + es2).0 == sm_steps(sm_steps(m, es1).0, es2).0,
        sm_steps(m, es1 + es2).1 == sm_steps(m, es1).1 + sm_steps(sm_steps(m, es1).0, es2).1,
    decreases es2.len(),
{
    if es2.len() == 0 {
        assert(es1 + es2 =~= es1);
        assert(sm_steps(m, es1).1 + sm_steps(sm_steps(m, es1).0, es2).1 =~= sm_steps(m, es1).1);
    } else {
        lemma_replay_prefix(m, es1, es2.drop_last());
        assert((es1 + es2).drop_last() =~= es1 + es2.drop_last());
        assert((es1 + es2).last() == es2.last());
        assert(sm_steps(m, es1).1 + sm_steps(sm_steps(m, es1).0, es2).1 =~= (sm_steps(m, es1).1
            + sm_steps(sm_steps(m, es1).0, es2.drop_last()).1).push(
            sm_step(sm_steps(sm_steps(m, es1).0, es2.drop_last()).0, es2.last()).1,
        ));
    }
}

// ---------------------------------------------------------------------------
// Snapshots.
// ---------------------------------------------------------------------------

/// The file records of a snapshot.
#[derive(Debug)]
pub struct VfsSnapshotState {
    pub files: Vec<VfsFile>,
}

/// A snapshot: the applied mark, the membership, and every file record.
#[derive(Debug)]
pub struct VfsSnapshot {
    pub last_applied_log: Option<LogId>,
    pub membership_log_id: Option<LogId>,
    pub membership: Option<RaftMembership>,
    pub vfs_state: VfsSnapshotState,
}

pub open spec fn opt_membership_model(o: Option<RaftMembership>) -> Option<MembershipModel> {
    match o {
        Some(m) => Some(membership_model(m)),
        None => None,
    }
}

/// The snapshot captures exactly the machine's observable state.
pub open spec fn snapshot_matches(s: VfsSnapshot, m: SmModel) -> bool {
    &&& files_map(s.vfs_state.files@) == m.fs.files
    &&& s.last_applied_log == m.last_applied
    &&& s.membership_log_id == m.membership_log_id
    &&& opt_membership_model(s.membership) == m.membership
}

/// The machine's observable state is exactly the snapshot's content.
pub open spec fn installed_from(m: SmModel, s: VfsSnapshot) -> bool {
    &&& m.fs.files == files_map(s.vfs_state.files@)
    &&& m.last_applied == s.last_applied_log
    &&& m.membership_log_id == s.membership_log_id
    &&& m.membership == opt_membership_model(s.membership)
}

/// A snapshot fit to install: distinct ids and paths, checksums that
/// match loaded content, and ids below the id ceiling.
pub open spec fn snapshot_wf(s: VfsSnapshot, group: u64) -> bool {
    &&& unique_ids(s.vfs_state.files@)
    &&& forall|i: int, j: int| 0 <= i < j < s.vfs_state.files@.len() ==> (
    #[trigger] s.vfs_state.files@[i]).path.key() != (#[trigger] s.vfs_state.files@[j]).path.key()
    &&& forall|i: int| 0 <= i < s.vfs_state.files@.len() ==> (
    #[trigger] s.vfs_state.files@[i]).checksum_ok()
    &&& forall|i: int| 0 <= i < s.vfs_state.files@.len() ==> (
    #[trigger] s.vfs_state.files@[i]).owning_group.0 == group
    &&& forall|i: int| 0 <= i < s.vfs_state.files@.len() ==> (
    #[trigger] s.vfs_state.files@[i]).id.0 < u64::MAX
}

/// Round trip: a snapshot built from one machine and installed into
/// another leaves the second with the first's observable state — the
/// same files, applied mark and membership.
pub proof fn lemma_snapshot_roundtrip(s: VfsSnapshot, m: SmModel, m2: SmModel)
    requires
        snapshot_matches(s, m),
        installed_from(m2, s),
    ensures
        m2.fs.files == m.fs.files,
        m2.last_applied == m.last_applied,
        m2.membership_log_id == m.membership_log_id,
        m2.membership == m.membership,
{
}

// ---------------------------------------------------------------------------
// The state machine.
// ---------------------------------------------------------------------------

/// One group's state machine: the VFS it drives, the last applied log
/// id, and the stored membership.
pub struct VfsStateMachine {
    vfs: Vfs,
    last_applied_log: Option<LogId>,
    membership_log_id: Option<LogId>,
    membership: Option<RaftMembership>,
    group_id: RaftGroupId,
}

impl VfsStateMachine {
    pub closed spec fn inv(self) -> bool {
        &&& self.vfs.inv()
        &&& self.vfs.model().group == self.group_id.0
    }

    pub closed spec fn model(self) -> SmModel {
        SmModel {
            fs: self.vfs.model(),
            last_applied: self.last_applied_log,
            membership_log_id: self.membership_log_id,
            membership: opt_membership_model(self.membership),
        }
    }

    pub closed spec fn spec_group(self) -> u64 {
        self.group_id.0
    }

    /// A fresh state machine over an empty VFS.
    pub fn new(group_id: RaftGroupId) -> (r: Self)
        ensures
            r.inv(),
            r.spec_group() == group_id.0,
            r.model().fs.files == Map::<u64, crate::file::FileModel>::empty(),
            r.model().fs.next_id == 1,
            r.model().last_applied is None,
            r.model().membership is None,
            r.model().membership_log_id is None,
    {
        VfsStateMachine {
            vfs: Vfs::new(group_id),
            last_applied_log: None,
            membership_log_id: None,
            membership: None,
            group_id,
        }
    }

    /// A state machine over an existing VFS of the same group.
    pub fn with_vfs(group_id: RaftGroupId, vfs: Vfs) -> (r: Self)
        requires
            vfs.inv(),
            vfs.model().group == group_id.0,
        ensures
            r.inv(),
            r.spec_group() == group_id.0,
            r.model().fs == vfs.model(),
            r.model().last_applied is None,
            r.model().membership is None,
    {
        VfsStateMachine {
            vfs,
            last_applied_log: None,
            membership_log_id: None,
            membership: None,
            group_id,
        }
    }

    /// The VFS this machine drives; under the machine's invariant the
    /// handed-out VFS satisfies its own, so its queries are callable.
    pub fn vfs(&self) -> (r: &Vfs)
        ensures
            *r == self.spec_vfs(),
            self.inv() ==> r.inv(),
    {
        &self.vfs
    }

    pub closed spec fn spec_vfs(self) -> Vfs {
        self.vfs
    }

    /// The applied mark and stored membership.
    pub fn applied_state(&self) -> (r: (Option<LogId>, Option<LogId>))
        ensures
            r.0 == self.model().last_applied,
            r.1 == self.model().membership_log_id,
    {
        (self.last_applied_log, self.membership_log_id)
    }

    /// Whether the counters can absorb these entries: the premise that
    /// `apply` asks for, decided at run time so an unverified caller can
    /// test it before applying.
    #[verifier::loop_isolation(false)]
    pub fn can_apply(&self, entries: &Vec<LogEntry>) -> (r: bool)
        requires
            self.inv(),
        ensures
            r == entries_headroom(self.model(), log_view(entries@)),
    {
        let ghost evs = log_view(entries@);
        let mut size: u64 = 0;
        let mut i: usize = 0;
        proof {
            assert(evs.subrange(0, 0) =~= Seq::<EntryModel>::empty());
        }
        while i < entries.len()
            invariant
                i <= entries@.len(),
                evs == log_view(entries@),
                size == entries_size(evs.subrange(0, i as int)),
            decreases entries@.len() - i,
        {
            proof {
                assert(evs.subrange(0, i + 1).drop_last() =~= evs.subrange(0, i as int));
                assert(evs.subrange(0, i + 1).last() == evs[i as int]);
            }
            let step: u64 = match &entries[i].payload {
                EntryPayload::Normal(req) => match &req.command {
                    crate::commands::VfsCommand::BatchWrite { operations } => {
                        if operations.len() as u64 > u64::MAX - size {
                            proof {
                                lemma_entries_size_prefix(evs, i + 1);
                            }
                            return false;
                        }
                        operations.len() as u64
                    },
                    _ => {
                        if size == u64::MAX {
                            proof {
                                lemma_entries_size_prefix(evs, i + 1);
                            }
                            return false;
                        }
                        1
                    },
                },
                _ => 0,
            };
            size = size + step;
            i = i + 1;
        }
        proof {
            assert(evs.subrange(0, evs.len() as int) =~= evs);
        }
        self.vfs.headroom(size)
    }

    /// Apply committed entries in order, one response per entry: the
    /// deterministic transition of the replicated state machine.
    pub fn apply(&mut self, entries: Vec<LogEntry>) -> (r: Vec<VfsStateMachineResponse>)
        requires
            old(self).inv(),
            entries_headroom(old(self).model(), log_view(entries@)),
        ensures
            final(self).inv(),
            final(self).spec_group() == old(self).spec_group(),
            final(self).model() == sm_steps(old(self).model(), log_view(entries@)).0,
            responses_view(r@) == sm_steps(old(self).model(), log_view(entries@)).1,
    {
        let ghost m0 = self.model();
        let ghost evs = log_view(entries@);
        let mut responses: Vec<VfsStateMachineResponse> = Vec::new();
        let mut i: usize = 0;
        proof {
            assert(evs.subrange(0, 0) =~= Seq::<EntryModel>::empty());
            assert(evs.subrange(0, evs.len() as int) =~= evs);
            assert(responses_view(responses@) =~= Seq::<RespModel>::empty());
        }
        while i < entries.len()
            invariant
                i <= entries@.len(),
                evs == log_view(entries@),
                evs.len() == entries@.len(),
                self.inv(),
                self.spec_group() == old(self).spec_group(),
                self.model() == sm_steps(m0, evs.subrange(0, i as int)).0,
                responses_view(responses@) == sm_steps(m0, evs.subrange(0, i as int)).1,
                self.model().fs.next_id + entries_size(evs.subrange(i as int, evs.len() as int))
                    <= u64::MAX,
                forall|id: u64| #![auto] self.model().fs.files.dom().contains(id)
                    ==> self.model().fs.files[id].version + entries_size(
                    evs.subrange(i as int, evs.len() as int),
                ) <= u64::MAX,
            decreases entries@.len() - i,
        {
            let ghost pre = self.model();
            proof {
                lemma_entries_size_split(evs, i as int, evs.len() as int);
                assert(evs.subrange(0, i + 1).drop_last() =~= evs.subrange(0, i as int));
                assert(evs.subrange(0, i + 1).last() == evs[i as int]);
                lemma_model_wf(self.spec_vfs());
            }
            let entry = entries[i].clone();
            proof {
                assert(entry_model(entry) == evs[i as int]);
            }
            let log_id = entry.log_id;
            let resp: VfsResponse = match entry.payload {
                EntryPayload::Blank => {
                    self.last_applied_log = Some(log_id);
                    VfsResponse::Applied(None)
                },
                EntryPayload::Normal(req) => {
                    self.last_applied_log = Some(log_id);
                    proof {
                        lemma_apply_bounds(pre.fs, cmd_model(req.command));
                    }
                    self.vfs.apply(req.command)
                },
                EntryPayload::Membership(mm) => {
                    self.last_applied_log = Some(log_id);
                    self.membership_log_id = Some(log_id);
                    self.membership = Some(mm);
                    VfsResponse::Applied(None)
                },
            };
            let smr = VfsStateMachineResponse { response: resp };
            proof {
                lemma_responses_view_push(responses@, smr);
                assert(sm_steps(m0, evs.subrange(0, i as int)).1.push(
                    sm_step(pre, evs[i as int]).1,
                ) =~= sm_steps(m0, evs.subrange(0, i + 1)).1);
            }
            responses.push(smr);
            i = i + 1;
        }
        proof {
            assert(evs.subrange(0, evs.len() as int) =~= evs);
        }
        responses
    }

    /// Build a snapshot of the current observable state: the applied
    /// mark, the membership, and every file record.
    pub fn build_snapshot(&self) -> (r: VfsSnapshot)
        requires
            self.inv(),
        ensures
            snapshot_matches(r, self.model()),
            snapshot_wf(r, self.spec_group()),
    {
        let ids = self.vfs.all_file_ids();
        let mut files: Vec<VfsFile> = Vec::new();
        let mut i: usize = 0;
        while i < ids.len()
            invariant
                i <= ids@.len(),
                self.inv(),
                forall|k1: int, k2: int| 0 <= k1 < k2 < ids@.len() ==> (#[trigger] ids@[k1]).0 != (
                #[trigger] ids@[k2]).0,
                forall|k: int| 0 <= k < ids@.len() ==> self.model().fs.files.dom().contains(
                    (#[trigger] ids@[k]).0,
                ),
                files@.len() == i,
                forall|k: int| 0 <= k < i ==> (#[trigger] files@[k]).id.0 == ids@[k].0,
                forall|k: int| 0 <= k < i ==> (#[trigger] files@[k]).model()
                    == self.model().fs.files[ids@[k].0],
            decreases ids@.len() - i,
        {
            match self.vfs.get_file(ids[i]) {
                Some(f) => {
                    proof {
                        crate::vfs::lemma_ids_consistent(self.spec_vfs());
                        assert(f.model().id == ids@[i as int].0);
                    }
                    files.push(f);
                },
                None => {
                    return unreached();
                },
            }
            i = i + 1;
        }
        let ghost m = self.model();
        proof {
            assert forall|k1: int, k2: int| 0 <= k1 < k2 < files@.len() implies (
            #[trigger] files@[k1]).id.0 != (#[trigger] files@[k2]).id.0 by {
                assert(ids@[k1].0 != ids@[k2].0);
            }
            assert forall|id: u64| #![auto] has_file_id(files@, id) <==> m.fs.files.dom().contains(
                id,
            ) by {
                if has_file_id(files@, id) {
                    let k = choose|k: int| 0 <= k < files@.len() && (#[trigger] files@[k]).id.0
                        == id;
                    assert(m.fs.files.dom().contains(ids@[k].0));
                }
                if m.fs.files.dom().contains(id) {
                    let k = choose|k: int| 0 <= k < ids@.len() && (#[trigger] ids@[k]).0 == id;
                    assert(files@[k].id.0 == id);
                }
            }
            assert forall|id: u64| #![auto] has_file_id(files@, id) implies files_map(files@)[id]
                == m.fs.files[id] by {
                let k = file_idx(files@, id);
                assert(0 <= k < files@.len() && files@[k].id.0 == id);
                assert(files@[k].model() == m.fs.files[ids@[k].0]);
            }
            assert(files_map(files@) =~= m.fs.files);
            assert forall|i2: int, j2: int| 0 <= i2 < j2 < files@.len() implies (
            #[trigger] files@[i2]).path.key() != (#[trigger] files@[j2]).path.key() by {
                crate::vfs::lemma_paths_unique(self.spec_vfs());
                assert(files@[i2].model() == m.fs.files[ids@[i2].0]);
                assert(files@[j2].model() == m.fs.files[ids@[j2].0]);
                assert(files@[i2].model().path == files@[i2].path.key());
            }
            assert forall|i2: int| 0 <= i2 < files@.len() implies (
            #[trigger] files@[i2]).checksum_ok() by {
                crate::vfs::lemma_checksum_invariant(self.spec_vfs());
                assert(files@[i2].model() == m.fs.files[ids@[i2].0]);
            }
            assert forall|i2: int| 0 <= i2 < files@.len() implies (
            #[trigger] files@[i2]).owning_group.0 == self.spec_group() by {
                crate::vfs::lemma_groups_consistent(self.spec_vfs());
                assert(files@[i2].model() == m.fs.files[ids@[i2].0]);
            }
            assert forall|i2: int| 0 <= i2 < files@.len() implies (#[trigger] files@[i2]).id.0
                < u64::MAX by {
                lemma_model_wf(self.spec_vfs());
                assert(m.fs.files.dom().contains(files@[i2].id.0));
            }
        }
        let membership = match &self.membership {
            Some(mm) => Some(mm.clone()),
            None => None,
        };
        VfsSnapshot {
            last_applied_log: self.last_applied_log,
            membership_log_id: self.membership_log_id,
            membership,
            vfs_state: VfsSnapshotState { files },
        }
    }

    /// Install a snapshot: replace the applied mark, the membership and
    /// the whole file map with the snapshot's content; the next-id
    /// counter moves past the largest id present.
    pub fn install_snapshot(&mut self, snapshot: VfsSnapshot)
        requires
            old(self).inv(),
            snapshot_wf(snapshot, old(self).spec_group()),
        ensures
            final(self).inv(),
            final(self).spec_group() == old(self).spec_group(),
            installed_from(final(self).model(), snapshot),
            forall|id: u64| #![auto] final(self).model().fs.files.dom().contains(id)
                ==> id < final(self).model().fs.next_id,
    {
        let VfsSnapshot { last_applied_log, membership_log_id, membership, vfs_state } = snapshot;
        self.vfs.replace_with_files(vfs_state.files);
        self.last_applied_log = last_applied_log;
        self.membership_log_id = membership_log_id;
        self.membership = membership;
    }

    /// A freshly built snapshot of the current state.
    pub fn get_current_snapshot(&self) -> (r: Option<VfsSnapshot>)
        requires
            self.inv(),
        ensures
            r matches Some(s) && snapshot_matches(s, self.model()),
    {
        Some(self.build_snapshot())
    }
}

} // verus!
