//! The in-memory virtual file system: the deterministic state that
//! committed commands mutate.
//!
//! The observable state is modelled by [`FsModel`]: a map from file id to
//! file record (timestamps excluded) plus the next-id counter. Every
//! mutation is specified as a pure step function on that model, and the
//! executable operations are proved to follow it exactly.

use vstd::prelude::*;
use vstd::pervasive::VecAdditionalExecFns;
use crate::types::{FileId, FileVersion, RaftGroupId, Timestamp, hash64_str};
use crate::path::{VfsPath, PathKey};
use crate::file::{VfsFile, FileChangeEvent, FileChangeType, FileModel, ContentModel, EventModel,
    event_model, meta_default};
use crate::commands::{VfsCommand, BatchWriteOp, VfsResponse, VfsBatchResult, VfsCommandError,
    CmdModel, OpModel, ErrModel, ResModel, RespModel, cmd_model, res_model, resp_model, ops_view};
use crate::error::VRaftError;

verus! {

// ---------------------------------------------------------------------------
// The observable model and its step functions.
// ---------------------------------------------------------------------------

/// The observable state of one group's VFS, timestamps excluded.
pub struct FsModel {
    /// Every file, by id.
    pub files: Map<u64, FileModel>,
    /// The next id to mint.
    pub next_id: u64,
    /// The owning consensus group.
    pub group: u64,
}

/// Some file in the model has this path.
pub open spec fn path_taken(m: FsModel, k: PathKey) -> bool {
    exists|id: u64| #![auto] m.files.dom().contains(id) && m.files[id].path == k
}

/// The step for creating a file.
pub open spec fn create_step(m: FsModel, path: PathKey, path_text: Seq<char>, content: Seq<char>)
    -> (FsModel, RespModel, Seq<EventModel>) {
    if path_taken(m, path) {
        (m, RespModel::Error(ErrModel::Exists(path_text)), Seq::empty())
    } else {
        let id = m.next_id;
        let f = FileModel {
            id,
            path,
            path_text,
            version: 0,
            content: ContentModel::Loaded(content),
            checksum: hash64_str(content),
            group: m.group,
            metadata: meta_default(),
        };
        let m2 = FsModel {
            files: m.files.insert(id, f),
            next_id: (m.next_id + 1) as u64,
            group: m.group,
        };
        (
            m2,
            RespModel::Created(id),
            seq![
                EventModel {
                    change_type: FileChangeType::Created,
                    file_id: id,
                    path,
                    version: 0,
                },
            ],
        )
    }
}

/// The successful update of a present file.
pub open spec fn update_ok(m: FsModel, id: u64, content: Seq<char>) -> (
    FsModel,
    RespModel,
    Seq<EventModel>,
) {
    let f = m.files[id];
    let f2 = FileModel {
        version: (f.version + 1) as u64,
        content: ContentModel::Loaded(content),
        checksum: hash64_str(content),
        ..f
    };
    (
        FsModel { files: m.files.insert(id, f2), ..m },
        RespModel::Applied(Some(id)),
        seq![
            EventModel {
                change_type: FileChangeType::Modified,
                file_id: id,
                path: f.path,
                version: f2.version,
            },
        ],
    )
}

/// The step for updating a file's content.
pub open spec fn update_step(m: FsModel, id: u64, content: Seq<char>, expected: Option<u64>) -> (
    FsModel,
    RespModel,
    Seq<EventModel>,
) {
    if !m.files.dom().contains(id) {
        (m, RespModel::Error(ErrModel::NotFound(id)), Seq::empty())
    } else {
        let f = m.files[id];
        match expected {
            Some(e) => if e != f.version {
                (
                    m,
                    RespModel::Error(ErrModel::VersionMismatch { expected: e, actual: f.version }),
                    Seq::empty(),
                )
            } else {
                update_ok(m, id, content)
            },
            None => update_ok(m, id, content),
        }
    }
}

/// The step for deleting a file.
pub open spec fn delete_step(m: FsModel, id: u64) -> (FsModel, RespModel, Seq<EventModel>) {
    if !m.files.dom().contains(id) {
        (m, RespModel::Error(ErrModel::NotFound(id)), Seq::empty())
    } else {
        let f = m.files[id];
        (
            FsModel { files: m.files.remove(id), ..m },
            RespModel::Applied(None),
            seq![
                EventModel {
                    change_type: FileChangeType::Deleted,
                    file_id: id,
                    path: f.path,
                    version: f.version,
                },
            ],
        )
    }
}

/// The step for renaming a file; the version is unchanged.
pub open spec fn rename_step(m: FsModel, id: u64, new_path: PathKey, new_text: Seq<char>) -> (
    FsModel,
    RespModel,
    Seq<EventModel>,
) {
    if path_taken(m, new_path) {
        (m, RespModel::Error(ErrModel::Exists(new_text)), Seq::empty())
    } else if !m.files.dom().contains(id) {
        (m, RespModel::Error(ErrModel::NotFound(id)), Seq::empty())
    } else {
        let f = m.files[id];
        let f2 = FileModel { path: new_path, path_text: new_text, ..f };
        (
            FsModel { files: m.files.insert(id, f2), ..m },
            RespModel::Applied(Some(id)),
            seq![
                EventModel {
                    change_type: FileChangeType::Renamed,
                    file_id: id,
                    path: new_path,
                    version: f.version,
                },
            ],
        )
    }
}

/// The step for one batch operation, with its per-operation result.
pub open spec fn op_step(m: FsModel, op: OpModel) -> (FsModel, ResModel, Seq<EventModel>) {
    match op {
        OpModel::Create { path, path_text, content } => {
            let step = create_step(m, path, path_text, content);
            let res = match step.1 {
                RespModel::Created(id) => ResModel::Success(Some(id)),
                RespModel::Error(e) => ResModel::Error(e),
                _ => ResModel::Success(None),
            };
            (step.0, res, step.2)
        },
        OpModel::Update { id, content } => {
            let step = update_step(m, id, content, None);
            let res = match step.1 {
                RespModel::Applied(id) => ResModel::Success(id),
                RespModel::Error(e) => ResModel::Error(e),
                _ => ResModel::Success(None),
            };
            (step.0, res, step.2)
        },
        OpModel::Delete { id } => {
            let step = delete_step(m, id);
            let res = match step.1 {
                RespModel::Applied(_) => ResModel::Success(None),
                RespModel::Error(e) => ResModel::Error(e),
                _ => ResModel::Success(None),
            };
            (step.0, res, step.2)
        },
    }
}

/// The fold of a batch: operations in order, each on the state the
/// previous ones left; an error leaves earlier effects in place.
pub open spec fn batch_step(m: FsModel, ops: Seq<OpModel>) -> (FsModel, Seq<ResModel>, Seq<EventModel>)
    decreases ops.len(),
{
    if ops.len() == 0 {
        (m, Seq::empty(), Seq::empty())
    } else {
        let prefix = batch_step(m, ops.drop_last());
        let step = op_step(prefix.0, ops.last());
        (step.0, prefix.1.push(step.1), prefix.2 + step.2)
    }
}

/// The step for any command.
pub open spec fn apply_step(m: FsModel, c: CmdModel) -> (FsModel, RespModel, Seq<EventModel>) {
    match c {
        CmdModel::Create { path, path_text, content } => create_step(m, path, path_text, content),
        CmdModel::Update { id, content, expected } => update_step(m, id, content, expected),
        CmdModel::Delete { id } => delete_step(m, id),
        CmdModel::Rename { id, new_path, new_path_text } => rename_step(m, id, new_path, new_path_text),
        CmdModel::Batch { ops } => {
            let step = batch_step(m, ops);
            (step.0, RespModel::Batch(step.1), step.2)
        },
        CmdModel::Invalidate => (m, RespModel::Applied(None), Seq::empty()),
    }
}

// ---------------------------------------------------------------------------
// Machine-limit headroom: ids and versions are 64-bit counters.
// ---------------------------------------------------------------------------

/// How many operations a command performs, coarsely: batches count
/// their length, everything else counts one.
pub open spec fn cmd_size(c: CmdModel) -> nat {
    match c {
        CmdModel::Batch { ops } => ops.len(),
        _ => 1,
    }
}

/// The 64-bit id and version counters cannot wrap while this command
/// applies: a machine limit, not a semantic one.
pub open spec fn apply_headroom(m: FsModel, c: CmdModel) -> bool {
    &&& m.next_id + cmd_size(c) <= u64::MAX
    &&& forall|id: u64| #![auto] m.files.dom().contains(id) ==> m.files[id].version + cmd_size(
        c,
    ) <= u64::MAX
}

// ---------------------------------------------------------------------------
// The file map as a view of the file vector.
// ---------------------------------------------------------------------------

/// Some element of the vector carries this id.
pub open spec fn has_file_id(s: Seq<VfsFile>, id: u64) -> bool {
    exists|i: int| 0 <= i < s.len() && (#[trigger] s[i]).id.0 == id
}

/// The index of the element carrying this id.
pub open spec fn file_idx(s: Seq<VfsFile>, id: u64) -> int {
    choose|i: int| 0 <= i < s.len() && (#[trigger] s[i]).id.0 == id
}

/// No two elements share an id.
pub open spec fn unique_ids(s: Seq<VfsFile>) -> bool {
    forall|i: int, j: int| 0 <= i < j < s.len() ==> (#[trigger] s[i]).id.0 != (#[trigger] s[j]).id.0
}

/// The map each id to the model of its record.
pub open spec fn files_map(s: Seq<VfsFile>) -> Map<u64, FileModel> {
    Map::new(|id: u64| has_file_id(s, id), |id: u64| s[file_idx(s, id)].model())
}

proof fn lemma_files_map_index(s: Seq<VfsFile>, i: int)
    requires
        unique_ids(s),
        0 <= i < s.len(),
    ensures
        files_map(s).dom().contains(s[i].id.0),
        files_map(s)[s[i].id.0] == s[i].model(),
{
    let id = s[i].id.0;
    assert(has_file_id(s, id));
    let j = file_idx(s, id);
    assert(0 <= j < s.len() && s[j].id.0 == id);
    if i != j {
        assert(false);
    }
}

proof fn lemma_files_map_push(s: Seq<VfsFile>, f: VfsFile)
    requires
        unique_ids(s),
        !has_file_id(s, f.id.0),
    ensures
        files_map(s.push(f)) == files_map(s).insert(f.id.0, f.model()),
        unique_ids(s.push(f)),
{
    let s2 = s.push(f);
    assert forall|i: int, j: int| 0 <= i < j < s2.len() implies (#[trigger] s2[i]).id.0
        != (#[trigger] s2[j]).id.0 by {
        if j == s.len() {
            if s2[i].id.0 == f.id.0 {
                assert(has_file_id(s, f.id.0));
            }
        }
    }
    assert forall|id: u64| #![auto] has_file_id(s2, id) implies files_map(s).insert(
        f.id.0,
        f.model(),
    ).dom().contains(id) by {
        let i = choose|i: int| 0 <= i < s2.len() && (#[trigger] s2[i]).id.0 == id;
        if i < s.len() {
            assert(has_file_id(s, id));
        }
    }
    assert forall|id: u64| #![auto] files_map(s).insert(f.id.0, f.model()).dom().contains(id)
        implies has_file_id(s2, id) by {
        if id == f.id.0 {
            assert(s2[s.len() as int].id.0 == id);
        } else {
            let i = file_idx(s, id);
            assert(0 <= i < s.len() && s[i].id.0 == id);
            assert(s2[i].id.0 == id);
        }
    }
    assert forall|id: u64| #![auto] has_file_id(s2, id) implies files_map(s2)[id] == files_map(
        s,
    ).insert(f.id.0, f.model())[id] by {
        let i = file_idx(s2, id);
        assert(0 <= i < s2.len() && s2[i].id.0 == id);
        if id == f.id.0 {
            if i < s.len() {
                assert(has_file_id(s, id));
            }
            assert(i == s.len());
            assert(s2[i] == f);
        } else {
            assert(i < s.len());
            assert(has_file_id(s, id));
            let j = file_idx(s, id);
            assert(0 <= j < s.len() && s[j].id.0 == id);
            if i != j {
                assert(false);
            }
            assert(s2[i] == s[i]);
        }
    }
    assert(files_map(s2) =~= files_map(s).insert(f.id.0, f.model()));
}

proof fn lemma_files_map_update(s: Seq<VfsFile>, i: int, f: VfsFile)
    requires
        unique_ids(s),
        0 <= i < s.len(),
        f.id.0 == s[i].id.0,
    ensures
        files_map(s.update(i, f)) == files_map(s).insert(f.id.0, f.model()),
        unique_ids(s.update(i, f)),
{
    let s2 = s.update(i, f);
    assert forall|a: int, b: int| 0 <= a < b < s2.len() implies (#[trigger] s2[a]).id.0
        != (#[trigger] s2[b]).id.0 by {
        assert(s2[a].id.0 == s[a].id.0 && s2[b].id.0 == s[b].id.0);
    }
    assert forall|id: u64| #![auto] has_file_id(s2, id) <==> has_file_id(s, id) by {
        if has_file_id(s2, id) {
            let a = choose|a: int| 0 <= a < s2.len() && (#[trigger] s2[a]).id.0 == id;
            assert(s[a].id.0 == id);
        }
        if has_file_id(s, id) {
            let a = choose|a: int| 0 <= a < s.len() && (#[trigger] s[a]).id.0 == id;
            assert(s2[a].id.0 == id);
        }
    }
    assert forall|id: u64| #![auto] has_file_id(s2, id) implies files_map(s2)[id] == files_map(
        s,
    ).insert(f.id.0, f.model())[id] by {
        let a = file_idx(s2, id);
        assert(0 <= a < s2.len() && s2[a].id.0 == id);
        if id == f.id.0 {
            if a != i {
                assert(s2[a].id.0 == s[a].id.0 && s[i].id.0 == id);
                assert(false);
            }
            assert(s2[a] == f);
        } else {
            assert(a != i);
            assert(s2[a] == s[a]);
            assert(has_file_id(s, id));
            let b = file_idx(s, id);
            assert(0 <= b < s.len() && s[b].id.0 == id);
            if a != b {
                assert(false);
            }
        }
    }
    assert(files_map(s2) =~= files_map(s).insert(f.id.0, f.model()));
}

proof fn lemma_files_map_remove(s: Seq<VfsFile>, i: int)
    requires
        unique_ids(s),
        0 <= i < s.len(),
    ensures
        files_map(s.remove(i)) == files_map(s).remove(s[i].id.0),
        unique_ids(s.remove(i)),
{
    let s2 = s.remove(i);
    assert forall|a: int, b: int| 0 <= a < b < s2.len() implies (#[trigger] s2[a]).id.0
        != (#[trigger] s2[b]).id.0 by {
        let a0 = if a < i { a } else { a + 1 };
        let b0 = if b < i { b } else { b + 1 };
        assert(s2[a] == s[a0] && s2[b] == s[b0]);
    }
    assert forall|id: u64| #![auto] has_file_id(s2, id) implies (has_file_id(s, id) && id
        != s[i].id.0) by {
        let a = choose|a: int| 0 <= a < s2.len() && (#[trigger] s2[a]).id.0 == id;
        let a0 = if a < i { a } else { a + 1 };
        assert(s2[a] == s[a0]);
        assert(s[a0].id.0 == id);
        if id == s[i].id.0 {
            assert(a0 != i ==> false);
        }
    }
    assert forall|id: u64| #![auto] has_file_id(s, id) && id != s[i].id.0 implies has_file_id(
        s2,
        id,
    ) by {
        let a = choose|a: int| 0 <= a < s.len() && (#[trigger] s[a]).id.0 == id;
        assert(a != i);
        if a < i {
            assert(s2[a] == s[a]);
        } else {
            assert(s2[a - 1] == s[a]);
        }
    }
    assert forall|id: u64| #![auto] has_file_id(s2, id) implies files_map(s2)[id] == files_map(
        s,
    )[id] by {
        let a = file_idx(s2, id);
        assert(0 <= a < s2.len() && s2[a].id.0 == id);
        let a0 = if a < i { a } else { a + 1 };
        assert(s2[a] == s[a0]);
        assert(has_file_id(s, id));
        let b = file_idx(s, id);
        assert(0 <= b < s.len() && s[b].id.0 == id);
        if a0 != b {
            assert(false);
        }
    }
    assert(files_map(s2) =~= files_map(s).remove(s[i].id.0));
}

/// Two file vectors whose records agree model-for-model give the same
/// file map.
proof fn lemma_files_map_congruent(a: Seq<VfsFile>, b: Seq<VfsFile>)
    requires
        a.len() == b.len(),
        unique_ids(a),
        forall|k: int| 0 <= k < a.len() ==> (#[trigger] a[k]).model() == b[k].model(),
        forall|k: int| 0 <= k < a.len() ==> (#[trigger] a[k]).id.0 == b[k].id.0,
    ensures
        files_map(a) == files_map(b),
{
    assert forall|id: u64| #![auto] has_file_id(a, id) <==> has_file_id(b, id) by {
        if has_file_id(a, id) {
            let i = choose|i: int| 0 <= i < a.len() && (#[trigger] a[i]).id.0 == id;
            assert(b[i].id.0 == id);
        }
        if has_file_id(b, id) {
            let i = choose|i: int| 0 <= i < b.len() && (#[trigger] b[i]).id.0 == id;
            assert(a[i].id.0 == id);
        }
    }
    assert forall|id: u64| #![auto] has_file_id(a, id) implies files_map(a)[id] == files_map(
        b,
    )[id] by {
        let i = file_idx(a, id);
        assert(0 <= i < a.len() && a[i].id.0 == id);
        let j = file_idx(b, id);
        assert(0 <= j < b.len() && b[j].id.0 == id);
        assert(a[j].id.0 == id);
        if i != j {
            assert(false);
        }
    }
    assert(files_map(a) =~= files_map(b));
}

/// Bridge between "a path occurs in the model" and "some vector element
/// carries the path".
proof fn lemma_path_taken(s: Seq<VfsFile>, next_id: u64, group: u64, k: PathKey)
    requires
        unique_ids(s),
    ensures
        path_taken(FsModel { files: files_map(s), next_id, group }, k) <==> exists|i: int|
            0 <= i < s.len() && (#[trigger] s[i]).path.key() == k,
{
    let m = FsModel { files: files_map(s), next_id, group };
    if path_taken(m, k) {
        let id = choose|id: u64| #![auto] m.files.dom().contains(id) && m.files[id].path == k;
        let i = file_idx(s, id);
        assert(0 <= i < s.len() && s[i].id.0 == id);
        assert(s[i].path.key() == k);
    }
    if exists|i: int| 0 <= i < s.len() && (#[trigger] s[i]).path.key() == k {
        let i = choose|i: int| 0 <= i < s.len() && (#[trigger] s[i]).path.key() == k;
        lemma_files_map_index(s, i);
        assert(m.files.dom().contains(s[i].id.0) && m.files[s[i].id.0].path == k);
    }
}

// ---------------------------------------------------------------------------
// Change events: sequences of events as models.
// ---------------------------------------------------------------------------

pub open spec fn events_view(v: Seq<FileChangeEvent>) -> Seq<EventModel> {
    v.map_values(|e: FileChangeEvent| event_model(e))
}

proof fn lemma_events_view_push(v: Seq<FileChangeEvent>, e: FileChangeEvent)
    ensures
        events_view(v.push(e)) == events_view(v) + seq![event_model(e)],
{
    assert(events_view(v.push(e)) =~= events_view(v) + seq![event_model(e)]);
}

pub open spec fn results_view(v: Seq<VfsBatchResult>) -> Seq<ResModel> {
    v.map_values(|r: VfsBatchResult| res_model(r))
}

proof fn lemma_results_view_push(v: Seq<VfsBatchResult>, r: VfsBatchResult)
    ensures
        results_view(v.push(r)) == results_view(v) + seq![res_model(r)],
{
    assert(results_view(v.push(r)) =~= results_view(v) + seq![res_model(r)]);
}

// ---------------------------------------------------------------------------
// The broadcast channel, behind trusted wrappers.
// ---------------------------------------------------------------------------

#[verifier::external_type_specification]
#[verifier::external_body]
#[verifier::reject_recursive_types(T)]
pub struct ExSender<T>(tokio::sync::broadcast::Sender<T>);

#[verifier::external_type_specification]
#[verifier::external_body]
#[verifier::reject_recursive_types(T)]
pub struct ExReceiver<T>(tokio::sync::broadcast::Receiver<T>);

/// Relies on tokio::sync::broadcast::channel to build the bounded change
/// stream; late subscribers miss earlier events.
#[verifier::external_body]
fn new_change_channel() -> tokio::sync::broadcast::Sender<FileChangeEvent> {
    let (tx, _rx) = tokio::sync::broadcast::channel(1024);
    tx
}

/// Relies on tokio::sync::broadcast::Sender::send; delivery is best
/// effort and a send without subscribers is not an error.
#[verifier::external_body]
fn send_event(tx: &tokio::sync::broadcast::Sender<FileChangeEvent>, event: FileChangeEvent) {
    let _ = tx.send(event);
}

/// Relies on tokio::sync::broadcast::Sender::subscribe.
#[verifier::external_body]
fn subscribe_channel(tx: &tokio::sync::broadcast::Sender<FileChangeEvent>)
    -> tokio::sync::broadcast::Receiver<FileChangeEvent> {
    tx.subscribe()
}

// ---------------------------------------------------------------------------
// The VFS.
// ---------------------------------------------------------------------------

/// One consensus group's in-memory virtual file system.
pub struct Vfs {
    /// The file records.
    files: Vec<VfsFile>,
    /// The path index: entry `i` carries the path and id of file `i`.
    path_index: Vec<(VfsPath, FileId)>,
    /// The next file id to mint.
    next_file_id: u64,
    /// The consensus group this VFS belongs to.
    group_id: RaftGroupId,
    /// The change stream.
    change_tx: tokio::sync::broadcast::Sender<FileChangeEvent>,
}

impl Vfs {
    /// The file map, the id and path indexes aligned, counters and
    /// ownership consistent, checksums matching loaded content.
    pub closed spec fn inv(self) -> bool {
        &&& self.files@.len() == self.path_index@.len()
        &&& forall|i: int| 0 <= i < self.files@.len() ==> {
            &&& (#[trigger] self.path_index@[i]).1.0 == self.files@[i].id.0
            &&& self.path_index@[i].0.key() == self.files@[i].path.key()
        }
        &&& unique_ids(self.files@)
        &&& forall|i: int, j: int| 0 <= i < j < self.files@.len() ==> (
        #[trigger] self.files@[i]).path.key() != (#[trigger] self.files@[j]).path.key()
        &&& forall|i: int| 0 <= i < self.files@.len() ==> (#[trigger] self.files@[i]).id.0
            < self.next_file_id
        &&& forall|i: int| 0 <= i < self.files@.len() ==> (#[trigger] self.files@[i]).owning_group.0
            == self.group_id.0
        &&& forall|i: int| 0 <= i < self.files@.len() ==> (#[trigger] self.files@[i]).checksum_ok()
        &&& self.next_file_id >= 1
    }

    /// The observable state.
    pub closed spec fn model(self) -> FsModel {
        FsModel {
            files: files_map(self.files@),
            next_id: self.next_file_id,
            group: self.group_id.0,
        }
    }

    /// The number of files held.
    pub closed spec fn spec_file_count(self) -> nat {
        self.files@.len()
    }

    /// The stored file records, for the laws below.
    pub closed spec fn spec_files(self) -> Seq<VfsFile> {
        self.files@
    }

    /// A fresh, empty VFS for a group; ids start at 1.
    pub fn new(group_id: RaftGroupId) -> (r: Self)
        ensures
            r.inv(),
            r.model() == (FsModel { files: Map::<u64, FileModel>::empty(), next_id: 1, group: group_id.0 }),
    {
        let r = Vfs {
            files: Vec::new(),
            path_index: Vec::new(),
            next_file_id: 1,
            group_id,
            change_tx: new_change_channel(),
        };
        proof {
            assert(files_map(r.files@) =~= Map::<u64, FileModel>::empty());
        }
        r
    }

    /// Subscribe to the change stream. Relies on
    /// tokio::sync::broadcast::Sender::subscribe; a new subscriber sees
    /// only events sent after this call.
    pub fn subscribe(&self) -> tokio::sync::broadcast::Receiver<FileChangeEvent> {
        subscribe_channel(&self.change_tx)
    }

    /// Find the position of a file by id.
    fn find_by_id(&self, file_id: FileId) -> (r: Option<usize>)
        ensures
            match r {
                Some(i) => i < self.files@.len() && self.files@[i as int].id.0 == file_id.0,
                None => !has_file_id(self.files@, file_id.0),
            },
    {
        let mut i: usize = 0;
        while i < self.files.len()
            invariant
                i <= self.files@.len(),
                forall|k: int| 0 <= k < i ==> (#[trigger] self.files@[k]).id.0 != file_id.0,
            decreases self.files@.len() - i,
        {
            if self.files[i].id.0 == file_id.0 {
                return Some(i);
            }
            i = i + 1;
        }
        None
    }

    /// Find the position of a path in the index.
    fn find_by_path(&self, path: &VfsPath) -> (r: Option<usize>)
        ensures
            match r {
                Some(i) => i < self.path_index@.len() && self.path_index@[i as int].0.key()
                    == path.key(),
                None => forall|j: int| 0 <= j < self.path_index@.len() ==> (
                #[trigger] self.path_index@[j]).0.key() != path.key(),
            },
    {
        let mut i: usize = 0;
        while i < self.path_index.len()
            invariant
                i <= self.path_index@.len(),
                forall|j: int| 0 <= j < i ==> (#[trigger] self.path_index@[j]).0.key()
                    != path.key(),
            decreases self.path_index@.len() - i,
        {
            if self.path_index[i].0 == *path {
                return Some(i);
            }
            i = i + 1;
        }
        None
    }

    /// In the invariant, "no index entry has the key" matches "the path
    /// is free in the model", and vice versa.
    proof fn lemma_path_bridge(self, k: PathKey)
        requires
            self.inv(),
        ensures
            path_taken(self.model(), k) <==> exists|i: int| 0 <= i < self.path_index@.len() && (
            #[trigger] self.path_index@[i]).0.key() == k,
    {
        lemma_path_taken(self.files@, self.next_file_id, self.group_id.0, k);
        assert forall|i: int| 0 <= i < self.path_index@.len() && (#[trigger] self.path_index@[i])
            .0.key() == k implies exists|j: int| 0 <= j < self.files@.len() && (
        #[trigger] self.files@[j]).path.key() == k by {
            assert(self.files@[i].path.key() == k);
        }
        assert forall|j: int| 0 <= j < self.files@.len() && (#[trigger] self.files@[j]).path.key()
            == k implies exists|i: int| 0 <= i < self.path_index@.len() && (
        #[trigger] self.path_index@[i]).0.key() == k by {
            assert(self.path_index@[j].0.key() == k);
        }
    }

    /// Create a file: refuse an occupied path, else mint the next id and
    /// store the record at version 0.
    fn create_file(&mut self, path: VfsPath, content: String, events: &mut Vec<FileChangeEvent>)
        -> (r: VfsResponse)
        requires
            old(self).inv(),
            old(self).model().next_id < u64::MAX,
        ensures
            final(self).inv(),
            final(self).model() == create_step(
                old(self).model(),
                path.key(),
                path.spec_original(),
                content@,
            ).0,
            resp_model(r) == create_step(
                old(self).model(),
                path.key(),
                path.spec_original(),
                content@,
            ).1,
            events_view(final(events)@) == events_view(old(events)@) + create_step(
                old(self).model(),
                path.key(),
                path.spec_original(),
                content@,
            ).2,
    {
        proof {
            self.lemma_path_bridge(path.key());
        }
        match self.find_by_path(&path) {
            Some(_) => {
                proof {
                    assert(events_view(events@) =~= events_view(events@) + Seq::<
                        EventModel,
                    >::empty());
                }
                VfsResponse::Error(VfsCommandError::FileAlreadyExists(path.as_str().to_owned()))
            },
            None => {
                let file_id = FileId::new(self.next_file_id);
                proof {
                    assert(!has_file_id(self.files@, file_id.0));
                }
                let file = VfsFile::new(file_id, path.clone(), content, self.group_id);
                proof {
                    lemma_files_map_push(self.files@, file);
                }
                self.files.push(file);
                self.path_index.push((path.clone(), file_id));
                self.next_file_id = self.next_file_id + 1;
                proof {
                    let s0 = old(self).files@;
                    let pi0 = old(self).path_index@;
                    let s = self.files@;
                    let pi = self.path_index@;
                    assert forall|i2: int| 0 <= i2 < s.len() implies ((#[trigger] pi[i2]).1.0
                        == s[i2].id.0 && pi[i2].0.key() == s[i2].path.key()) by {
                        if i2 < s.len() - 1 {
                            assert(pi[i2] == pi0[i2]);
                            assert(s[i2] == s0[i2]);
                        }
                    }
                    assert forall|i2: int, j2: int| 0 <= i2 < j2 < s.len() implies (
                    #[trigger] s[i2]).path.key() != (#[trigger] s[j2]).path.key() by {
                        if j2 == s.len() - 1 {
                            assert(s[i2] == s0[i2]);
                            assert(pi0[i2].0.key() == s0[i2].path.key());
                            assert(pi0[i2].0.key() != path.key());
                        }
                    }
                    assert(self.inv());
                }
                let event = FileChangeEvent {
                    change_type: FileChangeType::Created,
                    file_id,
                    path,
                    version: FileVersion::initial(),
                    timestamp: Timestamp::now(),
                };
                proof {
                    lemma_events_view_push(events@, event);
                }
                events.push(event);
                VfsResponse::Created(file_id)
            },
        }
    }

    /// Update a file's content: refuse a missing id or a failed version
    /// guard, else replace the content and advance the version.
    fn update_file(
        &mut self,
        file_id: FileId,
        content: String,
        expected_version: Option<u64>,
        events: &mut Vec<FileChangeEvent>,
    ) -> (r: VfsResponse)
        requires
            old(self).inv(),
            forall|id: u64| #![auto] old(self).model().files.dom().contains(id) ==> old(
                self,
            ).model().files[id].version < u64::MAX,
        ensures
            final(self).inv(),
            final(self).model() == update_step(old(self).model(), file_id.0, content@, expected_version).0,
            resp_model(r) == update_step(
                old(self).model(),
                file_id.0,
                content@,
                expected_version,
            ).1,
            events_view(final(events)@) == events_view(old(events)@) + update_step(
                old(self).model(),
                file_id.0,
                content@,
                expected_version,
            ).2,
    {
        let idx = match self.find_by_id(file_id) {
            Some(i) => i,
            None => {
                proof {
                    assert(events_view(events@) =~= events_view(events@) + Seq::<
                        EventModel,
                    >::empty());
                }
                return VfsResponse::Error(VfsCommandError::FileNotFound(file_id));
            },
        };
        proof {
            lemma_files_map_index(self.files@, idx as int);
        }
        let actual = self.files[idx].version.0;
        if let Some(expected) = expected_version {
            if actual != expected {
                proof {
                    assert(events_view(events@) =~= events_view(events@) + Seq::<
                        EventModel,
                    >::empty());
                }
                return VfsResponse::Error(VfsCommandError::VersionMismatch { expected, actual });
            }
        }
        let path = self.files[idx].path.clone();
        let mut file = self.files[idx].clone();
        file.update_content(content);
        let version = file.version;
        proof {
            lemma_files_map_update(self.files@, idx as int, file);
        }
        self.files.set(idx, file);
        let event = FileChangeEvent {
            change_type: FileChangeType::Modified,
            file_id,
            path,
            version,
            timestamp: Timestamp::now(),
        };
        proof {
            lemma_events_view_push(events@, event);
        }
        events.push(event);
        VfsResponse::Applied(Some(file_id))
    }

    /// Delete a file: refuse a missing id, else drop it from both maps.
    fn delete_file(&mut self, file_id: FileId, events: &mut Vec<FileChangeEvent>) -> (r:
        VfsResponse)
        requires
            old(self).inv(),
        ensures
            final(self).inv(),
            final(self).model() == delete_step(old(self).model(), file_id.0).0,
            resp_model(r) == delete_step(old(self).model(), file_id.0).1,
            events_view(final(events)@) == events_view(old(events)@) + delete_step(
                old(self).model(),
                file_id.0,
            ).2,
    {
        let idx = match self.find_by_id(file_id) {
            Some(i) => i,
            None => {
                proof {
                    assert(events_view(events@) =~= events_view(events@) + Seq::<
                        EventModel,
                    >::empty());
                }
                return VfsResponse::Error(VfsCommandError::FileNotFound(file_id));
            },
        };
        proof {
            lemma_files_map_index(self.files@, idx as int);
            lemma_files_map_remove(self.files@, idx as int);
        }
        let file = self.files.remove(idx);
        self.path_index.remove(idx);
        let event = FileChangeEvent {
            change_type: FileChangeType::Deleted,
            file_id,
            path: file.path,
            version: file.version,
            timestamp: Timestamp::now(),
        };
        proof {
            lemma_events_view_push(events@, event);
        }
        events.push(event);
        VfsResponse::Applied(None)
    }

    /// Rename a file: refuse an occupied target path or a missing id;
    /// the version is unchanged.
    fn rename_file(&mut self, file_id: FileId, new_path: VfsPath, events: &mut Vec<FileChangeEvent>)
        -> (r: VfsResponse)
        requires
            old(self).inv(),
        ensures
            final(self).inv(),
            final(self).model() == rename_step(
                old(self).model(),
                file_id.0,
                new_path.key(),
                new_path.spec_original(),
            ).0,
            resp_model(r) == rename_step(
                old(self).model(),
                file_id.0,
                new_path.key(),
                new_path.spec_original(),
            ).1,
            events_view(final(events)@) == events_view(old(events)@) + rename_step(
                old(self).model(),
                file_id.0,
                new_path.key(),
                new_path.spec_original(),
            ).2,
    {
        proof {
            self.lemma_path_bridge(new_path.key());
        }
        if let Some(_) = self.find_by_path(&new_path) {
            proof {
                assert(events_view(events@) =~= events_view(events@) + Seq::<EventModel>::empty());
            }
            return VfsResponse::Error(
                VfsCommandError::FileAlreadyExists(new_path.as_str().to_owned()),
            );
        }
        let idx = match self.find_by_id(file_id) {
            Some(i) => i,
            None => {
                proof {
                    assert(events_view(events@) =~= events_view(events@) + Seq::<
                        EventModel,
                    >::empty());
                }
                return VfsResponse::Error(VfsCommandError::FileNotFound(file_id));
            },
        };
        proof {
            lemma_files_map_index(self.files@, idx as int);
        }
        let mut file = self.files[idx].clone();
        let version = file.version;
        file.path = new_path.clone();
        file.last_modified = Timestamp::now();
        proof {
            lemma_files_map_update(self.files@, idx as int, file);
        }
        self.files.set(idx, file);
        self.path_index.set(idx, (new_path.clone(), file_id));
        proof {
            let s0 = old(self).files@;
            let pi0 = old(self).path_index@;
            let s = self.files@;
            let pi = self.path_index@;
            assert forall|i2: int| 0 <= i2 < s.len() implies ((#[trigger] pi[i2]).1.0
                == s[i2].id.0 && pi[i2].0.key() == s[i2].path.key()) by {
                if i2 != idx as int {
                    assert(pi[i2] == pi0[i2]);
                    assert(s[i2] == s0[i2]);
                }
            }
            assert forall|i2: int, j2: int| 0 <= i2 < j2 < s.len() implies (#[trigger] s[i2])
                .path.key() != (#[trigger] s[j2]).path.key() by {
                if i2 != idx as int && j2 != idx as int {
                    assert(s[i2] == s0[i2] && s[j2] == s0[j2]);
                } else if i2 == idx as int {
                    assert(s[j2] == s0[j2]);
                    assert(pi0[j2].0.key() == s0[j2].path.key());
                    assert(pi0[j2].0.key() != new_path.key());
                } else {
                    assert(s[i2] == s0[i2]);
                    assert(pi0[i2].0.key() == s0[i2].path.key());
                    assert(pi0[i2].0.key() != new_path.key());
                }
            }
            assert(self.inv());
        }
        let event = FileChangeEvent {
            change_type: FileChangeType::Renamed,
            file_id,
            path: new_path,
            version,
            timestamp: Timestamp::now(),
        };
        proof {
            lemma_events_view_push(events@, event);
        }
        events.push(event);
        VfsResponse::Applied(Some(file_id))
    }

    /// Apply batch operations in order; an error on one operation leaves
    /// the effects of the earlier ones in place and the batch proceeds.
    fn batch_write(&mut self, operations: Vec<BatchWriteOp>, events: &mut Vec<FileChangeEvent>)
        -> (r: VfsResponse)
        requires
            old(self).inv(),
            old(self).model().next_id + operations@.len() <= u64::MAX,
            forall|id: u64| #![auto] old(self).model().files.dom().contains(id) ==> old(
                self,
            ).model().files[id].version + operations@.len() <= u64::MAX,
        ensures
            final(self).inv(),
            final(self).model() == batch_step(old(self).model(), ops_view(operations@)).0,
            resp_model(r) == RespModel::Batch(batch_step(old(self).model(), ops_view(operations@)).1),
            events_view(final(events)@) == events_view(old(events)@) + batch_step(
                old(self).model(),
                ops_view(operations@),
            ).2,
    {
        let ghost m0 = old(self).model();
        let ghost ops = ops_view(operations@);
        let ghost ev0 = events_view(old(events)@);
        let mut results: Vec<VfsBatchResult> = Vec::new();
        let mut i: usize = 0;
        proof {
            assert(ops.subrange(0, 0) =~= Seq::<OpModel>::empty());
        }
        while i < operations.len()
            invariant
                i <= operations@.len(),
                ops == ops_view(operations@),
                ops.len() == operations@.len(),
                self.inv(),
                self.model() == batch_step(m0, ops.subrange(0, i as int)).0,
                results_view(results@) == batch_step(m0, ops.subrange(0, i as int)).1,
                events_view(events@) == ev0 + batch_step(m0, ops.subrange(0, i as int)).2,
                self.model().next_id + (ops.len() - i) <= u64::MAX,
                forall|id: u64| #![auto] self.model().files.dom().contains(id)
                    ==> self.model().files[id].version + (ops.len() - i) <= u64::MAX,
                self.model().group == m0.group,
            decreases operations@.len() - i,
        {
            let ghost pre = self.model();
            proof {
                assert(ops.subrange(0, i + 1).drop_last() =~= ops.subrange(0, i as int));
                assert(ops.subrange(0, i + 1).last() == ops[i as int]);
            }
            let res: VfsBatchResult = match &operations[i] {
                BatchWriteOp::Create { path, content } => {
                    let resp = self.create_file(path.clone(), content.clone(), events);
                    match resp {
                        VfsResponse::Created(id) => VfsBatchResult::Success(Some(id)),
                        VfsResponse::Error(e) => VfsBatchResult::Error(e),
                        _ => VfsBatchResult::Success(None),
                    }
                },
                BatchWriteOp::Update { file_id, content } => {
                    let resp = self.update_file(*file_id, content.clone(), None, events);
                    match resp {
                        VfsResponse::Applied(id) => VfsBatchResult::Success(id),
                        VfsResponse::Error(e) => VfsBatchResult::Error(e),
                        _ => VfsBatchResult::Success(None),
                    }
                },
                BatchWriteOp::Delete { file_id } => {
                    let resp = self.delete_file(*file_id, events);
                    match resp {
                        VfsResponse::Applied(_) => VfsBatchResult::Success(None),
                        VfsResponse::Error(e) => VfsBatchResult::Error(e),
                        _ => VfsBatchResult::Success(None),
                    }
                },
            };
            proof {
                lemma_results_view_push(results@, res);
                let post = self.model();
                assert forall|id: u64| #![auto] post.files.dom().contains(id)
                    implies post.files[id].version + (ops.len() - i - 1) <= u64::MAX by {
                    if pre.files.dom().contains(id) {
                        assert(post.files[id].version <= pre.files[id].version + 1);
                    } else {
                        assert(post.files[id].version == 0);
                    }
                }
            }
            results.push(res);
            i = i + 1;
        }
        proof {
            assert(ops.subrange(0, ops.len() as int) =~= ops);
        }
        VfsResponse::BatchResults(results)
    }

    /// Apply a command and also hand back the change events it produced,
    /// in apply order.
    pub fn apply_with_events(&mut self, command: VfsCommand) -> (r: (
        VfsResponse,
        Vec<FileChangeEvent>,
    ))
        requires
            old(self).inv(),
            apply_headroom(old(self).model(), cmd_model(command)),
        ensures
            final(self).inv(),
            final(self).model() == apply_step(old(self).model(), cmd_model(command)).0,
            resp_model(r.0) == apply_step(old(self).model(), cmd_model(command)).1,
            events_view(r.1@) == apply_step(old(self).model(), cmd_model(command)).2,
    {
        let mut events: Vec<FileChangeEvent> = Vec::new();
        proof {
            assert(events_view(events@) =~= Seq::<EventModel>::empty());
        }
        let ghost ev0 = events_view(events@);
        let resp = match command {
            VfsCommand::CreateFile { path, content } => self.create_file(path, content, &mut events),
            VfsCommand::UpdateFile { file_id, content, expected_version } => self.update_file(
                file_id,
                content,
                expected_version,
                &mut events,
            ),
            VfsCommand::DeleteFile { file_id } => self.delete_file(file_id, &mut events),
            VfsCommand::RenameFile { file_id, new_path } => self.rename_file(
                file_id,
                new_path,
                &mut events,
            ),
            VfsCommand::BatchWrite { operations } => self.batch_write(operations, &mut events),
            VfsCommand::InvalidateCache { .. } => VfsResponse::Applied(None),
        };
        (resp, events)
    }

    /// Apply a command: the deterministic transition the replicated log
    /// drives. Events go out on the change stream in apply order.
    pub fn apply(&mut self, command: VfsCommand) -> (r: VfsResponse)
        requires
            old(self).inv(),
            apply_headroom(old(self).model(), cmd_model(command)),
        ensures
            final(self).inv(),
            final(self).model() == apply_step(old(self).model(), cmd_model(command)).0,
            resp_model(r) == apply_step(old(self).model(), cmd_model(command)).1,
    {
        let (resp, events) = self.apply_with_events(command);
        let mut k: usize = 0;
        let n = events.len();
        while k < n
            invariant
                k <= n,
                events@.len() == n,
            decreases n - k,
        {
            let ev = events[k].clone();
            send_event(&self.change_tx, ev);
            k = k + 1;
        }
        resp
    }

    // Queries: answered from local state, not replicated.

    /// The file with this id, if any.
    pub fn get_file(&self, file_id: FileId) -> (r: Option<VfsFile>)
        requires
            self.inv(),
        ensures
            match r {
                Some(f) => self.model().files.dom().contains(file_id.0) && f.model()
                    == self.model().files[file_id.0],
                None => !self.model().files.dom().contains(file_id.0),
            },
    {
        match self.find_by_id(file_id) {
            Some(i) => {
                proof {
                    lemma_files_map_index(self.files@, i as int);
                }
                Some(self.files[i].clone())
            },
            None => None,
        }
    }

    /// The file at this path, if any.
    pub fn get_file_by_path(&self, path: &VfsPath) -> (r: Option<VfsFile>)
        requires
            self.inv(),
        ensures
            match r {
                Some(f) => {
                    &&& path_taken(self.model(), path.key())
                    &&& f.model().path == path.key()
                    &&& self.model().files.dom().contains(f.model().id)
                    &&& self.model().files[f.model().id] == f.model()
                },
                None => !path_taken(self.model(), path.key()),
            },
    {
        proof {
            self.lemma_path_bridge(path.key());
        }
        match self.find_by_path(path) {
            Some(i) => {
                proof {
                    lemma_files_map_index(self.files@, i as int);
                }
                Some(self.files[i].clone())
            },
            None => None,
        }
    }

    /// The loaded content of the file with this id; an absent id and
    /// unloaded content are distinct errors.
    pub fn get_content(&self, file_id: FileId) -> (r: Result<String, VRaftError>)
        requires
            self.inv(),
        ensures
            match r {
                Ok(s) => self.model().files.dom().contains(file_id.0) && self.model().files[file_id.0].content
                    == ContentModel::Loaded(s@),
                Err(e) => match e {
                    VRaftError::FileNotFound(f) => f.0 == file_id.0 && !self.model().files.dom().contains(
                        file_id.0,
                    ),
                    VRaftError::Internal(m) => self.model().files.dom().contains(file_id.0) && !(
                    self.model().files[file_id.0].content matches ContentModel::Loaded(_)) && m@
                        == "content not loaded"@,
                    _ => false,
                },
            },
    {
        let idx = match self.find_by_id(file_id) {
            Some(i) => i,
            None => {
                return Err(VRaftError::FileNotFound(file_id));
            },
        };
        proof {
            lemma_files_map_index(self.files@, idx as int);
        }
        match self.files[idx].content_str() {
            Some(s) => Ok(s.to_owned()),
            None => Err(VRaftError::Internal("content not loaded".to_owned())),
        }
    }

    /// All files whose paths lie under the given path, component-wise.
    pub fn list_directory(&self, path: &VfsPath) -> (r: Vec<VfsFile>)
        requires
            self.inv(),
        ensures
            forall|k: int| 0 <= k < r@.len() ==> {
                &&& self.model().files.dom().contains((#[trigger] r@[k]).model().id)
                &&& self.model().files[r@[k].model().id] == r@[k].model()
                &&& path.key().comps.is_prefix_of(r@[k].model().path.comps)
            },
            forall|id: u64| #![auto] self.model().files.dom().contains(id) && path.key().comps.is_prefix_of(
                self.model().files[id].path.comps,
            ) ==> exists|k: int| 0 <= k < r@.len() && (#[trigger] r@[k]).model().id == id,
    {
        let mut out: Vec<VfsFile> = Vec::new();
        let mut i: usize = 0;
        while i < self.files.len()
            invariant
                i <= self.files@.len(),
                self.inv(),
                forall|k: int| 0 <= k < out@.len() ==> {
                    &&& self.model().files.dom().contains((#[trigger] out@[k]).model().id)
                    &&& self.model().files[out@[k].model().id] == out@[k].model()
                    &&& path.key().comps.is_prefix_of(out@[k].model().path.comps)
                },
                forall|j: int| 0 <= j < i && path.key().comps.is_prefix_of(
                    (#[trigger] self.files@[j]).path.key().comps,
                ) ==> exists|k: int| 0 <= k < out@.len() && (#[trigger] out@[k]).model().id
                    == self.files@[j].id.0,
            decreases self.files@.len() - i,
        {
            if self.files[i].path.starts_with(path) {
                proof {
                    lemma_files_map_index(self.files@, i as int);
                }
                let f = self.files[i].clone();
                let ghost out0 = out@;
                out.push(f);
                proof {
                    assert(out@[out@.len() - 1].model().id == self.files@[i as int].id.0);
                    assert forall|j: int| 0 <= j < i + 1 && path.key().comps.is_prefix_of(
                        (#[trigger] self.files@[j]).path.key().comps,
                    ) implies exists|k: int| 0 <= k < out@.len() && (#[trigger] out@[k]).model().id
                        == self.files@[j].id.0 by {
                        if j < i {
                            let k = choose|k: int| 0 <= k < out0.len() && (
                            #[trigger] out0[k]).model().id == self.files@[j].id.0;
                            assert(out@[k] == out0[k]);
                        } else {
                            assert(out@[out@.len() - 1].model().id == self.files@[j].id.0);
                        }
                    }
                }
            }
            i = i + 1;
        }
        proof {
            assert forall|id: u64| #![auto] self.model().files.dom().contains(id)
                && path.key().comps.is_prefix_of(self.model().files[id].path.comps) implies exists|
                k: int,
            | 0 <= k < out@.len() && (#[trigger] out@[k]).model().id == id by {
                let j = file_idx(self.files@, id);
                assert(0 <= j < self.files@.len() && self.files@[j].id.0 == id);
                lemma_files_map_index(self.files@, j);
                assert(path.key().comps.is_prefix_of(self.files@[j].path.key().comps));
            }
        }
        out
    }

    /// All files whose original path text holds the pattern as a
    /// substring.
    pub fn find_files(&self, pattern: &str) -> (r: Vec<VfsFile>)
        requires
            self.inv(),
        ensures
            forall|k: int| 0 <= k < r@.len() ==> {
                &&& self.model().files.dom().contains((#[trigger] r@[k]).model().id)
                &&& self.model().files[r@[k].model().id] == r@[k].model()
                &&& has_substring(r@[k].model().path_text, pattern@)
            },
            forall|id: u64| #![auto] self.model().files.dom().contains(id) && has_substring(
                self.model().files[id].path_text,
                pattern@,
            ) ==> exists|k: int| 0 <= k < r@.len() && (#[trigger] r@[k]).model().id == id,
    {
        let mut out: Vec<VfsFile> = Vec::new();
        let mut i: usize = 0;
        while i < self.files.len()
            invariant
                i <= self.files@.len(),
                self.inv(),
                forall|k: int| 0 <= k < out@.len() ==> {
                    &&& self.model().files.dom().contains((#[trigger] out@[k]).model().id)
                    &&& self.model().files[out@[k].model().id] == out@[k].model()
                    &&& has_substring(out@[k].model().path_text, pattern@)
                },
                forall|j: int| 0 <= j < i && has_substring(
                    (#[trigger] self.files@[j]).path.spec_original(),
                    pattern@,
                ) ==> exists|k: int| 0 <= k < out@.len() && (#[trigger] out@[k]).model().id
                    == self.files@[j].id.0,
            decreases self.files@.len() - i,
        {
            if contains_text(self.files[i].path.as_str(), pattern) {
                proof {
                    lemma_files_map_index(self.files@, i as int);
                }
                let f = self.files[i].clone();
                let ghost out0 = out@;
                out.push(f);
                proof {
                    assert(out@[out@.len() - 1].model().id == self.files@[i as int].id.0);
                    assert forall|j: int| 0 <= j < i + 1 && has_substring(
                        (#[trigger] self.files@[j]).path.spec_original(),
                        pattern@,
                    ) implies exists|k: int| 0 <= k < out@.len() && (#[trigger] out@[k]).model().id
                        == self.files@[j].id.0 by {
                        if j < i {
                            let k = choose|k: int| 0 <= k < out0.len() && (
                            #[trigger] out0[k]).model().id == self.files@[j].id.0;
                            assert(out@[k] == out0[k]);
                        } else {
                            assert(out@[out@.len() - 1].model().id == self.files@[j].id.0);
                        }
                    }
                }
            }
            i = i + 1;
        }
        proof {
            assert forall|id: u64| #![auto] self.model().files.dom().contains(id) && has_substring(
                self.model().files[id].path_text,
                pattern@,
            ) implies exists|k: int| 0 <= k < out@.len() && (#[trigger] out@[k]).model().id
                == id by {
                let j = file_idx(self.files@, id);
                assert(0 <= j < self.files@.len() && self.files@[j].id.0 == id);
                lemma_files_map_index(self.files@, j);
                assert(has_substring(self.files@[j].path.spec_original(), pattern@));
            }
        }
        out
    }

    /// Replace the whole file map from a snapshot's records: the
    /// observable state becomes exactly the given files, and the next-id
    /// counter moves past the largest id present so ids are never reused.
    pub fn replace_with_files(&mut self, files: Vec<VfsFile>)
        requires
            old(self).inv(),
            unique_ids(files@),
            forall|i: int, j: int| 0 <= i < j < files@.len() ==> (#[trigger] files@[i]).path.key()
                != (#[trigger] files@[j]).path.key(),
            forall|i: int| 0 <= i < files@.len() ==> (#[trigger] files@[i]).checksum_ok(),
            forall|i: int| 0 <= i < files@.len() ==> (#[trigger] files@[i]).owning_group.0 == old(
                self,
            ).model().group,
            forall|i: int| 0 <= i < files@.len() ==> (#[trigger] files@[i]).id.0 < u64::MAX,
        ensures
            final(self).inv(),
            final(self).model().files == files_map(files@),
            final(self).model().group == old(self).model().group,
            files@.len() == 0 ==> final(self).model().next_id == 1,
            forall|id: u64| #![auto] final(self).model().files.dom().contains(id)
                ==> id < final(self).model().next_id,
            files@.len() > 0 ==> final(self).model().files.dom().contains(
                (final(self).model().next_id - 1) as u64,
            ),
    {
        let mut files = files;
        let mut new_files: Vec<VfsFile> = Vec::new();
        let mut new_index: Vec<(VfsPath, FileId)> = Vec::new();
        let mut max_id: u64 = 0;
        let mut any: bool = false;
        let n = files.len();
        let mut i: usize = 0;
        while i < n
            invariant
                i <= n == files@.len(),
                new_files@.len() == i,
                forall|k: int| 0 <= k < i ==> (#[trigger] new_files@[k]).model() == files@[k].model(),
                forall|k: int| 0 <= k < i ==> (#[trigger] new_files@[k]).id.0 == files@[k].id.0,
                new_index@.len() == i,
                forall|k: int| 0 <= k < i ==> (#[trigger] new_index@[k]).1.0 == files@[k].id.0
                    && new_index@[k].0.key() == files@[k].path.key(),
                forall|k: int| 0 <= k < i ==> (#[trigger] files@[k]).id.0 <= max_id || !any,
                any ==> exists|k: int| 0 <= k < i && (#[trigger] files@[k]).id.0 == max_id,
                !any ==> i == 0,
                forall|k: int| 0 <= k < i ==> (#[trigger] files@[k]).id.0 <= max_id,
                forall|k: int| 0 <= k < files@.len() ==> (#[trigger] files@[k]).id.0 < u64::MAX,
            decreases n - i,
        {
            let f = &files[i];
            let path = f.path.clone();
            let id = f.id;
            if !any || id.0 > max_id {
                max_id = id.0;
                any = true;
            }
            new_index.push((path, id));
            let fc = files[i].clone();
            proof {
                assert(fc.model() == files@[i as int].model());
                assert(fc.id.0 == files@[i as int].id.0);
            }
            new_files.push(fc);
            i = i + 1;
        }
        let next = if any {
            max_id + 1
        } else {
            1
        };
        self.files = new_files;
        self.path_index = new_index;
        self.next_file_id = next;
        proof {
            assert forall|k1: int, k2: int| 0 <= k1 < k2 < self.files@.len() implies (
            #[trigger] self.files@[k1]).id.0 != (#[trigger] self.files@[k2]).id.0 by {
                assert(files@[k1].id.0 != files@[k2].id.0);
            }
            lemma_files_map_congruent(self.files@, files@);
            assert forall|k: int| 0 <= k < self.files@.len() implies (
            #[trigger] self.files@[k]).id.0 < self.next_file_id by {
                assert(files@[k].id.0 <= max_id || !any);
            }
            assert forall|k1: int, k2: int| 0 <= k1 < k2 < self.files@.len() implies (
            #[trigger] self.files@[k1]).path.key() != (#[trigger] self.files@[k2]).path.key() by {
                assert(self.files@[k1].model().path == files@[k1].model().path);
                assert(self.files@[k2].model().path == files@[k2].model().path);
                assert(files@[k1].path.key() != files@[k2].path.key());
            }
            assert forall|k: int| 0 <= k < self.files@.len() implies (
            #[trigger] self.files@[k]).checksum_ok() by {
                assert(self.files@[k].model() == files@[k].model());
                assert(files@[k].checksum_ok());
            }
            assert forall|k: int| 0 <= k < self.files@.len() implies (
            #[trigger] self.files@[k]).owning_group.0 == self.group_id.0 by {
                assert(self.files@[k].model().group == files@[k].model().group);
            }
            assert(self.inv());
            if files@.len() > 0 {
                let k = choose|k: int| 0 <= k < files@.len() && (#[trigger] files@[k]).id.0
                    == max_id;
                lemma_files_map_index(files@, k);
            }
        }
    }

    /// Whether the id and version counters can absorb `size` more
    /// operations without reaching their 64-bit ceiling: the premise the
    /// mutating operations ask for.
    #[verifier::loop_isolation(false)]
    pub fn headroom(&self, size: u64) -> (r: bool)
        requires
            self.inv(),
        ensures
            r == (self.model().next_id + size <= u64::MAX && forall|id: u64| #![auto]
                self.model().files.dom().contains(id) ==> self.model().files[id].version + size
                    <= u64::MAX),
    {
        if self.next_file_id > u64::MAX - size {
            return false;
        }
        let mut i: usize = 0;
        while i < self.files.len()
            invariant
                i <= self.files@.len(),
                forall|k: int| 0 <= k < i ==> (#[trigger] self.files@[k]).version.0 + size
                    <= u64::MAX,
            decreases self.files@.len() - i,
        {
            if self.files[i].version.0 > u64::MAX - size {
                proof {
                    lemma_files_map_index(self.files@, i as int);
                }
                return false;
            }
            i = i + 1;
        }
        proof {
            assert forall|id: u64| #![auto] self.model().files.dom().contains(id)
                implies self.model().files[id].version + size <= u64::MAX by {
                let k = file_idx(self.files@, id);
                assert(0 <= k < self.files@.len() && self.files@[k].id.0 == id);
                lemma_files_map_index(self.files@, k);
            }
        }
        true
    }

    /// The number of files held.
    pub fn file_count(&self) -> (r: usize)
        ensures
            r == self.spec_file_count(),
    {
        self.files.len()
    }

    /// Every file id, in storage order; under the invariant they are
    /// exactly the ids of the model, without repetition.
    pub fn all_file_ids(&self) -> (r: Vec<FileId>)
        requires
            self.inv(),
        ensures
            r@.len() == self.spec_file_count(),
            forall|k: int| 0 <= k < r@.len() ==> self.model().files.dom().contains(
                (#[trigger] r@[k]).0,
            ),
            forall|id: u64| #![auto] self.model().files.dom().contains(id) ==> exists|k: int|
                0 <= k < r@.len() && (#[trigger] r@[k]).0 == id,
            forall|k1: int, k2: int| 0 <= k1 < k2 < r@.len() ==> (#[trigger] r@[k1]).0 != (
            #[trigger] r@[k2]).0,
    {
        let mut out: Vec<FileId> = Vec::new();
        let mut i: usize = 0;
        while i < self.files.len()
            invariant
                i <= self.files@.len(),
                self.inv(),
                out@.len() == i,
                forall|k: int| 0 <= k < i ==> (#[trigger] out@[k]).0 == self.files@[k].id.0,
            decreases self.files@.len() - i,
        {
            out.push(self.files[i].id);
            i = i + 1;
        }
        proof {
            assert forall|k: int| 0 <= k < out@.len() implies self.model().files.dom().contains(
                (#[trigger] out@[k]).0,
            ) by {
                lemma_files_map_index(self.files@, k);
            }
            assert forall|id: u64| #![auto] self.model().files.dom().contains(id) implies exists|
                k: int,
            | 0 <= k < out@.len() && (#[trigger] out@[k]).0 == id by {
                let j = file_idx(self.files@, id);
                assert(0 <= j < self.files@.len() && self.files@[j].id.0 == id);
                assert(out@[j].0 == id);
            }
        }
        out
    }
}

// ---------------------------------------------------------------------------
// Laws of the state model.
// ---------------------------------------------------------------------------

/// A well-formed model: every present id is below the next-id counter.
pub open spec fn model_wf(m: FsModel) -> bool {
    forall|id: u64| #![auto] m.files.dom().contains(id) ==> id < m.next_id
}

/// A VFS that satisfies its invariant has a well-formed model.
pub proof fn lemma_model_wf(v: Vfs)
    requires
        v.inv(),
    ensures
        model_wf(v.model()),
{
    assert forall|id: u64| #![auto] v.model().files.dom().contains(id) implies id
        < v.model().next_id by {
        let i = file_idx(v.spec_files(), id);
        assert(0 <= i < v.spec_files().len() && v.spec_files()[i].id.0 == id);
    }
}

/// Each map entry carries the id it is keyed under.
pub proof fn lemma_ids_consistent(v: Vfs)
    requires
        v.inv(),
    ensures
        forall|id: u64| #![auto] v.model().files.dom().contains(id) ==> v.model().files[id].id
            == id,
{
    assert forall|id: u64| #![auto] v.model().files.dom().contains(id) implies v.model().files[id].id == id by {
        let i = file_idx(v.spec_files(), id);
        assert(0 <= i < v.spec_files().len() && v.spec_files()[i].id.0 == id);
    }
}

/// Every file belongs to the group of the state machine that holds it.
pub proof fn lemma_groups_consistent(v: Vfs)
    requires
        v.inv(),
    ensures
        forall|id: u64| #![auto] v.model().files.dom().contains(id) ==> v.model().files[id].group
            == v.model().group,
{
    assert forall|id: u64| #![auto] v.model().files.dom().contains(id) implies v.model().files[id].group == v.model().group by {
        let i = file_idx(v.spec_files(), id);
        assert(0 <= i < v.spec_files().len() && v.spec_files()[i].id.0 == id);
    }
}

/// The file map and the path index are two views of one relation: no two
/// files share a path, so each present path points back to exactly the
/// file that carries it.
pub proof fn lemma_paths_unique(v: Vfs)
    requires
        v.inv(),
    ensures
        forall|id1: u64, id2: u64| #![auto]
            v.model().files.dom().contains(id1) && v.model().files.dom().contains(id2) && id1
                != id2 ==> v.model().files[id1].path != v.model().files[id2].path,
{
    let s = v.spec_files();
    assert forall|id1: u64, id2: u64| #![auto]
        v.model().files.dom().contains(id1) && v.model().files.dom().contains(id2) && id1
            != id2 implies v.model().files[id1].path != v.model().files[id2].path by {
        let i1 = file_idx(s, id1);
        let i2 = file_idx(s, id2);
        assert(0 <= i1 < s.len() && s[i1].id.0 == id1);
        assert(0 <= i2 < s.len() && s[i2].id.0 == id2);
        assert(i1 != i2);
        assert(s[i1].path.key() != s[i2].path.key());
    }
}

/// Whenever content is loaded, the stored checksum is the hash of that
/// content.
pub proof fn lemma_checksum_invariant(v: Vfs)
    requires
        v.inv(),
    ensures
        forall|id: u64| #![auto]
            (v.model().files.dom().contains(id) && v.model().files[id].content matches
                ContentModel::Loaded(_)) ==> v.model().files[id].checksum == hash64_str(
                v.model().files[id].content->Loaded_0,
            ),
{
    let s = v.spec_files();
    assert forall|id: u64| #![auto]
        (v.model().files.dom().contains(id) && v.model().files[id].content matches
            ContentModel::Loaded(_)) implies v.model().files[id].checksum == hash64_str(
            v.model().files[id].content->Loaded_0,
        ) by {
        let i = file_idx(s, id);
        assert(0 <= i < s.len() && s[i].id.0 == id);
        assert(s[i].checksum_ok());
    }
}

/// Steps never lower the next-id counter and keep the model well formed;
/// a file present before and after a batch never loses version ground.
#[verifier::rlimit(80)]
proof fn lemma_batch_version_monotonic(m: FsModel, ops: Seq<OpModel>)
    requires
        model_wf(m),
        m.next_id + ops.len() <= u64::MAX,
        forall|id: u64| #![auto] m.files.dom().contains(id) ==> m.files[id].version + ops.len()
            <= u64::MAX,
    ensures
        ({
            let post = batch_step(m, ops).0;
            &&& model_wf(post)
            &&& post.group == m.group
            &&& m.next_id <= post.next_id <= m.next_id + ops.len()
            &&& forall|id: u64| #![auto]
                m.files.dom().contains(id) && post.files.dom().contains(id) ==> post.files[id].version >= m.files[id].version
            &&& forall|id: u64| #![auto]
                post.files.dom().contains(id) && m.files.dom().contains(id) ==> post.files[id].version <= m.files[id].version + ops.len()
            &&& forall|id: u64| #![auto]
                post.files.dom().contains(id) && !m.files.dom().contains(id) ==> post.files[id].version <= ops.len()
        }),
    decreases ops.len(),
{
    if ops.len() > 0 {
        lemma_batch_version_monotonic(m, ops.drop_last());
        let mid = batch_step(m, ops.drop_last()).0;
        let post = batch_step(m, ops).0;
        assert(post == op_step(mid, ops.last()).0);
        match ops.last() {
            OpModel::Create { path, path_text, content } => {
                assert(post == create_step(mid, path, path_text, content).0);
            },
            OpModel::Update { id, content } => {
                assert(post == update_step(mid, id, content, None).0);
            },
            OpModel::Delete { id } => {
                assert(post == delete_step(mid, id).0);
            },
        }
    }
}

/// Bounds that any command keeps: the model stays well formed, the
/// next-id counter moves by at most the command's size, and versions
/// grow by at most the command's size.
pub proof fn lemma_apply_bounds(m: FsModel, c: CmdModel)
    requires
        model_wf(m),
        apply_headroom(m, c),
    ensures
        ({
            let post = apply_step(m, c).0;
            &&& model_wf(post)
            &&& m.next_id <= post.next_id <= m.next_id + cmd_size(c)
            &&& post.group == m.group
            &&& forall|id: u64| #![auto]
                m.files.dom().contains(id) && post.files.dom().contains(id) ==> m.files[id].version <= post.files[id].version <= m.files[id].version + cmd_size(c)
            &&& forall|id: u64| #![auto]
                post.files.dom().contains(id) && !m.files.dom().contains(id) ==> post.files[id].version <= cmd_size(c)
        }),
{
    match c {
        CmdModel::Batch { ops } => {
            lemma_batch_version_monotonic(m, ops);
        },
        CmdModel::Create { path, path_text, content } => {
            assert(apply_step(m, c) == create_step(m, path, path_text, content));
        },
        CmdModel::Update { id, content, expected } => {
            assert(apply_step(m, c) == update_step(m, id, content, expected));
        },
        CmdModel::Delete { id } => {
            assert(apply_step(m, c) == delete_step(m, id));
        },
        CmdModel::Rename { id, new_path, new_path_text } => {
            assert(apply_step(m, c) == rename_step(m, id, new_path, new_path_text));
        },
        CmdModel::Invalidate => {},
    }
}

/// Version monotonicity: a file present before and after a command keeps
/// a version at least as large as before. Inputs whose 64-bit counters
/// would wrap are excluded by the headroom premise.
pub proof fn lemma_version_monotonic(m: FsModel, c: CmdModel)
    requires
        model_wf(m),
        apply_headroom(m, c),
    ensures
        forall|id: u64| #![auto]
            m.files.dom().contains(id) && apply_step(m, c).0.files.dom().contains(id)
                ==> apply_step(m, c).0.files[id].version >= m.files[id].version,
{
    match c {
        CmdModel::Batch { ops } => {
            lemma_batch_version_monotonic(m, ops);
        },
        _ => {},
    }
}

// ---------------------------------------------------------------------------
// Substring search.
// ---------------------------------------------------------------------------

/// `t` occurs in `s` as a contiguous substring.
pub open spec fn has_substring(s: Seq<char>, t: Seq<char>) -> bool {
    exists|i: int| #![trigger s.subrange(i, i + t.len())] 0 <= i <= s.len() - t.len()
        && s.subrange(i, i + t.len()) == t
}

/// Whether `needle` occurs in `hay`.
pub fn contains_text(hay: &str, needle: &str) -> (r: bool)
    ensures
        r == has_substring(hay@, needle@),
{
    let n = hay.unicode_len();
    let m = needle.unicode_len();
    if m > n {
        proof {
            assert(!has_substring(hay@, needle@));
        }
        return false;
    }
    let mut i: usize = 0;
    while i <= n - m
        invariant
            m <= n == hay@.len(),
            m == needle@.len(),
            i <= n - m + 1,
            forall|a: int| #![trigger hay@.subrange(a, a + needle@.len())] 0 <= a < i
                ==> hay@.subrange(a, a + needle@.len()) != needle@,
        decreases n - m + 1 - i,
    {
        let mut j: usize = 0;
        let mut matches_here = true;
        while matches_here && j < m
            invariant
                m <= n == hay@.len(),
                m == needle@.len(),
                i + m <= n,
                j <= m,
                matches_here ==> forall|b: int| #![auto] 0 <= b < j ==> hay@[i + b] == needle@[b],
                !matches_here ==> exists|b: int| #![auto] 0 <= b < j && hay@[i + b] != needle@[b],
                j <= m,
            decreases m - j,
        {
            if hay.get_char(i + j) != needle.get_char(j) {
                proof {
                    assert(hay@[i + j] != needle@[j as int]);
                }
                matches_here = false;
            } else {
                proof {
                    assert(hay@[i + j] == needle@[j as int]);
                }
            }
            j = j + 1;
        }
        if matches_here {
            proof {
                assert(hay@.subrange(i as int, i + needle@.len()) =~= needle@);
            }
            return true;
        }
        proof {
            assert(hay@.subrange(i as int, i + needle@.len()) != needle@) by {
                let b = choose|b: int| #![auto] 0 <= b < m && hay@[i + b] != needle@[b];
                if hay@.subrange(i as int, i + needle@.len()) == needle@ {
                    assert(hay@.subrange(i as int, i + needle@.len())[b] == needle@[b]);
                }
            }
        }
        i = i + 1;
    }
    proof {
        assert(!has_substring(hay@, needle@));
    }
    false
}

} // verus!
