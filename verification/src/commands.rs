//! The VFS command and response algebra carried in replicated log entries.

use vstd::prelude::*;
use crate::types::FileId;
use crate::path::{VfsPath, PathKey};
use crate::file::VfsFile;

verus! {

/// A replicated mutation of the virtual file system.
#[derive(Debug)]
pub enum VfsCommand {
    /// Create a new file at a path.
    CreateFile { path: VfsPath, content: String },
    /// Replace a file's content, optionally guarded by an expected version.
    UpdateFile { file_id: FileId, content: String, expected_version: Option<u64> },
    /// Delete a file.
    DeleteFile { file_id: FileId },
    /// Move a file to a new path; the version is unchanged.
    RenameFile { file_id: FileId, new_path: VfsPath },
    /// Apply several operations in order; not atomic.
    BatchWrite { operations: Vec<BatchWriteOp> },
    /// Signal analyzer caches; no effect on durable state.
    InvalidateCache { file_ids: Vec<FileId> },
}

/// One operation of a batch write.
#[derive(Debug)]
pub enum BatchWriteOp {
    Create { path: VfsPath, content: String },
    Update { file_id: FileId, content: String },
    Delete { file_id: FileId },
}

/// The response to a command.
#[derive(Clone, Debug)]
pub enum VfsResponse {
    /// Success, with the file id where one is relevant.
    Applied(Option<FileId>),
    /// A file was created with this id.
    Created(FileId),
    /// Per-operation results of a batch.
    BatchResults(Vec<VfsBatchResult>),
    /// The command failed; the state is unchanged.
    Error(VfsCommandError),
}

/// The result of one operation within a batch.
#[derive(Clone, Debug)]
pub enum VfsBatchResult {
    Success(Option<FileId>),
    Error(VfsCommandError),
}

/// Why a command was refused.
#[derive(Clone, Debug)]
pub enum VfsCommandError {
    FileNotFound(FileId),
    FileAlreadyExists(String),
    VersionMismatch { expected: u64, actual: u64 },
    InvalidPath(String),
    StorageError(String),
}

/// A read of VFS state; answered locally, not replicated.
#[derive(Clone, Debug)]
pub enum VfsQuery {
    GetFile(FileId),
    GetFileByPath(VfsPath),
    ListDirectory(VfsPath),
    FindFiles(String),
    GetContent(FileId),
}

/// The answer to a query.
#[derive(Debug)]
pub enum VfsQueryResponse {
    File(Option<VfsFile>),
    Files(Vec<VfsFile>),
    Content(Option<String>),
    Error(String),
}

// ---------------------------------------------------------------------------
// Spec-level mirrors.
// ---------------------------------------------------------------------------

/// Spec-level mirror of a batch operation.
pub enum OpModel {
    Create { path: PathKey, path_text: Seq<char>, content: Seq<char> },
    Update { id: u64, content: Seq<char> },
    Delete { id: u64 },
}

/// Spec-level mirror of a command.
pub enum CmdModel {
    Create { path: PathKey, path_text: Seq<char>, content: Seq<char> },
    Update { id: u64, content: Seq<char>, expected: Option<u64> },
    Delete { id: u64 },
    Rename { id: u64, new_path: PathKey, new_path_text: Seq<char> },
    Batch { ops: Seq<OpModel> },
    Invalidate,
}

/// Spec-level mirror of a command error.
pub enum ErrModel {
    NotFound(u64),
    Exists(Seq<char>),
    VersionMismatch { expected: u64, actual: u64 },
    InvalidPath(Seq<char>),
    Storage(Seq<char>),
}

/// Spec-level mirror of a batch result.
pub enum ResModel {
    Success(Option<u64>),
    Error(ErrModel),
}

/// Spec-level mirror of a response.
pub enum RespModel {
    Applied(Option<u64>),
    Created(u64),
    Batch(Seq<ResModel>),
    Error(ErrModel),
}

pub open spec fn op_model(op: BatchWriteOp) -> OpModel {
    match op {
        BatchWriteOp::Create { path, content } => OpModel::Create {
            path: path.key(),
            path_text: path.spec_original(),
            content: content@,
        },
        BatchWriteOp::Update { file_id, content } => OpModel::Update {
            id: file_id.0,
            content: content@,
        },
        BatchWriteOp::Delete { file_id } => OpModel::Delete { id: file_id.0 },
    }
}

/// The models of a sequence of batch operations.
pub open spec fn ops_view(v: Seq<BatchWriteOp>) -> Seq<OpModel> {
    v.map_values(|op: BatchWriteOp| op_model(op))
}

pub open spec fn cmd_model(c: VfsCommand) -> CmdModel {
    match c {
        VfsCommand::CreateFile { path, content } => CmdModel::Create {
            path: path.key(),
            path_text: path.spec_original(),
            content: content@,
        },
        VfsCommand::UpdateFile { file_id, content, expected_version } => CmdModel::Update {
            id: file_id.0,
            content: content@,
            expected: expected_version,
        },
        VfsCommand::DeleteFile { file_id } => CmdModel::Delete { id: file_id.0 },
        VfsCommand::RenameFile { file_id, new_path } => CmdModel::Rename {
            id: file_id.0,
            new_path: new_path.key(),
            new_path_text: new_path.spec_original(),
        },
        VfsCommand::BatchWrite { operations } => CmdModel::Batch { ops: ops_view(operations@) },
        VfsCommand::InvalidateCache { .. } => CmdModel::Invalidate,
    }
}

pub open spec fn err_model(e: VfsCommandError) -> ErrModel {
    match e {
        VfsCommandError::FileNotFound(id) => ErrModel::NotFound(id.0),
        VfsCommandError::FileAlreadyExists(p) => ErrModel::Exists(p@),
        VfsCommandError::VersionMismatch { expected, actual } => ErrModel::VersionMismatch {
            expected,
            actual,
        },
        VfsCommandError::InvalidPath(p) => ErrModel::InvalidPath(p@),
        VfsCommandError::StorageError(m) => ErrModel::Storage(m@),
    }
}

pub open spec fn res_model(r: VfsBatchResult) -> ResModel {
    match r {
        VfsBatchResult::Success(id) => ResModel::Success(
            match id {
                Some(i) => Some(i.0),
                None => None,
            },
        ),
        VfsBatchResult::Error(e) => ResModel::Error(err_model(e)),
    }
}

pub open spec fn resp_model(r: VfsResponse) -> RespModel {
    match r {
        VfsResponse::Applied(id) => RespModel::Applied(
            match id {
                Some(i) => Some(i.0),
                None => None,
            },
        ),
        VfsResponse::Created(id) => RespModel::Created(id.0),
        VfsResponse::BatchResults(rs) => RespModel::Batch(
            rs@.map_values(|r: VfsBatchResult| res_model(r)),
        ),
        VfsResponse::Error(e) => RespModel::Error(err_model(e)),
    }
}


// ---------------------------------------------------------------------------
// Clones that preserve the models.
// ---------------------------------------------------------------------------

/// Mapping a batch operation sequence commutes with push.
pub proof fn lemma_ops_view_push(v: Seq<BatchWriteOp>, op: BatchWriteOp)
    ensures
        ops_view(v.push(op)) == ops_view(v) + seq![op_model(op)],
{
    assert(ops_view(v.push(op)) =~= ops_view(v) + seq![op_model(op)]);
}

impl Clone for BatchWriteOp {
    fn clone(&self) -> (r: Self)
        ensures
            op_model(r) == op_model(*self),
    {
        match self {
            BatchWriteOp::Create { path, content } => BatchWriteOp::Create {
                path: path.clone(),
                content: content.clone(),
            },
            BatchWriteOp::Update { file_id, content } => BatchWriteOp::Update {
                file_id: *file_id,
                content: content.clone(),
            },
            BatchWriteOp::Delete { file_id } => BatchWriteOp::Delete { file_id: *file_id },
        }
    }
}

/// Clone a vector of batch operations, preserving its model.
fn clone_ops(v: &Vec<BatchWriteOp>) -> (r: Vec<BatchWriteOp>)
    ensures
        ops_view(r@) == ops_view(v@),
{
    let mut out: Vec<BatchWriteOp> = Vec::new();
    let mut i: usize = 0;
    proof {
        assert(ops_view(out@) =~= ops_view(v@).subrange(0, 0));
    }
    while i < v.len()
        invariant
            i <= v@.len(),
            ops_view(out@) == ops_view(v@).subrange(0, i as int),
        decreases v@.len() - i,
    {
        let ghost before = out@;
        let x = v[i].clone();
        out.push(x);
        proof {
            lemma_ops_view_push(before, x);
            assert(ops_view(v@).subrange(0, i as int) + seq![op_model(x)] =~= ops_view(
                v@,
            ).subrange(0, i + 1));
        }
        i = i + 1;
    }
    proof {
        assert(ops_view(v@).subrange(0, v@.len() as int) =~= ops_view(v@));
    }
    out
}

impl Clone for VfsCommand {
    fn clone(&self) -> (r: Self)
        ensures
            cmd_model(r) == cmd_model(*self),
    {
        match self {
            VfsCommand::CreateFile { path, content } => VfsCommand::CreateFile {
                path: path.clone(),
                content: content.clone(),
            },
            VfsCommand::UpdateFile { file_id, content, expected_version } => VfsCommand::UpdateFile {
                file_id: *file_id,
                content: content.clone(),
                expected_version: *expected_version,
            },
            VfsCommand::DeleteFile { file_id } => VfsCommand::DeleteFile { file_id: *file_id },
            VfsCommand::RenameFile { file_id, new_path } => VfsCommand::RenameFile {
                file_id: *file_id,
                new_path: new_path.clone(),
            },
            VfsCommand::BatchWrite { operations } => VfsCommand::BatchWrite {
                operations: clone_ops(operations),
            },
            VfsCommand::InvalidateCache { file_ids } => {
                let mut ids: Vec<FileId> = Vec::new();
                let mut i: usize = 0;
                while i < file_ids.len()
                    invariant
                        i <= file_ids@.len(),
                    decreases file_ids@.len() - i,
                {
                    ids.push(file_ids[i]);
                    i = i + 1;
                }
                VfsCommand::InvalidateCache { file_ids: ids }
            },
        }
    }
}

} // verus!
