//! Files of the virtual file system.

use vstd::prelude::*;
use crate::types::{FileId, FileVersion, NodeId, RaftGroupId, Timestamp, hash64_str};
use crate::path::{VfsPath, PathKey};

verus! {

/// Where a file's content lives.
#[derive(Debug)]
pub enum FileContent {
    /// Full content held in memory.
    Loaded(String),
    /// Content stored on disk; the value is the disk path.
    OnDisk(String),
    /// Content held by a remote node.
    Remote { node_id: NodeId, offset: u64, length: u64 },
    /// Content not yet loaded.
    NotLoaded,
}

/// Spec-level mirror of `FileContent`.
pub enum ContentModel {
    Loaded(Seq<char>),
    OnDisk(Seq<char>),
    Remote { node: u64, offset: u64, length: u64 },
    NotLoaded,
}

pub open spec fn content_model(c: FileContent) -> ContentModel {
    match c {
        FileContent::Loaded(s) => ContentModel::Loaded(s@),
        FileContent::OnDisk(p) => ContentModel::OnDisk(p@),
        FileContent::Remote { node_id, offset, length } => ContentModel::Remote {
            node: node_id.0,
            offset: offset,
            length: length,
        },
        FileContent::NotLoaded => ContentModel::NotLoaded,
    }
}

impl FileContent {
    /// Whether the content is held in memory.
    pub fn is_loaded(&self) -> (r: bool)
        ensures
            r == (content_model(*self) matches ContentModel::Loaded(_)),
    {
        match self {
            FileContent::Loaded(_) => true,
            _ => false,
        }
    }

    /// The content when it is held in memory.
    pub fn as_str(&self) -> (r: Option<&str>)
        ensures
            match r {
                Some(s) => content_model(*self) == ContentModel::Loaded(s@),
                None => !(content_model(*self) matches ContentModel::Loaded(_)),
            },
    {
        match self {
            FileContent::Loaded(s) => Some(s.as_str()),
            _ => None,
        }
    }

    /// The content length in bytes, when it is known.
    pub fn len(&self) -> (r: Option<usize>)
        ensures
            match content_model(*self) {
                ContentModel::Loaded(s) => r matches Some(n) && n == vstd::utf8::encode_utf8(
                    s,
                ).len() as usize,
                ContentModel::Remote { length, .. } => r matches Some(n) && n == length as usize,
                _ => r is None,
            },
    {
        match self {
            FileContent::Loaded(s) => Some(s.as_str().len()),
            FileContent::Remote { length, .. } => Some(*length as usize),
            _ => None,
        }
    }

    /// Whether in-memory content is empty; false for anything not loaded.
    pub fn is_empty(&self) -> (r: bool)
        ensures
            r == (content_model(*self) matches ContentModel::Loaded(s) && s.len() == 0),
    {
        match self {
            FileContent::Loaded(s) => s.as_str().is_empty(),
            _ => false,
        }
    }
}

impl Clone for FileContent {
    fn clone(&self) -> (r: Self)
        ensures
            content_model(r) == content_model(*self),
    {
        match self {
            FileContent::Loaded(s) => FileContent::Loaded(s.clone()),
            FileContent::OnDisk(p) => FileContent::OnDisk(p.clone()),
            FileContent::Remote { node_id, offset, length } => FileContent::Remote {
                node_id: *node_id,
                offset: *offset,
                length: *length,
            },
            FileContent::NotLoaded => FileContent::NotLoaded,
        }
    }
}

// ---------------------------------------------------------------------------
// Checksums.
// ---------------------------------------------------------------------------

/// 64-bit non-cryptographic checksum of file content.
#[derive(Clone, Copy, Debug, Hash, PartialEq, Eq, Structural)]
pub struct Checksum(pub u64);

impl Checksum {
    /// Compute the checksum of content: the 64-bit hash of its bytes.
    pub fn compute(content: &str) -> (r: Self)
        ensures
            r.0 == hash64_str(content@),
    {
        Checksum(crate::types::hash64_of_str(content))
    }

    /// Whether content matches this checksum.
    pub fn verify(&self, content: &str) -> (r: bool)
        ensures
            r == (self.0 == hash64_str(content@)),
    {
        let computed = Self::compute(content);
        computed.0 == self.0
    }
}

// ---------------------------------------------------------------------------
// Line endings and metadata.
// ---------------------------------------------------------------------------

/// Line ending style of a file.
#[derive(Clone, Copy, Debug, PartialEq, Eq, Structural)]
pub enum LineEnding {
    Lf,
    CrLf,
    Cr,
}

/// The sequence holds a carriage return directly followed by a line feed.
pub open spec fn has_crlf(s: Seq<char>) -> bool {
    exists|i: int| #![trigger s[i]] 0 <= i < s.len() - 1 && s[i] == '\r' && s[i + 1] == '\n'
}

/// The sequence holds a carriage return.
pub open spec fn has_cr(s: Seq<char>) -> bool {
    exists|i: int| 0 <= i < s.len() && s[i] == '\r'
}

/// The style detection rule: the first matching of CRLF, CR, LF.
pub open spec fn detect_spec(s: Seq<char>) -> LineEnding {
    if has_crlf(s) {
        LineEnding::CrLf
    } else if has_cr(s) {
        LineEnding::Cr
    } else {
        LineEnding::Lf
    }
}

impl Default for LineEnding {
    fn default() -> (r: Self)
        ensures
            r == LineEnding::Lf,
    {
        LineEnding::Lf
    }
}

impl LineEnding {
    /// The textual form of the line ending.
    pub fn as_str(&self) -> (r: &'static str)
        ensures
            match self {
                LineEnding::Lf => r@ =~= seq!['\n'],
                LineEnding::CrLf => r@ =~= seq!['\r', '\n'],
                LineEnding::Cr => r@ =~= seq!['\r'],
            },
    {
        proof {
            reveal_strlit("\n");
            reveal_strlit("\r\n");
            reveal_strlit("\r");
        }
        match self {
            LineEnding::Lf => "\n",
            LineEnding::CrLf => "\r\n",
            LineEnding::Cr => "\r",
        }
    }

    /// Detect the line ending style of content, preferring CRLF, then CR.
    pub fn detect(content: &str) -> (r: Self)
        ensures
            r == detect_spec(content@),
    {
        let n = content.unicode_len();
        let mut i: usize = 0;
        let mut seen_cr: bool = false;
        while i < n
            invariant
                i <= n == content@.len(),
                forall|k: int| #![trigger content@[k]] 0 <= k < i ==> !(k < n - 1 && content@[k]
                    == '\r' && content@[k + 1] == '\n'),
                seen_cr == exists|k: int| 0 <= k < i && content@[k] == '\r',
            decreases n - i,
        {
            let c = content.get_char(i);
            if c == '\r' {
                if i + 1 < n && content.get_char(i + 1) == '\n' {
                    proof {
                        assert(content@[i as int] == '\r' && content@[i + 1] == '\n');
                    }
                    return LineEnding::CrLf;
                }
                seen_cr = true;
            }
            i = i + 1;
        }
        if seen_cr {
            LineEnding::Cr
        } else {
            LineEnding::Lf
        }
    }
}

/// Spec-level mirror of `FileMetadata`.
pub struct MetaModel {
    pub read_only: bool,
    pub encoding: Option<Seq<char>>,
    pub line_ending: LineEnding,
    pub attributes: Seq<(Seq<char>, Seq<char>)>,
}

/// Auxiliary metadata of a file.
#[derive(Debug)]
pub struct FileMetadata {
    /// The file may not be written.
    pub read_only: bool,
    /// Character encoding name; UTF-8 when absent.
    pub encoding: Option<String>,
    /// Line ending style.
    pub line_ending: LineEnding,
    /// Free-form attributes as key-value pairs.
    pub attributes: Vec<(String, String)>,
}

pub open spec fn meta_model(m: FileMetadata) -> MetaModel {
    MetaModel {
        read_only: m.read_only,
        encoding: match m.encoding {
            Some(e) => Some(e@),
            None => None,
        },
        line_ending: m.line_ending,
        attributes: m.attributes@.map_values(|p: (String, String)| (p.0@, p.1@)),
    }
}

/// The default metadata value.
pub open spec fn meta_default() -> MetaModel {
    MetaModel {
        read_only: false,
        encoding: None,
        line_ending: LineEnding::Lf,
        attributes: Seq::empty(),
    }
}

impl Default for FileMetadata {
    fn default() -> (r: Self)
        ensures
            meta_model(r) == meta_default(),
    {
        let r = FileMetadata {
            read_only: false,
            encoding: None,
            line_ending: LineEnding::Lf,
            attributes: Vec::new(),
        };
        proof {
            assert(meta_model(r).attributes =~= meta_default().attributes);
        }
        r
    }
}

impl Clone for FileMetadata {
    fn clone(&self) -> (r: Self)
        ensures
            meta_model(r) == meta_model(*self),
    {
        let encoding = match &self.encoding {
            Some(e) => Some(e.clone()),
            None => None,
        };
        let mut attributes: Vec<(String, String)> = Vec::new();
        let mut i: usize = 0;
        while i < self.attributes.len()
            invariant
                i <= self.attributes@.len(),
                attributes@ =~= self.attributes@.subrange(0, i as int),
            decreases self.attributes@.len() - i,
        {
            let pair = &self.attributes[i];
            attributes.push((pair.0.clone(), pair.1.clone()));
            proof {
                assert(attributes@ =~= self.attributes@.subrange(0, i + 1));
            }
            i = i + 1;
        }
        proof {
            assert(self.attributes@.subrange(0, self.attributes@.len() as int)
                =~= self.attributes@);
            assert(attributes@.map_values(|p: (String, String)| (p.0@, p.1@))
                =~= self.attributes@.map_values(|p: (String, String)| (p.0@, p.1@)));
        }
        FileMetadata { read_only: self.read_only, encoding, line_ending: self.line_ending, attributes }
    }
}

// ---------------------------------------------------------------------------
// The file record.
// ---------------------------------------------------------------------------

/// Spec-level mirror of a file record, without the timestamp.
pub struct FileModel {
    pub id: u64,
    pub path: PathKey,
    pub path_text: Seq<char>,
    pub version: u64,
    pub content: ContentModel,
    pub checksum: u64,
    pub group: u64,
    pub metadata: MetaModel,
}

/// A file in the virtual file system.
#[derive(Debug)]
pub struct VfsFile {
    /// Unique identifier, stable across renames.
    pub id: FileId,
    /// The file's path.
    pub path: VfsPath,
    /// Current version; increments on every content change.
    pub version: FileVersion,
    /// The content.
    pub content: FileContent,
    /// Checksum of the content.
    pub checksum: Checksum,
    /// When the file last changed.
    pub last_modified: Timestamp,
    /// The consensus group that owns the file.
    pub owning_group: RaftGroupId,
    /// Auxiliary metadata.
    pub metadata: FileMetadata,
}

impl VfsFile {
    /// Everything observable of a file except its timestamp.
    pub open spec fn model(self) -> FileModel {
        FileModel {
            id: self.id.0,
            path: self.path.key(),
            path_text: self.path.spec_original(),
            version: self.version.0,
            content: content_model(self.content),
            checksum: self.checksum.0,
            group: self.owning_group.0,
            metadata: meta_model(self.metadata),
        }
    }

    /// The checksum matches the content whenever the content is loaded.
    pub open spec fn checksum_ok(self) -> bool {
        content_model(self.content) matches ContentModel::Loaded(s) ==> self.checksum.0
            == hash64_str(s)
    }

    /// Create a file at version 0 with loaded content and a fresh checksum.
    pub fn new(id: FileId, path: VfsPath, content: String, owning_group: RaftGroupId) -> (r: Self)
        ensures
            r.model() == (FileModel {
                id: id.0,
                path: path.key(),
                path_text: path.spec_original(),
                version: 0,
                content: ContentModel::Loaded(content@),
                checksum: hash64_str(content@),
                group: owning_group.0,
                metadata: meta_default(),
            }),
            r.checksum_ok(),
    {
        let checksum = Checksum::compute(content.as_str());
        VfsFile {
            id,
            path,
            version: FileVersion::initial(),
            content: FileContent::Loaded(content),
            checksum,
            last_modified: Timestamp::now(),
            owning_group,
            metadata: FileMetadata::default(),
        }
    }

    /// Replace the content: recompute the checksum and advance the version.
    pub fn update_content(&mut self, content: String)
        requires
            old(self).version.0 < u64::MAX,
        ensures
            final(self).model() == (FileModel {
                version: (old(self).version.0 + 1) as u64,
                content: ContentModel::Loaded(content@),
                checksum: hash64_str(content@),
                ..old(self).model()
            }),
            final(self).checksum_ok(),
    {
        self.checksum = Checksum::compute(content.as_str());
        self.content = FileContent::Loaded(content);
        self.version = self.version.next();
        self.last_modified = Timestamp::now();
    }

    /// The content as a string when it is loaded.
    pub fn content_str(&self) -> (r: Option<&str>)
        ensures
            match r {
                Some(s) => self.model().content == ContentModel::Loaded(s@),
                None => !(self.model().content matches ContentModel::Loaded(_)),
            },
    {
        self.content.as_str()
    }

    /// Whether the content is held in memory.
    pub fn is_loaded(&self) -> (r: bool)
        ensures
            r == (self.model().content matches ContentModel::Loaded(_)),
    {
        self.content.is_loaded()
    }
}

impl Clone for VfsFile {
    fn clone(&self) -> (r: Self)
        ensures
            r.model() == self.model(),
            r.last_modified == self.last_modified,
    {
        VfsFile {
            id: self.id,
            path: self.path.clone(),
            version: self.version,
            content: self.content.clone(),
            checksum: self.checksum,
            last_modified: self.last_modified,
            owning_group: self.owning_group,
            metadata: self.metadata.clone(),
        }
    }
}

// ---------------------------------------------------------------------------
// Change events.
// ---------------------------------------------------------------------------

/// What kind of change an event reports.
#[derive(Clone, Copy, Debug, PartialEq, Eq, Structural)]
pub enum FileChangeType {
    Created,
    Modified,
    Deleted,
    Renamed,
}

/// Spec-level mirror of a change event, without the timestamp.
pub struct EventModel {
    pub change_type: FileChangeType,
    pub file_id: u64,
    pub path: PathKey,
    pub version: u64,
}

/// An event on the change stream: one per mutation, in apply order.
#[derive(Clone, Debug)]
pub struct FileChangeEvent {
    /// The kind of change.
    pub change_type: FileChangeType,
    /// The file that changed.
    pub file_id: FileId,
    /// The file's path after the change.
    pub path: VfsPath,
    /// The file's version after the change.
    pub version: FileVersion,
    /// When the change was applied.
    pub timestamp: Timestamp,
}

pub open spec fn event_model(e: FileChangeEvent) -> EventModel {
    EventModel {
        change_type: e.change_type,
        file_id: e.file_id.0,
        path: e.path.key(),
        version: e.version.0,
    }
}

} // verus!
