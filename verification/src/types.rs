//! Core identifier and primitive types.

use vstd::prelude::*;

verus! {

/// Opaque file identifier, stable across renames.
#[derive(Clone, Copy, Debug, Hash, PartialEq, Eq, Structural)]
pub struct FileId(pub u64);

impl FileId {
    pub fn new(id: u64) -> (r: Self)
        ensures
            r.0 == id,
    {
        FileId(id)
    }
}

/// Node identifier in the cluster.
#[derive(Clone, Copy, Debug, Hash, PartialEq, Eq, PartialOrd, Ord, Structural)]
pub struct NodeId(pub u64);

impl NodeId {
    pub fn new(id: u64) -> (r: Self)
        ensures
            r.0 == id,
    {
        NodeId(id)
    }
}

/// Consensus group identifier; group 0 is reserved for cluster metadata.
#[derive(Clone, Copy, Debug, Hash, PartialEq, Eq, PartialOrd, Ord, Structural)]
pub struct RaftGroupId(pub u64);

impl RaftGroupId {
    pub fn new(id: u64) -> (r: Self)
        ensures
            r.0 == id,
    {
        RaftGroupId(id)
    }
}

/// Client (editor) identifier.
#[derive(Clone, Copy, Debug, Hash, PartialEq, Eq, Structural)]
pub struct ClientId(pub u64);

impl ClientId {
    pub fn new(id: u64) -> (r: Self)
        ensures
            r.0 == id,
    {
        ClientId(id)
    }
}

/// Millisecond timestamp since the Unix epoch.
#[derive(Clone, Copy, Debug, Hash, PartialEq, Eq, PartialOrd, Ord, Structural)]
pub struct Timestamp(pub u64);

impl Timestamp {
    /// Relies on std::time::SystemTime::now for the wall clock; the value
    /// depends on the machine's clock, so nothing is promised of it.
    #[verifier::external_body]
    pub fn now() -> Timestamp {
        match std::time::SystemTime::now().duration_since(std::time::UNIX_EPOCH) {
            Ok(d) => Timestamp(d.as_millis() as u64),
            Err(_) => Timestamp(0),
        }
    }
}

/// Monotonic file version, starting at 0 on create.
#[derive(Clone, Copy, Debug, Hash, PartialEq, Eq, PartialOrd, Ord, Structural)]
pub struct FileVersion(pub u64);

impl FileVersion {
    pub fn new(version: u64) -> (r: Self)
        ensures
            r.0 == version,
    {
        FileVersion(version)
    }

    pub fn initial() -> (r: Self)
        ensures
            r.0 == 0,
    {
        FileVersion(0)
    }

    pub fn next(&self) -> (r: Self)
        requires
            self.0 < u64::MAX,
        ensures
            r.0 == self.0 + 1,
    {
        FileVersion(self.0 + 1)
    }
}

// ---------------------------------------------------------------------------
// Content hashing: 64-bit FNV-1a over bytes.
// ---------------------------------------------------------------------------

pub open spec fn hash64_offset() -> u64 {
    0xcbf29ce484222325u64
}

pub open spec fn hash64_prime() -> u64 {
    0x100000001b3u64
}

/// One FNV-1a step: xor the byte in, then multiply by the prime (mod 2^64).
pub open spec fn hash64_step(h: u64, b: u8) -> u64 {
    vstd::wrapping::u64_specs::wrapping_mul(h ^ (b as u64), hash64_prime())
}

/// 64-bit FNV-1a hash of a byte sequence.
pub open spec fn hash64_bytes(s: Seq<u8>) -> u64
    decreases s.len(),
{
    if s.len() == 0 {
        hash64_offset()
    } else {
        hash64_step(hash64_bytes(s.drop_last()), s.last())
    }
}

/// 64-bit hash of a string, taken over its UTF-8 bytes.
pub open spec fn hash64_str(s: Seq<char>) -> u64 {
    hash64_bytes(vstd::utf8::encode_utf8(s))
}

/// Hash a byte vector with 64-bit FNV-1a.
pub fn hash64(bytes: &Vec<u8>) -> (r: u64)
    ensures
        r == hash64_bytes(bytes@),
{
    let mut h: u64 = 0xcbf29ce484222325u64;
    let mut i: usize = 0;
    while i < bytes.len()
        invariant
            i <= bytes@.len(),
            h == hash64_bytes(bytes@.subrange(0, i as int)),
        decreases bytes@.len() - i,
    {
        let b = bytes[i];
        h = (h ^ (b as u64)).wrapping_mul(0x100000001b3u64);
        proof {
            assert(bytes@.subrange(0, i + 1).drop_last() =~= bytes@.subrange(0, i as int));
            assert(bytes@.subrange(0, i + 1).last() == bytes@[i as int]);
        }
        i = i + 1;
    }
    proof {
        assert(bytes@.subrange(0, bytes@.len() as int) =~= bytes@);
    }
    h
}

/// Hash a string with 64-bit FNV-1a over its UTF-8 bytes.
pub fn hash64_of_str(s: &str) -> (r: u64)
    ensures
        r == hash64_str(s@),
{
    let bytes = s.as_bytes_vec();
    hash64(&bytes)
}

// ---------------------------------------------------------------------------
// Partition keys.
// ---------------------------------------------------------------------------

/// Partition key for consistent hashing: the little-endian bytes of the
/// 64-bit hash of a path's original textual form.
#[derive(Clone, Debug, Hash, PartialEq, Eq)]
pub struct PartitionKey(pub Vec<u8>);

impl PartitionKey {
    pub fn from_bytes(bytes: Vec<u8>) -> (r: Self)
        ensures
            r.0@ == bytes@,
    {
        PartitionKey(bytes)
    }

    pub fn from_path(path: &str) -> (r: Self)
        ensures
            r.0@ == vstd::bytes::spec_u64_to_le_bytes(hash64_str(path@)),
    {
        let h = hash64_of_str(path);
        PartitionKey(vstd::bytes::u64_to_le_bytes(h))
    }
}

// ---------------------------------------------------------------------------
// Language identifiers.
// ---------------------------------------------------------------------------

/// Language of a source file, as routed to a language server.
#[derive(Debug, Hash, PartialEq, Eq)]
pub enum LanguageId {
    Rust,
    TypeScript,
    JavaScript,
    Go,
    Python,
    Other(String),
}

/// Spec-level mirror of `LanguageId`, with the unknown name as a char sequence.
pub enum LangSpec {
    Rust,
    TypeScript,
    JavaScript,
    Go,
    Python,
    Other(Seq<char>),
}

pub open spec fn lang_view(l: LanguageId) -> LangSpec {
    match l {
        LanguageId::Rust => LangSpec::Rust,
        LanguageId::TypeScript => LangSpec::TypeScript,
        LanguageId::JavaScript => LangSpec::JavaScript,
        LanguageId::Go => LangSpec::Go,
        LanguageId::Python => LangSpec::Python,
        LanguageId::Other(s) => LangSpec::Other(s@),
    }
}

/// The language a file extension maps to.
pub open spec fn language_of_ext(e: Seq<char>) -> LangSpec {
    if e == "rs"@ {
        LangSpec::Rust
    } else if e == "ts"@ || e == "tsx"@ {
        LangSpec::TypeScript
    } else if e == "js"@ || e == "jsx"@ || e == "mjs"@ || e == "cjs"@ {
        LangSpec::JavaScript
    } else if e == "go"@ {
        LangSpec::Go
    } else if e == "py"@ || e == "pyi"@ {
        LangSpec::Python
    } else {
        LangSpec::Other(e)
    }
}

/// Compare two string slices for view equality.
pub fn str_eq(a: &str, b: &str) -> (r: bool)
    ensures
        r == (a@ == b@),
{
    let sa: String = a.to_owned();
    let sb: String = b.to_owned();
    sa == sb
}

impl Clone for LanguageId {
    fn clone(&self) -> (r: Self)
        ensures
            lang_view(r) == lang_view(*self),
    {
        match self {
            LanguageId::Rust => LanguageId::Rust,
            LanguageId::TypeScript => LanguageId::TypeScript,
            LanguageId::JavaScript => LanguageId::JavaScript,
            LanguageId::Go => LanguageId::Go,
            LanguageId::Python => LanguageId::Python,
            LanguageId::Other(s) => LanguageId::Other(s.clone()),
        }
    }
}

impl LanguageId {
    pub fn from_extension(ext: &str) -> (r: Self)
        ensures
            lang_view(r) == language_of_ext(ext@),
    {
        if str_eq(ext, "rs") {
            LanguageId::Rust
        } else if str_eq(ext, "ts") || str_eq(ext, "tsx") {
            LanguageId::TypeScript
        } else if str_eq(ext, "js") || str_eq(ext, "jsx") || str_eq(ext, "mjs") || str_eq(
            ext,
            "cjs",
        ) {
            LanguageId::JavaScript
        } else if str_eq(ext, "go") {
            LanguageId::Go
        } else if str_eq(ext, "py") || str_eq(ext, "pyi") {
            LanguageId::Python
        } else {
            LanguageId::Other(ext.to_owned())
        }
    }

    /// The command that starts the analyzer process for this language, if any.
    pub fn language_server_command(&self) -> (r: Option<&'static str>)
        ensures
            match self {
                LanguageId::Rust => r matches Some(c) && c@ == "rust-analyzer"@,
                LanguageId::TypeScript | LanguageId::JavaScript => r matches Some(c) && c@
                    == "typescript-language-server"@,
                LanguageId::Go => r matches Some(c) && c@ == "gopls"@,
                LanguageId::Python => r matches Some(c) && c@ == "pyright-langserver"@,
                LanguageId::Other(_) => r is None,
            },
    {
        match self {
            LanguageId::Rust => Some("rust-analyzer"),
            LanguageId::TypeScript | LanguageId::JavaScript => Some("typescript-language-server"),
            LanguageId::Go => Some("gopls"),
            LanguageId::Python => Some("pyright-langserver"),
            LanguageId::Other(_) => None,
        }
    }
}

// ---------------------------------------------------------------------------
// Hex encoding.
// ---------------------------------------------------------------------------

/// The lower-case hex digit for a value below 16.
pub open spec fn hex_digit_char(n: u8) -> char {
    if n < 10 {
        (48 + n) as char
    } else {
        (87 + n) as char
    }
}

/// Lower-case hex rendering of a byte sequence, two digits per byte.
pub open spec fn hex_of(s: Seq<u8>) -> Seq<char>
    decreases s.len(),
{
    if s.len() == 0 {
        Seq::empty()
    } else {
        hex_of(s.drop_last()) + seq![
            hex_digit_char(s.last() / 16),
            hex_digit_char(s.last() % 16),
        ]
    }
}

/// One hex digit as a string slice.
fn hex_digit_str(n: u8) -> (r: &'static str)
    requires
        n < 16,
    ensures
        r@ =~= seq![hex_digit_char(n)],
{
    proof {
        reveal_strlit("0");
        reveal_strlit("1");
        reveal_strlit("2");
        reveal_strlit("3");
        reveal_strlit("4");
        reveal_strlit("5");
        reveal_strlit("6");
        reveal_strlit("7");
        reveal_strlit("8");
        reveal_strlit("9");
        reveal_strlit("a");
        reveal_strlit("b");
        reveal_strlit("c");
        reveal_strlit("d");
        reveal_strlit("e");
        reveal_strlit("f");
    }
    match n {
        0 => "0",
        1 => "1",
        2 => "2",
        3 => "3",
        4 => "4",
        5 => "5",
        6 => "6",
        7 => "7",
        8 => "8",
        9 => "9",
        10 => "a",
        11 => "b",
        12 => "c",
        13 => "d",
        14 => "e",
        _ => "f",
    }
}

/// Render bytes as lower-case hex, two digits per byte.
pub fn encode(bytes: &[u8]) -> (r: String)
    ensures
        r@ == hex_of(bytes@),
{
    let mut out = String::new();
    let mut i: usize = 0;
    while i < bytes.len()
        invariant
            i <= bytes@.len(),
            out@ == hex_of(bytes@.subrange(0, i as int)),
        decreases bytes@.len() - i,
    {
        let b = bytes[i];
        out.append(hex_digit_str(b / 16));
        out.append(hex_digit_str(b % 16));
        proof {
            assert(bytes@.subrange(0, i + 1).drop_last() =~= bytes@.subrange(0, i as int));
            assert(bytes@.subrange(0, i + 1).last() == bytes@[i as int]);
        }
        i = i + 1;
    }
    proof {
        assert(bytes@.subrange(0, bytes@.len() as int) =~= bytes@);
    }
    out
}

} // verus!
