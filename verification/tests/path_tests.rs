use vraftls::path::VfsPath;
use vraftls::types::{ClientId, LanguageId};

#[test]
fn test_normalize_path() {
    let path = VfsPath::new("/foo/bar/../baz");
    assert_eq!(path.components(), &["foo", "baz"]);
}

#[test]
fn test_file_name() {
    let path = VfsPath::new("/project/src/main.rs");
    assert_eq!(path.file_name(), Some("main.rs"));
}

#[test]
fn test_extension() {
    let path = VfsPath::new("/project/src/main.rs");
    assert_eq!(path.extension(), Some("rs"));
}

#[test]
fn test_language_id() {
    let path = VfsPath::new("/project/src/main.rs");
    assert_eq!(path.language_id(), Some(LanguageId::Rust));

    let path = VfsPath::new("/project/src/index.ts");
    assert_eq!(path.language_id(), Some(LanguageId::TypeScript));
}

#[test]
fn test_join() {
    let base = VfsPath::new("/project");
    let joined = base.join("src/main.rs");
    assert_eq!(joined.components(), &["project", "src", "main.rs"]);
}

#[test]
fn test_normalize_drops_dot_and_empty_segments() {
    let path = VfsPath::new("a//./b/./c");
    assert_eq!(path.components(), &["a", "b", "c"]);
}

#[test]
fn test_normalize_excess_parent_dirs_dropped() {
    let path = VfsPath::new("/../../a");
    assert_eq!(path.components(), &["a"]);
}

#[test]
fn test_normalize_idempotent_textually() {
    let path = VfsPath::new("/foo/./bar/../baz//qux");
    let rebuilt = VfsPath::new(&path.to_path_buf());
    assert_eq!(rebuilt.components(), path.components());
    assert_eq!(rebuilt.extension(), path.extension());
    assert_eq!(rebuilt.language_id(), path.language_id());
}

#[test]
fn test_parent() {
    let path = VfsPath::new("/a/b/c");
    let parent = path.parent().expect("parent should exist");
    assert_eq!(parent.components(), &["a", "b"]);
    let root = VfsPath::new("/a");
    assert!(root.parent().is_none());
}

#[test]
fn test_starts_with() {
    let base = VfsPath::new("/project/src");
    let file = VfsPath::new("/project/src/main.rs");
    assert!(file.starts_with(&base));
    assert!(!base.starts_with(&file));
}

#[test]
fn test_path_equality_ignores_text_form() {
    let a = VfsPath::new("/a/./b");
    let b = VfsPath::new("/a//b");
    assert!(a == b);
    let c = VfsPath::with_client("/a/b", ClientId::new(7));
    assert!(!(a == c));
}

#[test]
fn test_partition_key_is_stable() {
    let a = VfsPath::new("/a/b.rs");
    let b = VfsPath::new("/a/b.rs");
    assert_eq!(a.partition_key().0, b.partition_key().0);
}
