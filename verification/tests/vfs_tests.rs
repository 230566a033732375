use vraftls::commands::{BatchWriteOp, VfsCommand, VfsCommandError, VfsBatchResult, VfsResponse};
use vraftls::file::FileChangeType;
use vraftls::path::VfsPath;
use vraftls::types::{FileId, RaftGroupId};
use vraftls::vfs::Vfs;

#[test]
fn test_create_and_get_file() {
    let mut vfs = Vfs::new(RaftGroupId::new(1));

    let path = VfsPath::new("/test.rs");
    let content = "fn main() {}".to_string();

    let response = vfs.apply(VfsCommand::CreateFile {
        path: path.clone(),
        content: content.clone(),
    });

    let file_id = match response {
        VfsResponse::Created(id) => id,
        _ => panic!("expected Created response"),
    };

    let file = vfs.get_file(file_id).expect("file should exist");
    assert_eq!(file.content_str(), Some(content.as_str()));
}

#[test]
fn test_update_file() {
    let mut vfs = Vfs::new(RaftGroupId::new(1));

    let path = VfsPath::new("/test.rs");
    let file_id = match vfs.apply(VfsCommand::CreateFile {
        path: path.clone(),
        content: "fn main() {}".to_string(),
    }) {
        VfsResponse::Created(id) => id,
        _ => panic!("expected Created"),
    };

    let new_content = "fn main() { println!(\"hello\"); }".to_string();
    vfs.apply(VfsCommand::UpdateFile {
        file_id,
        content: new_content.clone(),
        expected_version: Some(0),
    });

    let file = vfs.get_file(file_id).unwrap();
    assert_eq!(file.content_str(), Some(new_content.as_str()));
    assert_eq!(file.version.0, 1);
}

#[test]
fn test_delete_file() {
    let mut vfs = Vfs::new(RaftGroupId::new(1));

    let path = VfsPath::new("/test.rs");
    let file_id = match vfs.apply(VfsCommand::CreateFile {
        path,
        content: "test".to_string(),
    }) {
        VfsResponse::Created(id) => id,
        _ => panic!("expected Created"),
    };

    vfs.apply(VfsCommand::DeleteFile { file_id });

    assert!(vfs.get_file(file_id).is_none());
}

#[test]
fn test_create_then_read_emits_event() {
    let mut vfs = Vfs::new(RaftGroupId::new(1));
    let mut rx = vfs.subscribe();

    let response = vfs.apply(VfsCommand::CreateFile {
        path: VfsPath::new("/a.rs"),
        content: "fn main(){}".to_string(),
    });
    assert!(matches!(response, VfsResponse::Created(FileId(1))));

    let file = vfs
        .get_file_by_path(&VfsPath::new("/a.rs"))
        .expect("file should exist");
    assert_eq!(file.id.0, 1);
    assert_eq!(file.version.0, 0);
    assert_eq!(file.content_str(), Some("fn main(){}"));
    assert!(file.checksum.verify("fn main(){}"));

    let event = rx.try_recv().expect("one event expected");
    assert_eq!(event.change_type, FileChangeType::Created);
    assert_eq!(event.file_id.0, 1);
    assert!(rx.try_recv().is_err());
}

#[test]
fn test_version_guarded_update_success_then_failure() {
    let mut vfs = Vfs::new(RaftGroupId::new(1));
    let file_id = match vfs.apply(VfsCommand::CreateFile {
        path: VfsPath::new("/a.rs"),
        content: "fn main(){}".to_string(),
    }) {
        VfsResponse::Created(id) => id,
        _ => panic!("expected Created"),
    };
    assert_eq!(file_id.0, 1);

    let ok = vfs.apply(VfsCommand::UpdateFile {
        file_id,
        content: "fn m(){}".to_string(),
        expected_version: Some(0),
    });
    assert!(matches!(ok, VfsResponse::Applied(Some(FileId(1)))));
    assert_eq!(vfs.get_file(file_id).unwrap().version.0, 1);

    let (err, events) = vfs.apply_with_events(VfsCommand::UpdateFile {
        file_id,
        content: "x".to_string(),
        expected_version: Some(0),
    });
    match err {
        VfsResponse::Error(VfsCommandError::VersionMismatch { expected, actual }) => {
            assert_eq!(expected, 0);
            assert_eq!(actual, 1);
        }
        other => panic!("expected VersionMismatch, got {:?}", other),
    }
    assert_eq!(vfs.get_file(file_id).unwrap().version.0, 1);
    assert!(events.is_empty());
}

#[test]
fn test_rename_collision() {
    let mut vfs = Vfs::new(RaftGroupId::new(1));
    let id1 = match vfs.apply(VfsCommand::CreateFile {
        path: VfsPath::new("/a.rs"),
        content: "a".to_string(),
    }) {
        VfsResponse::Created(id) => id,
        _ => panic!("expected Created"),
    };
    assert_eq!(id1.0, 1);
    let id2 = match vfs.apply(VfsCommand::CreateFile {
        path: VfsPath::new("/b.rs"),
        content: "b".to_string(),
    }) {
        VfsResponse::Created(id) => id,
        _ => panic!("expected Created"),
    };
    assert_eq!(id2.0, 2);

    let response = vfs.apply(VfsCommand::RenameFile {
        file_id: id1,
        new_path: VfsPath::new("/b.rs"),
    });
    match response {
        VfsResponse::Error(VfsCommandError::FileAlreadyExists(p)) => {
            assert_eq!(p, "/b.rs");
        }
        other => panic!("expected FileAlreadyExists, got {:?}", other),
    }
    let still = vfs.get_file_by_path(&VfsPath::new("/a.rs")).unwrap();
    assert_eq!(still.id.0, 1);
}

#[test]
fn test_batch_partial_failure() {
    let mut vfs = Vfs::new(RaftGroupId::new(1));
    let response = vfs.apply(VfsCommand::BatchWrite {
        operations: vec![
            BatchWriteOp::Create { path: VfsPath::new("/x"), content: "x".to_string() },
            BatchWriteOp::Update { file_id: FileId::new(999), content: "y".to_string() },
            BatchWriteOp::Create { path: VfsPath::new("/y"), content: "y".to_string() },
        ],
    });
    let results = match response {
        VfsResponse::BatchResults(rs) => rs,
        other => panic!("expected BatchResults, got {:?}", other),
    };
    assert_eq!(results.len(), 3);
    assert!(matches!(results[0], VfsBatchResult::Success(Some(FileId(1)))));
    match &results[1] {
        VfsBatchResult::Error(VfsCommandError::FileNotFound(id)) => assert_eq!(id.0, 999),
        other => panic!("expected FileNotFound, got {:?}", other),
    }
    assert!(matches!(results[2], VfsBatchResult::Success(Some(FileId(2)))));
    assert!(vfs.get_file_by_path(&VfsPath::new("/x")).is_some());
    assert!(vfs.get_file_by_path(&VfsPath::new("/y")).is_some());
}

#[test]
fn test_rename_keeps_version() {
    let mut vfs = Vfs::new(RaftGroupId::new(1));
    let id = match vfs.apply(VfsCommand::CreateFile {
        path: VfsPath::new("/old.rs"),
        content: "a".to_string(),
    }) {
        VfsResponse::Created(id) => id,
        _ => panic!("expected Created"),
    };
    vfs.apply(VfsCommand::UpdateFile { file_id: id, content: "b".to_string(), expected_version: None });
    let response = vfs.apply(VfsCommand::RenameFile { file_id: id, new_path: VfsPath::new("/new.rs") });
    assert!(matches!(response, VfsResponse::Applied(Some(_))));
    let file = vfs.get_file_by_path(&VfsPath::new("/new.rs")).unwrap();
    assert_eq!(file.version.0, 1);
    assert!(vfs.get_file_by_path(&VfsPath::new("/old.rs")).is_none());
}

#[test]
fn test_queries() {
    let mut vfs = Vfs::new(RaftGroupId::new(1));
    vfs.apply(VfsCommand::CreateFile { path: VfsPath::new("/src/a.rs"), content: "a".to_string() });
    vfs.apply(VfsCommand::CreateFile { path: VfsPath::new("/src/b.rs"), content: "b".to_string() });
    vfs.apply(VfsCommand::CreateFile { path: VfsPath::new("/doc/c.md"), content: "c".to_string() });

    assert_eq!(vfs.file_count(), 3);
    assert_eq!(vfs.all_file_ids().len(), 3);
    let under_src = vfs.list_directory(&VfsPath::new("/src"));
    assert_eq!(under_src.len(), 2);
    let found = vfs.find_files(".rs");
    assert_eq!(found.len(), 2);
    let content = vfs.get_content(FileId::new(1)).unwrap();
    assert_eq!(content, "a");
    assert!(vfs.get_content(FileId::new(9)).is_err());
}

#[test]
fn test_create_empty_content() {
    let mut vfs = Vfs::new(RaftGroupId::new(1));
    let id = match vfs.apply(VfsCommand::CreateFile {
        path: VfsPath::new("/empty"),
        content: String::new(),
    }) {
        VfsResponse::Created(id) => id,
        _ => panic!("expected Created"),
    };
    let file = vfs.get_file(id).unwrap();
    assert_eq!(file.content_str(), Some(""));
    assert!(file.checksum.verify(""));
}

#[test]
fn test_create_duplicate_path_is_refused() {
    let mut vfs = Vfs::new(RaftGroupId::new(1));
    vfs.apply(VfsCommand::CreateFile { path: VfsPath::new("/a"), content: "1".to_string() });
    let response = vfs.apply(VfsCommand::CreateFile {
        path: VfsPath::new("/a"),
        content: "2".to_string(),
    });
    match response {
        VfsResponse::Error(VfsCommandError::FileAlreadyExists(p)) => assert_eq!(p, "/a"),
        other => panic!("expected FileAlreadyExists, got {:?}", other),
    }
    assert_eq!(vfs.file_count(), 1);
}

#[test]
fn test_delete_missing_file() {
    let mut vfs = Vfs::new(RaftGroupId::new(1));
    let response = vfs.apply(VfsCommand::DeleteFile { file_id: FileId::new(42) });
    match response {
        VfsResponse::Error(VfsCommandError::FileNotFound(id)) => assert_eq!(id.0, 42),
        other => panic!("expected FileNotFound, got {:?}", other),
    }
}
