use vraftls::commands::{VfsCommand, VfsResponse};
use vraftls::logstore::{EntryPayload, LogEntry, LogId, RaftMembership, VfsRequest};
use vraftls::path::VfsPath;
use vraftls::statemachine::VfsStateMachine;
use vraftls::types::RaftGroupId;

fn create_entry(index: u64, path: &str, content: &str) -> LogEntry {
    LogEntry {
        log_id: LogId { term: 1, index },
        payload: EntryPayload::Normal(VfsRequest {
            group_id: RaftGroupId::new(1),
            command: VfsCommand::CreateFile {
                path: VfsPath::new(path),
                content: content.to_string(),
            },
        }),
    }
}

fn update_entry(index: u64, id: u64, content: &str) -> LogEntry {
    LogEntry {
        log_id: LogId { term: 1, index },
        payload: EntryPayload::Normal(VfsRequest {
            group_id: RaftGroupId::new(1),
            command: VfsCommand::UpdateFile {
                file_id: vraftls::types::FileId::new(id),
                content: content.to_string(),
                expected_version: None,
            },
        }),
    }
}

#[test]
fn test_apply_sets_applied_mark_and_responds_per_entry() {
    let mut sm = VfsStateMachine::new(RaftGroupId::new(1));
    let responses = sm.apply(vec![
        LogEntry { log_id: LogId { term: 1, index: 1 }, payload: EntryPayload::Blank },
        create_entry(2, "/a.rs", "a"),
    ]);
    assert_eq!(responses.len(), 2);
    assert!(matches!(responses[0].response, VfsResponse::Applied(None)));
    assert!(matches!(responses[1].response, VfsResponse::Created(_)));
    let (applied, _) = sm.applied_state();
    assert_eq!(applied, Some(LogId { term: 1, index: 2 }));
    assert_eq!(sm.vfs().file_count(), 1);
}

#[test]
fn test_membership_entry_replaces_configuration() {
    let mut sm = VfsStateMachine::new(RaftGroupId::new(1));
    let membership = RaftMembership {
        group_id: RaftGroupId::new(1),
        nodes: vec![(1, vraftls::logstore::VRaftNode { addr: "127.0.0.1:8080".to_string() })],
        leader: Some(1),
    };
    sm.apply(vec![LogEntry {
        log_id: LogId { term: 2, index: 7 },
        payload: EntryPayload::Membership(membership),
    }]);
    let (applied, membership_mark) = sm.applied_state();
    assert_eq!(applied, Some(LogId { term: 2, index: 7 }));
    assert_eq!(membership_mark, Some(LogId { term: 2, index: 7 }));
}

#[test]
fn test_replay_same_prefix_gives_same_state() {
    let entries = vec![
        create_entry(1, "/a.rs", "fn main(){}"),
        create_entry(2, "/b.rs", "b"),
        update_entry(3, 1, "fn m(){}"),
    ];
    let mut leader = VfsStateMachine::new(RaftGroupId::new(1));
    leader.apply(clone_entries(&entries));
    let mut replica = VfsStateMachine::new(RaftGroupId::new(1));
    // The replica receives the same prefix in two batches.
    let mut first = clone_entries(&entries);
    let rest = first.split_off(2);
    replica.apply(first);
    replica.apply(rest);

    let la = leader.vfs().get_file_by_path(&VfsPath::new("/a.rs")).unwrap();
    let ra = replica.vfs().get_file_by_path(&VfsPath::new("/a.rs")).unwrap();
    assert_eq!(la.id.0, ra.id.0);
    assert_eq!(la.version.0, ra.version.0);
    assert_eq!(la.content_str(), ra.content_str());
    assert_eq!(la.checksum, ra.checksum);
    assert_eq!(leader.applied_state().0, replica.applied_state().0);
    assert_eq!(leader.vfs().file_count(), replica.vfs().file_count());
}

fn clone_entries(entries: &[LogEntry]) -> Vec<LogEntry> {
    entries.iter().map(|e| e.clone()).collect()
}

#[test]
fn test_snapshot_round_trip() {
    let mut sm = VfsStateMachine::new(RaftGroupId::new(1));
    sm.apply(vec![
        create_entry(1, "/a.rs", "a"),
        create_entry(2, "/b.rs", "b"),
        update_entry(3, 1, "a2"),
    ]);
    let snapshot = sm.build_snapshot();

    let mut fresh = VfsStateMachine::new(RaftGroupId::new(1));
    fresh.install_snapshot(snapshot);

    let ids = fresh.vfs().all_file_ids();
    assert_eq!(ids.len(), 2);
    assert!(fresh.vfs().get_file_by_path(&VfsPath::new("/a.rs")).is_some());
    assert!(fresh.vfs().get_file_by_path(&VfsPath::new("/b.rs")).is_some());
    assert_eq!(fresh.applied_state().0, Some(LogId { term: 1, index: 3 }));
    let a = fresh.vfs().get_file_by_path(&VfsPath::new("/a.rs")).unwrap();
    assert_eq!(a.version.0, 1);
    assert_eq!(a.content_str(), Some("a2"));

    // A create after install mints a fresh id past the snapshot's ids.
    let resp = fresh.apply(vec![create_entry(4, "/c.rs", "c")]);
    match &resp[0].response {
        VfsResponse::Created(id) => assert_eq!(id.0, 3),
        other => panic!("expected Created, got {:?}", other),
    }
}
