use vraftls::commands::VfsCommand;
use vraftls::logstore::{EntryPayload, LogEntry, LogId, LogStore, VfsRequest, Vote, index_from_key,
    log_key};
use vraftls::path::VfsPath;
use vraftls::types::RaftGroupId;

fn entry(term: u64, index: u64) -> LogEntry {
    LogEntry { log_id: LogId { term, index }, payload: EntryPayload::Blank }
}

fn command_entry(term: u64, index: u64, path: &str) -> LogEntry {
    LogEntry {
        log_id: LogId { term, index },
        payload: EntryPayload::Normal(VfsRequest {
            group_id: RaftGroupId::new(1),
            command: VfsCommand::CreateFile {
                path: VfsPath::new(path),
                content: "x".to_string(),
            },
        }),
    }
}

#[test]
fn test_log_key_is_big_endian() {
    let key = log_key(0x0102030405060708);
    assert_eq!(key, vec![1, 2, 3, 4, 5, 6, 7, 8]);
    assert_eq!(index_from_key(&key), 0x0102030405060708);
}

#[test]
fn test_log_key_orders_like_indices() {
    let a = log_key(255);
    let b = log_key(256);
    assert!(a < b);
}

#[test]
fn test_empty_log_state_reports_purge_mark() {
    let store = LogStore::new();
    let (purged, last) = store.get_log_state();
    assert!(purged.is_none());
    assert!(last.is_none());
}

#[test]
fn test_append_then_log_state() {
    let mut store = LogStore::new();
    store.append(vec![entry(1, 1), command_entry(1, 2, "/a.rs"), entry(1, 3)]);
    let (purged, last) = store.get_log_state();
    assert!(purged.is_none());
    assert_eq!(last, Some(LogId { term: 1, index: 3 }));
}

#[test]
fn test_truncate_removes_suffix() {
    let mut store = LogStore::new();
    store.append(vec![entry(1, 1), entry(1, 2), entry(1, 3)]);
    store.truncate(LogId { term: 1, index: 2 });
    let (purged, last) = store.get_log_state();
    assert!(purged.is_none());
    assert_eq!(last, Some(LogId { term: 1, index: 1 }));
    let range = store.try_get_log_entries(1, 10);
    assert_eq!(range.len(), 1);
    assert_eq!(range[0].log_id.index, 1);
}

#[test]
fn test_purge_removes_prefix_and_moves_mark() {
    let mut store = LogStore::new();
    store.append(vec![entry(1, 1), entry(1, 2), entry(1, 3)]);
    store.purge(LogId { term: 1, index: 2 });
    let (purged, last) = store.get_log_state();
    assert_eq!(purged, Some(LogId { term: 1, index: 2 }));
    assert_eq!(last, Some(LogId { term: 1, index: 3 }));
    // A read at or below the purge mark is empty; one starting at the
    // first surviving index sees it.
    assert!(store.try_get_log_entries(1, 10).is_empty());
    assert!(store.try_get_log_entries(2, 10).is_empty());
    let range = store.try_get_log_entries(3, 10);
    assert_eq!(range.len(), 1);
    assert_eq!(range[0].log_id.index, 3);
}

#[test]
fn test_purge_whole_log_reports_mark_as_last() {
    let mut store = LogStore::new();
    store.append(vec![entry(2, 5), entry(2, 6)]);
    store.purge(LogId { term: 2, index: 6 });
    let (purged, last) = store.get_log_state();
    assert_eq!(purged, Some(LogId { term: 2, index: 6 }));
    assert_eq!(last, Some(LogId { term: 2, index: 6 }));
    assert!(store.try_get_log_entries(0, 100).is_empty());
}

#[test]
fn test_range_read_starts_at_lo_or_is_empty() {
    let mut store = LogStore::new();
    store.append(vec![entry(1, 10), entry(1, 11), entry(1, 12)]);
    let range = store.try_get_log_entries(11, 12);
    assert_eq!(range.len(), 1);
    assert_eq!(range[0].log_id.index, 11);
    let all = store.try_get_log_entries(10, 100);
    assert_eq!(all.len(), 3);
    assert_eq!(all[0].log_id.index, 10);
    // A read starting below the first stored index finds nothing: the
    // walk stops at the first absent index, which is lo itself.
    assert!(store.try_get_log_entries(0, 100).is_empty());
    assert!(store.try_get_log_entries(9, 100).is_empty());
    assert!(store.try_get_log_entries(20, 30).is_empty());
    assert!(store.try_get_log_entries(12, 11).is_empty());
}

#[test]
fn test_vote_and_committed_round_trip() {
    let mut store = LogStore::new();
    assert!(store.read_vote().is_none());
    store.save_vote(Vote { term: 3, node_id: 2, committed: true });
    assert_eq!(store.read_vote(), Some(Vote { term: 3, node_id: 2, committed: true }));
    store.save_committed(Some(LogId { term: 3, index: 9 }));
    assert_eq!(store.read_committed(), Some(LogId { term: 3, index: 9 }));
}

#[test]
fn test_restore_recovers_state() {
    let store = LogStore::restore(
        vec![entry(1, 4), entry(1, 5)],
        Some(Vote { term: 1, node_id: 1, committed: false }),
        Some(LogId { term: 1, index: 4 }),
        Some(LogId { term: 1, index: 3 }),
    );
    let (purged, last) = store.get_log_state();
    assert_eq!(purged, Some(LogId { term: 1, index: 3 }));
    assert_eq!(last, Some(LogId { term: 1, index: 5 }));
}

#[test]
fn test_range_read_below_first_index_is_empty() {
    // A store holding only index 1: a read starting at the absent
    // index 0 stops immediately and returns nothing.
    let store = LogStore::restore(vec![entry(1, 1)], None, None, None);
    assert!(store.try_get_log_entries(0, 2).is_empty());
    let range = store.try_get_log_entries(1, 2);
    assert_eq!(range.len(), 1);
    assert_eq!(range[0].log_id.index, 1);
}
