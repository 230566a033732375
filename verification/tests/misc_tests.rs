use vraftls::cluster::{ClusterMembership, ClusterNode, FailureDetector, NodeStatus};
use vraftls::config::{CacheConfig, RaftConfig, VfsConfig};
use vraftls::error::VRaftError;
use vraftls::file::{Checksum, FileContent, LineEnding};
use vraftls::frame::{decode_frame, encode_frame, fmt_u64};
use vraftls::gateway::GatewayCore;
use vraftls::proxy::ProxyCore;
use vraftls::types::{encode, LanguageId, NodeId, PartitionKey, Timestamp, hash64};

#[test]
fn test_retriable_errors() {
    assert!(VRaftError::NotLeader { leader: Some(NodeId::new(2)) }.is_retriable());
    assert!(VRaftError::Timeout.is_retriable());
    assert!(VRaftError::NodeUnreachable(NodeId::new(1)).is_retriable());
    assert!(VRaftError::TransactionTimeout.is_retriable());
    assert!(!VRaftError::FileNotFound(vraftls::types::FileId::new(1)).is_retriable());
    assert!(!VRaftError::Storage("disk".to_string()).is_retriable());
    assert!(VRaftError::NotLeader { leader: None }.is_not_leader());
    assert!(!VRaftError::Timeout.is_not_leader());
}

#[test]
fn test_config_defaults() {
    let raft = RaftConfig::default();
    assert_eq!(raft.heartbeat_interval_ms, 100);
    assert_eq!(raft.election_timeout_min_ms, 300);
    assert_eq!(raft.election_timeout_max_ms, 500);
    assert_eq!(raft.max_append_entries, 100);
    let vfs = VfsConfig::default();
    assert_eq!(vfs.max_file_size, 10 * 1024 * 1024);
    assert_eq!(vfs.max_files_per_group, 200);
    let cache = CacheConfig::default();
    assert_eq!(cache.l1_max_entries, 10000);
    assert_eq!(cache.ttl_secs, 3600);
}

#[test]
fn test_hash_known_vectors() {
    // 64-bit FNV-1a of the empty input is the offset basis.
    assert_eq!(hash64(&vec![]), 0xcbf29ce484222325);
    assert_eq!(hash64(&vec![b'a']), 0xaf63dc4c8601ec8c);
}

#[test]
fn test_checksum_matches_content() {
    let checksum = Checksum::compute("fn main(){}");
    assert!(checksum.verify("fn main(){}"));
    assert!(!checksum.verify("fn main(){} "));
}

#[test]
fn test_hex_encode() {
    assert_eq!(encode(&[0x0f, 0xa0, 0xff]), "0fa0ff");
    assert_eq!(encode(&[]), "");
}

#[test]
fn test_partition_key_from_path() {
    let a = PartitionKey::from_path("/a.rs");
    let b = PartitionKey::from_path("/a.rs");
    let c = PartitionKey::from_path("/b.rs");
    assert_eq!(a.0, b.0);
    assert_ne!(a.0, c.0);
    assert_eq!(a.0.len(), 8);
}

#[test]
fn test_language_from_extension() {
    assert_eq!(LanguageId::from_extension("rs"), LanguageId::Rust);
    assert_eq!(LanguageId::from_extension("tsx"), LanguageId::TypeScript);
    assert_eq!(LanguageId::from_extension("mjs"), LanguageId::JavaScript);
    assert_eq!(LanguageId::from_extension("go"), LanguageId::Go);
    assert_eq!(LanguageId::from_extension("pyi"), LanguageId::Python);
    assert_eq!(
        LanguageId::from_extension("zig"),
        LanguageId::Other("zig".to_string())
    );
    assert_eq!(LanguageId::Rust.language_server_command(), Some("rust-analyzer"));
    assert_eq!(LanguageId::Go.language_server_command(), Some("gopls"));
    assert_eq!(
        LanguageId::Other("zig".to_string()).language_server_command(),
        None
    );
}

#[test]
fn test_line_ending_detection() {
    assert_eq!(LineEnding::detect("a\r\nb"), LineEnding::CrLf);
    assert_eq!(LineEnding::detect("a\rb"), LineEnding::Cr);
    assert_eq!(LineEnding::detect("a\nb"), LineEnding::Lf);
    assert_eq!(LineEnding::detect(""), LineEnding::Lf);
    assert_eq!(LineEnding::CrLf.as_str(), "\r\n");
}

#[test]
fn test_file_content() {
    let loaded = FileContent::Loaded("abc".to_string());
    assert!(loaded.is_loaded());
    assert_eq!(loaded.as_str(), Some("abc"));
    assert_eq!(loaded.len(), Some(3));
    assert!(!loaded.is_empty());
    let missing = FileContent::NotLoaded;
    assert!(!missing.is_loaded());
    assert_eq!(missing.len(), None);
}

#[test]
fn test_timestamp_now_is_callable() {
    let t = Timestamp::now();
    assert!(t.0 > 0);
}

#[test]
fn test_frame_round_trip() {
    let payload: Vec<u8> = br#"{"jsonrpc":"2.0","id":1,"method":"initialize"}"#.to_vec();
    let framed = encode_frame(&payload);
    let text = String::from_utf8(framed.clone()).unwrap();
    assert!(text.starts_with("Content-Length: 46\r\n\r\n"));
    let (decoded, consumed) = decode_frame(&framed).expect("frame should decode");
    assert_eq!(decoded, payload);
    assert_eq!(consumed, framed.len());
}

#[test]
fn test_frame_decode_case_insensitive_header() {
    let mut buf: Vec<u8> = b"content-LENGTH: 3\r\n\r\nabcrest".to_vec();
    let (decoded, consumed) = decode_frame(&buf).expect("frame should decode");
    assert_eq!(decoded, b"abc".to_vec());
    assert_eq!(consumed, buf.len() - 4);
    buf.truncate(10);
    assert!(decode_frame(&buf).is_none());
}

#[test]
fn test_fmt_u64() {
    assert_eq!(fmt_u64(0), b"0".to_vec());
    assert_eq!(fmt_u64(907), b"907".to_vec());
    assert_eq!(fmt_u64(u64::MAX), b"18446744073709551615".to_vec());
}

#[test]
fn test_proxy_core_lifecycle() {
    let mut core = ProxyCore::new();
    let id1 = core.begin_request();
    let id2 = core.begin_request();
    assert_eq!(id1, 1);
    assert_eq!(id2, 2);
    assert_eq!(core.pending_count(), 2);
    assert!(core.is_pending(id1));
    assert!(core.complete(id1));
    assert!(!core.complete(id1), "a late response is dropped");
    assert!(core.timeout(id2));
    assert_eq!(core.pending_count(), 0);
    let id3 = core.begin_request();
    assert_eq!(id3, 3, "ids are never reused");
    let failed = core.fail_all();
    assert_eq!(failed, vec![3]);
    assert_eq!(core.pending_count(), 0);
}

#[test]
fn test_gateway_core_document_lifecycle() {
    let mut gw = GatewayCore::new();
    let cmd = gw.did_open(
        "file:///w/a.rs".to_string(),
        "/w/a.rs",
        "rust",
        1,
        "fn main(){}".to_string(),
    );
    match cmd {
        vraftls::commands::VfsCommand::CreateFile { path, content } => {
            assert_eq!(path.components(), &["w", "a.rs"]);
            assert_eq!(content, "fn main(){}");
        }
        other => panic!("expected CreateFile, got {:?}", other),
    }
    assert_eq!(gw.open_count(), 1);
    let lang = gw.did_change("file:///w/a.rs", 2).expect("document is open");
    assert_eq!(lang, LanguageId::Rust);
    let doc = gw.get_document("file:///w/a.rs").expect("document is open");
    assert_eq!(doc.0, 2);
    assert!(gw.did_change("file:///other", 1).is_none());
    let closed = gw.did_close("file:///w/a.rs").expect("document was open");
    assert_eq!(closed, LanguageId::Rust);
    assert_eq!(gw.open_count(), 0);
}

#[test]
fn test_cluster_membership() {
    let mut members = ClusterMembership::new(NodeId::new(1));
    members.upsert_node(ClusterNode {
        id: NodeId::new(2),
        addr: "127.0.0.1:9000".to_string(),
        status: NodeStatus::Healthy,
        raft_groups: vec![],
        last_heartbeat: Timestamp(0),
    });
    assert_eq!(members.node_count(), 1);
    assert_eq!(members.healthy_node_count(), 1);
    members.mark_suspect(NodeId::new(2));
    assert_eq!(members.get_node(NodeId::new(2)).unwrap().status, NodeStatus::Suspect);
    members.update_heartbeat(NodeId::new(2));
    assert_eq!(members.get_node(NodeId::new(2)).unwrap().status, NodeStatus::Healthy);
    members.mark_down(NodeId::new(2));
    assert_eq!(members.healthy_nodes().len(), 0);
    members.remove_node(NodeId::new(2));
    assert_eq!(members.node_count(), 0);
}

#[test]
fn test_failure_detector() {
    let detector = FailureDetector::new(5000, 10000);
    assert!(!detector.is_suspect(5000));
    assert!(detector.is_suspect(5001));
    assert!(!detector.is_failed(10000));
    assert!(detector.is_failed(10001));
}

#[test]
fn test_cluster_metadata_routing() {
    let mut meta = vraftls::cluster::ClusterMetadata::new();
    let g = meta.allocate_group_id();
    assert_eq!(g.0, 1);
    let g2 = meta.allocate_group_id();
    assert_eq!(g2.0, 2);
    let key = PartitionKey::from_path("/a.rs").0;
    assert!(meta.lookup(&key).is_none());
    meta.update_routing(
        key.clone(),
        vraftls::cluster::RoutingEntry { group_id: g, leader: Some(NodeId::new(1)), replicas: vec![] },
    );
    let entry = meta.lookup(&key).expect("routing entry recorded");
    assert_eq!(entry.group_id, g);
}
