use vraftls::path::VfsPath;
use vraftls::router::{LspRouter, ResponseAggregator, RouteDecision};
use vraftls::types::{NodeId, RaftGroupId};

#[test]
fn test_leader_redirect_updates_cache() {
    // A write goes out with cold caches; the contacted node answers
    // NotLeader with a hint; the router learns it and the second write
    // goes straight to the leader.
    let mut router = LspRouter::new();
    let group = RaftGroupId::new(7);
    assert!(router.get_leader(group).is_none());

    let node_b = NodeId::new(2);
    router.update_leader(group, node_b);
    assert_eq!(router.get_leader(group), Some(node_b));

    let path = VfsPath::new("/a.rs");
    router.cache_file_owner(path.clone(), node_b);
    match router.route_for_file(&path) {
        RouteDecision::Single(n) => assert_eq!(n, node_b),
        other => panic!("expected Single, got {:?}", other),
    }
}

#[test]
fn test_route_for_file_cold_cache_is_local() {
    let router = LspRouter::new();
    let path = VfsPath::new("/a.rs");
    assert!(matches!(router.route_for_file(&path), RouteDecision::LocalOnly));
}

#[test]
fn test_route_workspace() {
    let mut router = LspRouter::new();
    assert!(matches!(router.route_workspace(), RouteDecision::LocalOnly));
    router.update_leader(RaftGroupId::new(1), NodeId::new(10));
    router.update_leader(RaftGroupId::new(2), NodeId::new(20));
    match router.route_workspace() {
        RouteDecision::ScatterGather(groups) => {
            assert_eq!(groups.len(), 2);
            assert!(groups.contains(&RaftGroupId::new(1)));
            assert!(groups.contains(&RaftGroupId::new(2)));
        }
        other => panic!("expected ScatterGather, got {:?}", other),
    }
}

#[test]
fn test_invalidate_and_clear() {
    let mut router = LspRouter::new();
    let path = VfsPath::new("/a.rs");
    router.cache_file_owner(path.clone(), NodeId::new(1));
    router.invalidate_file(&path);
    assert!(matches!(router.route_for_file(&path), RouteDecision::LocalOnly));
    router.update_leader(RaftGroupId::new(1), NodeId::new(1));
    router.clear();
    assert!(router.get_leader(RaftGroupId::new(1)).is_none());
}

#[test]
fn test_aggregator_collects_responses_and_errors() {
    let mut agg: ResponseAggregator<u32> = ResponseAggregator::new();
    assert!(!agg.has_errors());
    agg.add_response(1);
    agg.add_response(2);
    agg.add_error("group 3 unreachable".to_string());
    assert!(agg.has_errors());
    assert_eq!(agg.responses(), &[1, 2]);
    let (responses, errors) = agg.into_results();
    assert_eq!(responses, vec![1, 2]);
    assert_eq!(errors.len(), 1);
}
