use dldsr::error::DldsrError;
use dldsr::route::{RouteCache, RouteEntry, SeenRequests};
use dldsr::tables::{LabelTable, NeighborTable};
use dldsr::topology::Endpoint;

fn addr(port: u16) -> Endpoint {
    Endpoint::loopback(port)
}

#[test]
fn first_neighbors_get_the_lowest_labels_in_order() {
    let mut table = NeighborTable::new();
    assert_eq!(table.assign_or_reuse_label(10, addr(7010), 1).unwrap(), 1);
    assert_eq!(table.assign_or_reuse_label(20, addr(7020), 1).unwrap(), 2);
    assert_eq!(table.assign_or_reuse_label(30, addr(7030), 1).unwrap(), 3);
    assert_eq!(table.entries().len(), 3);
}

#[test]
fn known_neighbor_keeps_label_and_is_refreshed() {
    let mut table = NeighborTable::new();
    let first = table.assign_or_reuse_label(5, addr(7005), 10).unwrap();
    let again = table.assign_or_reuse_label(5, addr(7105), 99).unwrap();
    assert_eq!(first, again);
    let entry = table.get(5).unwrap();
    assert_eq!(entry.last_seen_millis, 99);
    assert_eq!(entry.endpoint.as_str(), "127.0.0.1:7105");
    assert!(entry.alive);
    assert_eq!(table.entries().len(), 1);
}

#[test]
fn label_space_is_exhausted_after_255_neighbors() {
    let mut table = NeighborTable::new();
    for id in 0..255u32 {
        let label = table.assign_or_reuse_label(id, addr(8000), 1).unwrap();
        assert_eq!(label as u32, id + 1);
    }
    let res = table.assign_or_reuse_label(1000, addr(8000), 1);
    assert!(matches!(res, Err(DldsrError::LabelSpaceExhausted)));
    assert!(table.get(1000).is_none());
    assert_eq!(table.assign_or_reuse_label(7, addr(8000), 2).unwrap(), 8);
}

#[test]
fn labels_of_all_neighbors_are_distinct() {
    let mut table = NeighborTable::new();
    for id in 0..40u32 {
        table.assign_or_reuse_label(id * 3, addr(9000), 1).unwrap();
    }
    let entries = table.entries();
    for i in 0..entries.len() {
        for j in 0..entries.len() {
            if i != j {
                assert_ne!(
                    entries[i].label_assigned_by_me_to_neighbor,
                    entries[j].label_assigned_by_me_to_neighbor
                );
            }
        }
    }
}

#[test]
fn unknown_label_finds_no_neighbor() {
    let mut table = NeighborTable::new();
    table.assign_or_reuse_label(2, addr(7002), 1).unwrap();
    assert!(table.neighbor_by_label(9).is_none());
    assert!(table.get(3).is_none());
}

#[test]
fn label_table_keeps_the_latest_label_per_neighbor() {
    let mut labels = LabelTable::new();
    assert_eq!(labels.label_assigned_by_neighbor(7), None);
    labels.update_from_hello_reply(7, 42, 100);
    labels.update_from_hello_reply(8, 5, 100);
    labels.update_from_hello_reply(7, 43, 200);
    assert_eq!(labels.label_assigned_by_neighbor(7), Some(43));
    assert_eq!(labels.label_assigned_by_neighbor(8), Some(5));
}

#[test]
fn expired_routes_are_not_chosen() {
    let mut cache = RouteCache::new();
    cache.insert(RouteEntry::new_dsr(9, vec![0, 9], 50));
    cache.insert(RouteEntry::new_dsr(9, vec![0, 1, 2, 9], 1000));
    assert_eq!(cache.shortest(9, 40).unwrap().hop_count(), 2);
    assert_eq!(cache.shortest(9, 51).unwrap().hop_count(), 4);
    assert!(cache.shortest(9, 1001).is_none());
    assert!(cache.shortest(8, 0).is_none());
}

#[test]
fn equal_routes_pick_the_earliest_cached() {
    let mut cache = RouteCache::new();
    cache.insert(RouteEntry::new_dsr(9, vec![0, 1, 9], 1000));
    cache.insert(RouteEntry::new_dsr(9, vec![0, 2, 9], 1000));
    assert_eq!(cache.shortest(9, 0).unwrap().dsr_path, vec![0, 1, 9]);
}

#[test]
fn label_routes_count_label_hops() {
    let route = RouteEntry::new_dldsr(3, vec![1, 2, 3], 10);
    assert_eq!(route.hop_count(), 3);
    assert!(route.dsr_path.is_empty());
    let route = RouteEntry::new_dsr(3, vec![0, 1, 2, 3], 10);
    assert_eq!(route.hop_count(), 4);
    assert!(route.dldsr_label_path.is_empty());
}

#[test]
fn seen_request_expires_after_ttl() {
    let mut seen = SeenRequests::new();
    assert!(seen.is_empty());
    assert!(seen.mark_if_new(1, 99, 1_000, 500, 10));
    assert!(!seen.mark_if_new(1, 99, 1_500, 500, 10));
    assert!(seen.mark_if_new(1, 99, 2_001, 500, 10));
    assert_eq!(seen.len(), 1);
}

#[test]
fn prune_drops_only_old_requests() {
    let mut seen = SeenRequests::new();
    seen.mark_if_new(1, 1, 100, 1_000, 10);
    seen.mark_if_new(1, 2, 900, 1_000, 10);
    seen.prune(1_500, 1_000);
    assert_eq!(seen.len(), 1);
    assert!(!seen.mark_if_new(1, 2, 1_500, 1_000, 10));
    assert!(seen.mark_if_new(1, 1, 1_500, 1_000, 10));
}

#[test]
fn cache_never_exceeds_its_bound() {
    let mut seen = SeenRequests::new();
    for rid in 0..50u64 {
        seen.mark_if_new(2, rid, rid, 60_000, 7);
        assert!(seen.len() <= 7);
    }
    assert_eq!(seen.len(), 7);
    assert!(!seen.mark_if_new(2, 49, 60, 60_000, 7));
    assert!(seen.mark_if_new(2, 0, 61, 60_000, 7));
}

#[test]
fn zero_bound_keeps_nothing() {
    let mut seen = SeenRequests::new();
    assert!(seen.mark_if_new(1, 1, 1, 60_000, 0));
    assert!(seen.is_empty());
    assert!(seen.mark_if_new(1, 1, 2, 60_000, 0));
}

#[test]
fn caching_for_one_destination_leaves_others_alone() {
    let mut cache = RouteCache::new();
    cache.insert(RouteEntry::new_dsr(8, vec![0, 8], 1000));
    cache.insert(RouteEntry::new_dsr(9, vec![0, 1, 9], 1000));
    cache.insert(RouteEntry::new_dsr(9, vec![0, 9], 1000));
    assert_eq!(cache.shortest(8, 0).unwrap().dsr_path, vec![0, 8]);
    assert_eq!(cache.shortest(9, 0).unwrap().dsr_path, vec![0, 9]);
}
