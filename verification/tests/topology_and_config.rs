use dldsr::config::{node_config_from_args, ConfigError};
use dldsr::packet::ProtocolMode;
use dldsr::topology::{
    default_hello_interval_ms, default_log_level, default_max_rreq_hops,
    default_neighbor_ttl_ms, default_route_cache_ttl_ms, default_route_discovery_max_retries,
    default_route_discovery_timeout_ms, default_seen_request_max_entries,
    default_seen_request_ttl_ms, default_strict_protocol_mode, Endpoint, Topology,
};

#[test]
fn loopback_endpoint_text() {
    assert_eq!(Endpoint::loopback(7001).as_str(), "127.0.0.1:7001");
    assert_eq!(Endpoint::loopback(0).as_str(), "127.0.0.1:0");
    assert!(Endpoint::loopback(80).same(&Endpoint::new("127.0.0.1:80".to_string())));
    assert!(!Endpoint::loopback(80).same(&Endpoint::loopback(81)));
}

#[test]
fn chain_links_each_node_to_its_neighbors() {
    let t = Topology::chain(4, 7000);
    assert_eq!(t.nodes.len(), 4);
    assert_eq!(t.nodes[0].neighbors, vec![1]);
    assert_eq!(t.nodes[1].neighbors, vec![0, 2]);
    assert_eq!(t.nodes[2].neighbors, vec![1, 3]);
    assert_eq!(t.nodes[3].neighbors, vec![2]);
    assert_eq!(t.nodes[3].node_id, 3);
    assert_eq!(t.nodes[3].endpoint.as_str(), "127.0.0.1:7003");
}

#[test]
fn single_and_empty_chains() {
    let one = Topology::chain(1, 9000);
    assert_eq!(one.nodes.len(), 1);
    assert!(one.nodes[0].neighbors.is_empty());
    assert!(Topology::chain(0, 9000).nodes.is_empty());
}

#[test]
fn node_lookup_and_endpoint_map() {
    let t = Topology::chain(3, 7100);
    assert_eq!(t.node(2).unwrap().endpoint.as_str(), "127.0.0.1:7102");
    assert!(t.node(3).is_none());
    let eps = t.endpoints();
    assert_eq!(eps.len(), 3);
    assert_eq!(eps.get(&1).unwrap().as_str(), "127.0.0.1:7101");
}

#[test]
fn defaults() {
    assert_eq!(default_hello_interval_ms(), 800);
    assert_eq!(default_route_cache_ttl_ms(), 30_000);
    assert_eq!(default_neighbor_ttl_ms(), 5_000);
    assert_eq!(default_log_level(), "info");
    assert_eq!(default_route_discovery_timeout_ms(), 2_000);
    assert_eq!(default_route_discovery_max_retries(), 3);
    assert_eq!(default_max_rreq_hops(), 64);
    assert_eq!(default_seen_request_ttl_ms(), 60_000);
    assert_eq!(default_seen_request_max_entries(), 10_000);
    assert!(default_strict_protocol_mode());
}

#[test]
fn config_needs_a_node_id() {
    let res = node_config_from_args(Topology::chain(4, 7000), None, None, None, None, None, 0);
    assert!(matches!(res, Err(ConfigError::MissingNodeId)));
}

#[test]
fn config_needs_a_bind_address() {
    let res = node_config_from_args(Topology::chain(4, 7000), Some(9), None, None, None, None, 0);
    assert!(matches!(res, Err(ConfigError::UnknownBindAddress)));
}

#[test]
fn config_binds_to_the_topology_endpoint_by_default() {
    let cfg = node_config_from_args(Topology::chain(4, 7000), Some(2), None, None, None, None, 0)
        .unwrap();
    assert_eq!(cfg.node_id, 2);
    assert_eq!(cfg.bind_addr.as_str(), "127.0.0.1:7002");
    assert_eq!(cfg.protocol_mode, ProtocolMode::DlDsr);
    assert_eq!(cfg.hello_interval_ms, 800);
    assert_eq!(cfg.max_rreq_hops, 64);
    assert!(cfg.demo_send.is_none());
    assert!(cfg.metrics_output_path.is_none());
    assert!(cfg.control_bind_addr.is_none());
    assert_eq!(cfg.topology.nodes.len(), 4);
}

#[test]
fn config_takes_explicit_values() {
    let cfg = node_config_from_args(
        Topology::chain(4, 7000),
        Some(0),
        Some(Endpoint::new("0.0.0.0:7000".to_string())),
        Some(ProtocolMode::Dsr),
        Some(3),
        None,
        250,
    )
    .unwrap();
    assert_eq!(cfg.bind_addr.as_str(), "0.0.0.0:7000");
    assert_eq!(cfg.protocol_mode, ProtocolMode::Dsr);
    let demo = cfg.demo_send.unwrap();
    assert_eq!(demo.dst_node_id, 3);
    assert_eq!(demo.payload, "hello from dl-dsr-rs");
    assert_eq!(demo.start_after_ms, 250);
}

#[test]
fn config_keeps_a_given_payload() {
    let cfg = node_config_from_args(
        Topology::chain(2, 7000),
        Some(1),
        None,
        None,
        Some(0),
        Some("ping".to_string()),
        5,
    )
    .unwrap();
    assert_eq!(cfg.demo_send.unwrap().payload, "ping");
}
