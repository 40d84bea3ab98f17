use dldsr::clock::now_millis;
use dldsr::packet::{Packet, ProtocolMode};
use dldsr::protocol::{ProtocolCommand, ProtocolEvent, ProtocolState};
use dldsr::topology::{Endpoint, NodeConfig, Topology, TopologyNode};

fn addr(port: u16) -> Endpoint {
    Endpoint::new(format!("127.0.0.1:{port}"))
}

fn chain_config(node_id: u32, mode: ProtocolMode) -> NodeConfig {
    NodeConfig {
        node_id,
        bind_addr: addr(7000 + node_id as u16),
        protocol_mode: mode,
        hello_interval_ms: 200,
        route_cache_ttl_ms: 30_000,
        neighbor_ttl_ms: 5_000,
        log_level: "info".to_string(),
        topology: Topology {
            nodes: vec![
                TopologyNode {
                    node_id: 0,
                    endpoint: addr(7000),
                    neighbors: vec![1],
                },
                TopologyNode {
                    node_id: 1,
                    endpoint: addr(7001),
                    neighbors: vec![0, 2],
                },
                TopologyNode {
                    node_id: 2,
                    endpoint: addr(7002),
                    neighbors: vec![1, 3],
                },
                TopologyNode {
                    node_id: 3,
                    endpoint: addr(7003),
                    neighbors: vec![2],
                },
            ],
        },
        demo_send: None,
        route_discovery_timeout_ms: 10,
        route_discovery_max_retries: 1,
        max_rreq_hops: 4,
        seen_request_ttl_ms: 60_000,
        seen_request_max_entries: 10_000,
        metrics_output_path: None,
        control_bind_addr: None,
        strict_protocol_mode: true,
    }
}

fn rreq(hop_count: u8) -> Packet {
    Packet::Rreq {
        src_node_id: 0,
        dst_node_id: 3,
        request_id: 77,
        previous_hop: 0,
        hop_count,
        dsr_path: vec![0],
        dldsr_label_path: Vec::new(),
        trace_path: vec![0],
        created_at_millis: now_millis(),
    }
}

#[test]
fn duplicate_rreq_is_dropped_and_counted() {
    let mut state = ProtocolState::new(chain_config(1, ProtocolMode::Dsr));
    let first = state.handle_packet(rreq(0), addr(7000));
    let second = state.handle_packet(rreq(0), addr(7000));

    assert_eq!(first.outbound.len(), 1);
    assert!(second.outbound.is_empty());
    assert_eq!(state.metrics.rreq_dropped_duplicate, 1);
}

#[test]
fn rreq_ttl_drop_is_counted() {
    let mut state = ProtocolState::new(chain_config(1, ProtocolMode::Dsr));
    let actions = state.handle_packet(rreq(4), addr(7000));

    assert!(actions.outbound.is_empty());
    assert_eq!(state.metrics.rreq_dropped_ttl, 1);
}

#[test]
fn missing_dldsr_label_drops_data() {
    let mut state = ProtocolState::new(chain_config(1, ProtocolMode::DlDsr));
    let actions = state.handle_packet(
        Packet::Data {
            src_node_id: 0,
            dst_node_id: 3,
            sequence: 1,
            protocol_mode: ProtocolMode::DlDsr,
            route_cursor: 0,
            dsr_path: vec![0, 1, 2, 3],
            dldsr_label_path: vec![99],
            payload: b"bad label".to_vec(),
            created_at_millis: now_millis(),
        },
        addr(7000),
    );

    assert!(actions.outbound.is_empty());
    assert!(matches!(
        actions.events.first(),
        Some(ProtocolEvent::DataDropped { .. })
    ));
    assert_eq!(state.metrics.data_dropped, 1);
}

#[test]
fn invalid_rrep_trace_is_dropped() {
    let mut state = ProtocolState::new(chain_config(1, ProtocolMode::Dsr));
    let actions = state.handle_packet(
        Packet::Rrep {
            src_node_id: 0,
            dst_node_id: 3,
            request_id: 7,
            dsr_path: vec![0, 1, 2, 3],
            dldsr_label_path: Vec::new(),
            trace_path: vec![0, 3],
            created_at_millis: now_millis(),
        },
        addr(7002),
    );

    assert!(actions.outbound.is_empty());
    assert_eq!(state.metrics.rrep_dropped_invalid, 1);
}

#[test]
fn route_discovery_failure_drops_pending_payload() {
    let mut state = ProtocolState::new(chain_config(0, ProtocolMode::Dsr));
    let start = state.handle_command(ProtocolCommand::DiscoverAndSend {
        dst_node_id: 99,
        payload: b"unreachable".to_vec(),
    });
    assert_eq!(start.outbound.len(), 1);

    let retry = state.handle_tick(now_millis() + 20);
    assert_eq!(retry.outbound.len(), 1);

    let failed = state.handle_tick(now_millis() + 40);
    assert!(failed
        .events
        .iter()
        .any(|event| matches!(event, ProtocolEvent::RouteDiscoveryFailed { .. })));
    assert_eq!(state.metrics.route_discovery_failures, 1);
    assert_eq!(state.metrics.data_dropped, 1);
}
