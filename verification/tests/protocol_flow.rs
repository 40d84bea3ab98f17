use dldsr::clock::{millis_from_reading, now_millis};
use dldsr::config::node_config_from_args;
use dldsr::packet::{Packet, ProtocolMode};
use dldsr::protocol::{previous_in_trace, ProtocolCommand, ProtocolEvent, ProtocolState};
use dldsr::topology::{Endpoint, Topology};

fn addr(port: u16) -> Endpoint {
    Endpoint::loopback(port)
}

fn node(node_id: u32, mode: ProtocolMode) -> ProtocolState {
    let config = node_config_from_args(
        Topology::chain(4, 7000),
        Some(node_id),
        None,
        Some(mode),
        None,
        None,
        0,
    )
    .unwrap();
    ProtocolState::new(config)
}

fn hello_reply(src: u32, dst: u32, label: u8) -> Packet {
    Packet::HelloReply {
        src_node_id: src,
        dst_node_id: dst,
        assigned_label: label,
        update_flag: true,
        timestamp_millis: 5,
    }
}

#[test]
fn hello_from_neighbor_is_answered_with_its_label() {
    let mut state = node(1, ProtocolMode::DlDsr);
    let a = state.handle_packet_at(
        Packet::Hello {
            src_node_id: 0,
            timestamp_millis: 3,
        },
        addr(7000),
        10,
    );
    assert_eq!(a.outbound.len(), 1);
    assert_eq!(a.outbound[0].dst.as_str(), "127.0.0.1:7000");
    match &a.outbound[0].packet {
        Packet::HelloReply {
            src_node_id,
            dst_node_id,
            assigned_label,
            update_flag,
            timestamp_millis,
        } => {
            assert_eq!(*src_node_id, 1);
            assert_eq!(*dst_node_id, 0);
            assert_eq!(*assigned_label, 1);
            assert!(*update_flag);
            assert_eq!(*timestamp_millis, 10);
        }
        other => panic!("unexpected packet {other:?}"),
    }
    assert_eq!(state.neighbors.get(0).unwrap().label_assigned_by_me_to_neighbor, 1);

    let b = state.handle_packet_at(
        Packet::Hello {
            src_node_id: 2,
            timestamp_millis: 3,
        },
        addr(7002),
        11,
    );
    assert!(matches!(
        b.outbound[0].packet,
        Packet::HelloReply {
            assigned_label: 2,
            ..
        }
    ));
    let again = state.handle_packet_at(
        Packet::Hello {
            src_node_id: 0,
            timestamp_millis: 4,
        },
        addr(7000),
        12,
    );
    assert!(matches!(
        again.outbound[0].packet,
        Packet::HelloReply {
            assigned_label: 1,
            ..
        }
    ));
}

#[test]
fn hello_from_non_neighbor_is_ignored() {
    let mut state = node(1, ProtocolMode::DlDsr);
    let a = state.handle_packet_at(
        Packet::Hello {
            src_node_id: 3,
            timestamp_millis: 3,
        },
        addr(7003),
        10,
    );
    assert!(a.outbound.is_empty());
    assert!(a.events.is_empty());
    assert!(state.neighbors.get(3).is_none());
}

#[test]
fn hello_reply_records_the_label_for_this_node() {
    let mut state = node(1, ProtocolMode::DlDsr);
    state.handle_packet_at(hello_reply(0, 1, 4), addr(7000), 10);
    assert_eq!(state.labels.label_assigned_by_neighbor(0), Some(4));
    state.handle_packet_at(hello_reply(2, 3, 9), addr(7002), 10);
    assert_eq!(state.labels.label_assigned_by_neighbor(2), None);
    state.handle_packet_at(hello_reply(3, 1, 9), addr(7003), 10);
    assert_eq!(state.labels.label_assigned_by_neighbor(3), None);
}

#[test]
fn intermediate_node_floods_rreq_to_other_neighbors() {
    let mut state = node(1, ProtocolMode::Dsr);
    let a = state.handle_packet_at(
        Packet::Rreq {
            src_node_id: 0,
            dst_node_id: 3,
            request_id: 5,
            previous_hop: 0,
            hop_count: 0,
            dsr_path: vec![0],
            dldsr_label_path: Vec::new(),
            trace_path: vec![0],
            created_at_millis: 1,
        },
        addr(7000),
        10,
    );
    assert_eq!(a.outbound.len(), 1);
    assert_eq!(a.outbound[0].dst.as_str(), "127.0.0.1:7002");
    match &a.outbound[0].packet {
        Packet::Rreq {
            previous_hop,
            hop_count,
            dsr_path,
            trace_path,
            dldsr_label_path,
            request_id,
            ..
        } => {
            assert_eq!(*previous_hop, 1);
            assert_eq!(*hop_count, 1);
            assert_eq!(*dsr_path, vec![0, 1]);
            assert_eq!(*trace_path, vec![0, 1]);
            assert!(dldsr_label_path.is_empty());
            assert_eq!(*request_id, 5);
        }
        other => panic!("unexpected packet {other:?}"),
    }
    assert_eq!(state.metrics.rreq_forwarded, 1);
}

#[test]
fn destination_answers_rreq_with_rrep_back_along_the_trace() {
    let mut state = node(3, ProtocolMode::Dsr);
    let a = state.handle_packet_at(
        Packet::Rreq {
            src_node_id: 0,
            dst_node_id: 3,
            request_id: 5,
            previous_hop: 2,
            hop_count: 2,
            dsr_path: vec![0, 1, 2],
            dldsr_label_path: Vec::new(),
            trace_path: vec![0, 1, 2],
            created_at_millis: 1,
        },
        addr(7002),
        10,
    );
    assert_eq!(a.outbound.len(), 1);
    assert_eq!(a.outbound[0].dst.as_str(), "127.0.0.1:7002");
    match &a.outbound[0].packet {
        Packet::Rrep {
            src_node_id,
            dst_node_id,
            dsr_path,
            trace_path,
            ..
        } => {
            assert_eq!(*src_node_id, 0);
            assert_eq!(*dst_node_id, 3);
            assert_eq!(*dsr_path, vec![0, 1, 2, 3]);
            assert_eq!(*trace_path, vec![0, 1, 2, 3]);
        }
        other => panic!("unexpected packet {other:?}"),
    }
}

#[test]
fn dldsr_rreq_collects_labels_assigned_to_each_hop() {
    let mut state = node(1, ProtocolMode::DlDsr);
    let rreq = |rid: u64| Packet::Rreq {
        src_node_id: 0,
        dst_node_id: 3,
        request_id: rid,
        previous_hop: 0,
        hop_count: 0,
        dsr_path: vec![0],
        dldsr_label_path: Vec::new(),
        trace_path: vec![0],
        created_at_millis: 1,
    };
    let dropped = state.handle_packet_at(rreq(1), addr(7000), 10);
    assert!(dropped.outbound.is_empty());
    assert_eq!(state.metrics.dropped_packets, 1);

    state.handle_packet_at(hello_reply(0, 1, 7), addr(7000), 11);
    let fwd = state.handle_packet_at(rreq(2), addr(7000), 12);
    assert_eq!(fwd.outbound.len(), 1);
    match &fwd.outbound[0].packet {
        Packet::Rreq {
            dldsr_label_path, ..
        } => assert_eq!(*dldsr_label_path, vec![7]),
        other => panic!("unexpected packet {other:?}"),
    }
}

#[test]
fn originator_caches_route_from_rrep_and_sends_queued_payload() {
    let mut state = node(0, ProtocolMode::Dsr);
    let start = state.handle_command_at(
        ProtocolCommand::DiscoverAndSend {
            dst_node_id: 3,
            payload: b"hi".to_vec(),
        },
        1_000,
    );
    assert_eq!(start.outbound.len(), 1);
    assert_eq!(start.outbound[0].dst.as_str(), "127.0.0.1:7001");
    assert_eq!(state.metrics.route_discovery_attempts, 1);

    let again = state.handle_command_at(
        ProtocolCommand::DiscoverAndSend {
            dst_node_id: 3,
            payload: b"queued".to_vec(),
        },
        1_001,
    );
    assert!(again.outbound.is_empty());

    let reply = state.handle_packet_at(
        Packet::Rrep {
            src_node_id: 0,
            dst_node_id: 3,
            request_id: 1,
            dsr_path: vec![0, 1, 2, 3],
            dldsr_label_path: Vec::new(),
            trace_path: vec![0, 1, 2, 3],
            created_at_millis: 1_000,
        },
        addr(7001),
        1_010,
    );
    assert!(matches!(
        reply.events[0],
        ProtocolEvent::RouteCached {
            node_id: 0,
            dst_node_id: 3,
            request_id: 1
        }
    ));
    assert_eq!(reply.outbound.len(), 2);
    match &reply.outbound[0].packet {
        Packet::Data {
            sequence,
            route_cursor,
            dsr_path,
            payload,
            created_at_millis,
            ..
        } => {
            assert_eq!(*sequence, 1);
            assert_eq!(*route_cursor, 1);
            assert_eq!(*dsr_path, vec![0, 1, 2, 3]);
            assert_eq!(payload.as_slice(), b"hi");
            assert_eq!(*created_at_millis, 1_010);
        }
        other => panic!("unexpected packet {other:?}"),
    }
    assert_eq!(state.metrics.route_discovery_successes, 1);
    assert_eq!(state.routes.shortest(3, 1_010).unwrap().hop_count(), 4);

    let direct = state.handle_command_at(
        ProtocolCommand::DiscoverAndSend {
            dst_node_id: 3,
            payload: b"later".to_vec(),
        },
        1_020,
    );
    assert_eq!(direct.outbound.len(), 1);
    assert!(matches!(
        direct.outbound[0].packet,
        Packet::Data { sequence: 3, .. }
    ));
}

#[test]
fn intermediate_node_forwards_rrep_toward_originator() {
    let mut state = node(1, ProtocolMode::Dsr);
    let a = state.handle_packet_at(
        Packet::Rrep {
            src_node_id: 0,
            dst_node_id: 3,
            request_id: 1,
            dsr_path: vec![0, 1, 2, 3],
            dldsr_label_path: Vec::new(),
            trace_path: vec![0, 1, 2, 3],
            created_at_millis: 1,
        },
        addr(7002),
        10,
    );
    assert_eq!(a.outbound.len(), 1);
    assert_eq!(a.outbound[0].dst.as_str(), "127.0.0.1:7000");
    assert_eq!(state.metrics.rrep_forwarded, 1);
}

#[test]
fn destination_delivers_data_and_records_latency() {
    let mut state = node(3, ProtocolMode::Dsr);
    let a = state.handle_packet_at(
        Packet::Data {
            src_node_id: 0,
            dst_node_id: 3,
            sequence: 1,
            protocol_mode: ProtocolMode::Dsr,
            route_cursor: 3,
            dsr_path: vec![0, 1, 2, 3],
            dldsr_label_path: Vec::new(),
            payload: b"x".to_vec(),
            created_at_millis: 100,
        },
        addr(7002),
        150,
    );
    assert!(a.outbound.is_empty());
    match &a.events[0] {
        ProtocolEvent::DataDelivered {
            node_id,
            src_node_id,
            sequence,
            payload,
            ..
        } => {
            assert_eq!(*node_id, 3);
            assert_eq!(*src_node_id, 0);
            assert_eq!(*sequence, 1);
            assert_eq!(payload.as_slice(), b"x");
        }
        other => panic!("unexpected event {other:?}"),
    }
    assert_eq!(state.metrics.data_delivered, 1);
    assert_eq!(state.metrics.delivered_packets, 1);
    assert_eq!(state.metrics.latency_samples_ms, vec![50]);
}

#[test]
fn intermediate_node_forwards_dsr_data_to_next_hop() {
    let mut state = node(1, ProtocolMode::Dsr);
    let a = state.handle_packet_at(
        Packet::Data {
            src_node_id: 0,
            dst_node_id: 3,
            sequence: 1,
            protocol_mode: ProtocolMode::Dsr,
            route_cursor: 1,
            dsr_path: vec![0, 1, 2, 3],
            dldsr_label_path: Vec::new(),
            payload: b"x".to_vec(),
            created_at_millis: 100,
        },
        addr(7000),
        150,
    );
    assert_eq!(a.outbound.len(), 1);
    assert_eq!(a.outbound[0].dst.as_str(), "127.0.0.1:7002");
    assert!(matches!(
        a.outbound[0].packet,
        Packet::Data { route_cursor: 2, .. }
    ));
    assert_eq!(state.metrics.data_forwarded, 1);
}

#[test]
fn dldsr_data_follows_the_label_to_the_neighbor() {
    let mut state = node(1, ProtocolMode::DlDsr);
    state.handle_packet_at(
        Packet::Hello {
            src_node_id: 2,
            timestamp_millis: 1,
        },
        addr(7002),
        5,
    );
    let a = state.handle_packet_at(
        Packet::Data {
            src_node_id: 0,
            dst_node_id: 3,
            sequence: 1,
            protocol_mode: ProtocolMode::DlDsr,
            route_cursor: 0,
            dsr_path: Vec::new(),
            dldsr_label_path: vec![1, 5],
            payload: b"x".to_vec(),
            created_at_millis: 100,
        },
        addr(7000),
        150,
    );
    assert_eq!(a.outbound.len(), 1);
    assert_eq!(a.outbound[0].dst.as_str(), "127.0.0.1:7002");
    assert!(matches!(
        a.outbound[0].packet,
        Packet::Data { route_cursor: 1, .. }
    ));
}

#[test]
fn strict_node_drops_data_of_the_other_mode() {
    let mut state = node(1, ProtocolMode::Dsr);
    let a = state.handle_packet_at(
        Packet::Data {
            src_node_id: 0,
            dst_node_id: 3,
            sequence: 1,
            protocol_mode: ProtocolMode::DlDsr,
            route_cursor: 0,
            dsr_path: Vec::new(),
            dldsr_label_path: vec![1],
            payload: Vec::new(),
            created_at_millis: 0,
        },
        addr(7000),
        1,
    );
    assert!(a.outbound.is_empty());
    match &a.events[0] {
        ProtocolEvent::DataDropped { reason, .. } => {
            assert_eq!(reason, "protocol mode mismatch: packet=dldsr, node=dsr")
        }
        other => panic!("unexpected event {other:?}"),
    }
    assert!(matches!(a.events[1], ProtocolEvent::RouteError { .. }));
    assert_eq!(state.metrics.dropped_packets, 1);
    assert_eq!(state.metrics.data_dropped, 1);
}

#[test]
fn hellos_go_to_every_logical_neighbor() {
    let state = node(1, ProtocolMode::DlDsr);
    let a = state.send_hellos(42);
    assert_eq!(a.outbound.len(), 2);
    assert_eq!(a.outbound[0].dst.as_str(), "127.0.0.1:7000");
    assert_eq!(a.outbound[1].dst.as_str(), "127.0.0.1:7002");
    assert!(matches!(
        a.outbound[0].packet,
        Packet::Hello {
            src_node_id: 1,
            timestamp_millis: 42
        }
    ));
    assert_eq!(state.logical_neighbors(), vec![0, 2]);
}

#[test]
fn ack_and_error_packets_change_nothing() {
    let mut state = node(1, ProtocolMode::Dsr);
    let a = state.handle_packet_at(
        Packet::Ack {
            src_node_id: 0,
            dst_node_id: 1,
            sequence: 1,
        },
        addr(7000),
        1,
    );
    assert!(a.outbound.is_empty() && a.events.is_empty());
    let b = state.handle_packet_at(
        Packet::Error {
            src_node_id: 0,
            dst_node_id: 1,
            message: "x".to_string(),
        },
        addr(7000),
        1,
    );
    assert!(b.outbound.is_empty() && b.events.is_empty());
}

#[test]
fn sent_and_received_packets_are_counted() {
    let mut state = node(1, ProtocolMode::Dsr);
    state.record_tx(&Packet::Hello {
        src_node_id: 1,
        timestamp_millis: 0,
    });
    state.record_rx(30);
    state.record_send_failure();
    assert_eq!(state.metrics().tx_bytes, 16);
    assert_eq!(state.metrics().control_bytes, 16);
    assert_eq!(state.metrics().rx_bytes, 30);
    assert_eq!(state.metrics().dropped_packets, 1);
}

#[test]
fn previous_trace_entry() {
    assert_eq!(previous_in_trace(&[0, 1, 2, 3], 2), Some(1));
    assert_eq!(previous_in_trace(&[0, 1], 0), None);
    assert_eq!(previous_in_trace(&[0], 5), None);
    assert_eq!(previous_in_trace(&[4, 2, 4, 2], 2), Some(4));
}

#[test]
fn clock_reads_milliseconds_since_the_epoch() {
    let a = now_millis();
    assert!(a > 1_600_000_000_000);
    assert!(now_millis() >= a);
}

#[test]
fn failed_discovery_is_forgotten_and_can_start_again() {
    let mut state = node(0, ProtocolMode::Dsr);
    let start = state.handle_command_at(
        ProtocolCommand::DiscoverAndSend {
            dst_node_id: 99,
            payload: b"a".to_vec(),
        },
        0,
    );
    assert_eq!(start.outbound.len(), 1);
    state.handle_command_at(
        ProtocolCommand::DiscoverAndSend {
            dst_node_id: 99,
            payload: b"b".to_vec(),
        },
        1,
    );
    let mut failed = None;
    let mut t = 0;
    for _ in 0..4 {
        t += 2_000;
        let a = state.handle_tick_at(t, t);
        if a.events.iter().any(|e| matches!(e, ProtocolEvent::RouteDiscoveryFailed { .. })) {
            failed = Some(a);
            break;
        }
        assert_eq!(a.outbound.len(), 1);
    }
    let failed = failed.unwrap();
    assert!(failed.outbound.is_empty());
    assert!(matches!(
        failed.events[0],
        ProtocolEvent::RouteDiscoveryFailed {
            node_id: 0,
            dst_node_id: 99,
            attempts: 4
        }
    ));
    assert!(matches!(failed.events[1], ProtocolEvent::DataDropped { .. }));
    assert_eq!(state.metrics.data_dropped, 2);
    assert_eq!(state.metrics.route_discovery_failures, 1);

    let again = state.handle_command_at(
        ProtocolCommand::DiscoverAndSend {
            dst_node_id: 99,
            payload: b"c".to_vec(),
        },
        t + 1,
    );
    assert_eq!(again.outbound.len(), 1);
}

#[test]
fn second_hello_reply_goes_to_the_same_neighbor_with_the_same_label() {
    let mut state = node(2, ProtocolMode::DlDsr);
    let hello = |src: u32| Packet::Hello {
        src_node_id: src,
        timestamp_millis: 0,
    };
    state.handle_packet_at(hello(3), addr(7003), 1);
    state.handle_packet_at(hello(1), addr(7001), 2);
    let again = state.handle_packet_at(hello(3), addr(7003), 3);
    match &again.outbound[0].packet {
        Packet::HelloReply {
            dst_node_id,
            assigned_label,
            ..
        } => {
            assert_eq!(*dst_node_id, 3);
            assert_eq!(*assigned_label, 1);
            assert_eq!(
                state.neighbors.get(3).unwrap().label_assigned_by_me_to_neighbor,
                1
            );
        }
        other => panic!("unexpected packet {other:?}"),
    }
}

#[test]
fn handling_events_leaves_traffic_counters_to_send_and_receive() {
    let mut state = node(1, ProtocolMode::Dsr);
    state.record_tx(&Packet::Ack {
        src_node_id: 1,
        dst_node_id: 0,
        sequence: 1,
    });
    state.handle_packet_at(
        Packet::Hello {
            src_node_id: 0,
            timestamp_millis: 1,
        },
        addr(7000),
        1,
    );
    state.handle_command_at(
        ProtocolCommand::DiscoverAndSend {
            dst_node_id: 3,
            payload: b"p".to_vec(),
        },
        2,
    );
    state.handle_tick(10_000);
    let m = state.metrics();
    assert_eq!(m.tx_packets, 1);
    assert_eq!(m.tx_bytes, 20);
    assert_eq!(m.data_bytes, 20);
    assert_eq!(m.control_bytes, 0);
    assert_eq!(m.rx_packets, 0);
    assert_eq!(m.rx_bytes, 0);
}

#[test]
fn rrep_from_the_wrong_side_of_the_trace_is_refused() {
    let mut state = node(1, ProtocolMode::Dsr);
    let a = state.handle_packet_at(
        Packet::Rrep {
            src_node_id: 0,
            dst_node_id: 3,
            request_id: 1,
            dsr_path: vec![0, 1, 2, 3],
            dldsr_label_path: Vec::new(),
            trace_path: vec![0, 1, 2, 3],
            created_at_millis: 1,
        },
        addr(7000),
        10,
    );
    assert!(a.outbound.is_empty());
    match &a.events[0] {
        ProtocolEvent::RouteError {
            node_id,
            dst_node_id,
            reason,
        } => {
            assert_eq!(*node_id, 1);
            assert_eq!(*dst_node_id, 3);
            assert_eq!(reason, "RREP sender node 0 does not match trace hop 2");
        }
        other => panic!("unexpected event {other:?}"),
    }
    assert_eq!(state.metrics.rrep_dropped_invalid, 1);
    assert_eq!(state.metrics.rrep_forwarded, 0);

    let unknown = state.handle_packet_at(
        Packet::Rrep {
            src_node_id: 0,
            dst_node_id: 3,
            request_id: 1,
            dsr_path: vec![0, 1, 2, 3],
            dldsr_label_path: Vec::new(),
            trace_path: vec![0, 1, 2, 3],
            created_at_millis: 1,
        },
        addr(9999),
        11,
    );
    match &unknown.events[0] {
        ProtocolEvent::RouteError { reason, .. } => {
            assert_eq!(reason, "RREP sender endpoint 127.0.0.1:9999 is unknown")
        }
        other => panic!("unexpected event {other:?}"),
    }
}

#[test]
fn hello_is_answered_at_the_topology_endpoint_whatever_its_source_address() {
    let mut state = node(1, ProtocolMode::DlDsr);
    let a = state.handle_packet_at(
        Packet::Hello {
            src_node_id: 0,
            timestamp_millis: 3,
        },
        addr(7009),
        10,
    );
    assert_eq!(a.outbound.len(), 1);
    assert_eq!(a.outbound[0].dst.as_str(), "127.0.0.1:7000");
    assert!(matches!(
        a.outbound[0].packet,
        Packet::HelloReply {
            dst_node_id: 0,
            assigned_label: 1,
            ..
        }
    ));
    let entry = state.neighbors.get(0).unwrap();
    assert_eq!(entry.endpoint.as_str(), "127.0.0.1:7000");
    assert_eq!(entry.label_assigned_by_me_to_neighbor, 1);

    let again = state.handle_packet_at(
        Packet::Hello {
            src_node_id: 0,
            timestamp_millis: 4,
        },
        addr(7000),
        11,
    );
    assert!(matches!(
        again.outbound[0].packet,
        Packet::HelloReply {
            assigned_label: 1,
            ..
        }
    ));
    assert_eq!(again.outbound[0].dst.as_str(), "127.0.0.1:7000");
}

#[test]
fn retried_discovery_is_stamped_with_the_retry_time() {
    let mut state = node(0, ProtocolMode::Dsr);
    state.handle_command_at(
        ProtocolCommand::DiscoverAndSend {
            dst_node_id: 3,
            payload: b"p".to_vec(),
        },
        0,
    );
    let first = state.handle_tick_at(2_000, 2_500);
    assert_eq!(first.outbound.len(), 1);
    assert!(matches!(
        first.outbound[0].packet,
        Packet::Rreq {
            created_at_millis: 2_500,
            request_id: 2,
            ..
        }
    ));
    let early = state.handle_tick_at(4_000, 4_000);
    assert!(early.outbound.is_empty());
    let due = state.handle_tick_at(4_500, 4_500);
    assert_eq!(due.outbound.len(), 1);
}

#[test]
fn clock_tick_restamps_retries_with_the_current_time() {
    let mut state = node(0, ProtocolMode::Dsr);
    state.handle_command_at(
        ProtocolCommand::DiscoverAndSend {
            dst_node_id: 3,
            payload: b"p".to_vec(),
        },
        0,
    );
    let before = now_millis();
    let retry = state.handle_tick(2_000);
    assert_eq!(retry.outbound.len(), 1);
    match &retry.outbound[0].packet {
        Packet::Rreq {
            created_at_millis, ..
        } => assert!(*created_at_millis >= before),
        other => panic!("unexpected packet {other:?}"),
    }
}

#[test]
fn clock_readings_become_64_bit_millisecond_counts() {
    assert_eq!(millis_from_reading(None), 0);
    assert_eq!(millis_from_reading(Some(1_700_000_000_123)), 1_700_000_000_123);
    assert_eq!(millis_from_reading(Some(u64::MAX as u128)), u64::MAX);
    assert_eq!(millis_from_reading(Some((1u128 << 64) + 5)), 5);
}
