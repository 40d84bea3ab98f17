use dldsr::config::ConfigError;
use dldsr::error::DldsrError;
use dldsr::packet::{path_header_bytes, Packet, ProtocolMode};
use dldsr::protocol::is_control_packet;

#[test]
fn hello_and_reply_have_fixed_wire_sizes() {
    let hello = Packet::Hello {
        src_node_id: 1,
        timestamp_millis: 2,
    };
    assert_eq!(hello.encoded_len().unwrap(), 16);
    let reply = Packet::HelloReply {
        src_node_id: 1,
        dst_node_id: 2,
        assigned_label: 3,
        update_flag: true,
        timestamp_millis: 4,
    };
    assert_eq!(reply.encoded_len().unwrap(), 22);
    let ack = Packet::Ack {
        src_node_id: 1,
        dst_node_id: 2,
        sequence: 3,
    };
    assert_eq!(ack.encoded_len().unwrap(), 20);
}

#[test]
fn route_packets_grow_with_their_paths() {
    let rreq = Packet::Rreq {
        src_node_id: 0,
        dst_node_id: 3,
        request_id: 77,
        previous_hop: 0,
        hop_count: 0,
        dsr_path: vec![0],
        dldsr_label_path: Vec::new(),
        trace_path: vec![0],
        created_at_millis: 5,
    };
    assert_eq!(rreq.encoded_len().unwrap(), 65);
    let rrep = Packet::Rrep {
        src_node_id: 0,
        dst_node_id: 3,
        request_id: 7,
        dsr_path: vec![0, 1, 2, 3],
        dldsr_label_path: vec![1, 2, 3],
        trace_path: vec![0, 1, 2, 3],
        created_at_millis: 5,
    };
    assert_eq!(rrep.encoded_len().unwrap(), 52 + 16 + 3 + 16);
}

#[test]
fn data_and_error_sizes_count_payload_bytes() {
    let data = Packet::Data {
        src_node_id: 0,
        dst_node_id: 3,
        sequence: 1,
        protocol_mode: ProtocolMode::DlDsr,
        route_cursor: 0,
        dsr_path: vec![0, 1, 2, 3],
        dldsr_label_path: vec![99],
        payload: b"bad label".to_vec(),
        created_at_millis: 5,
    };
    assert_eq!(data.encoded_len().unwrap(), 90);
    let error = Packet::Error {
        src_node_id: 1,
        dst_node_id: 2,
        message: "h\u{e9}llo".to_string(),
    };
    assert_eq!(error.encoded_len().unwrap(), 26);
}

#[test]
fn control_packets_are_hello_reply_rreq_and_rrep() {
    assert!(is_control_packet(&Packet::Hello {
        src_node_id: 1,
        timestamp_millis: 2
    }));
    assert!(is_control_packet(&Packet::Rrep {
        src_node_id: 0,
        dst_node_id: 3,
        request_id: 1,
        dsr_path: Vec::new(),
        dldsr_label_path: Vec::new(),
        trace_path: Vec::new(),
        created_at_millis: 0
    }));
    assert!(!is_control_packet(&Packet::Ack {
        src_node_id: 1,
        dst_node_id: 2,
        sequence: 3
    }));
    assert!(!is_control_packet(&Packet::Data {
        src_node_id: 0,
        dst_node_id: 1,
        sequence: 1,
        protocol_mode: ProtocolMode::Dsr,
        route_cursor: 1,
        dsr_path: vec![0, 1],
        dldsr_label_path: Vec::new(),
        payload: Vec::new(),
        created_at_millis: 0,
    }));
}

#[test]
fn header_bytes_are_four_per_hop_for_dsr_and_one_for_dldsr() {
    assert_eq!(path_header_bytes(ProtocolMode::Dsr, 8), 32);
    assert_eq!(path_header_bytes(ProtocolMode::DlDsr, 8), 8);
    assert_eq!(path_header_bytes(ProtocolMode::Dsr, 0), 0);
    assert_eq!(path_header_bytes(ProtocolMode::DlDsr, 0), 0);
}

#[test]
fn protocol_mode_names_parse_ignoring_case() {
    assert_eq!(ProtocolMode::parse("dsr"), Ok(ProtocolMode::Dsr));
    assert_eq!(ProtocolMode::parse("DSR"), Ok(ProtocolMode::Dsr));
    assert_eq!(ProtocolMode::parse("dldsr"), Ok(ProtocolMode::DlDsr));
    assert_eq!(ProtocolMode::parse("Dl-DSR"), Ok(ProtocolMode::DlDsr));
    assert_eq!("DlDsr".parse::<ProtocolMode>(), Ok(ProtocolMode::DlDsr));
}

#[test]
fn unknown_protocol_mode_is_reported_lowercased() {
    assert_eq!(
        ProtocolMode::parse("AODV"),
        Err("unknown protocol mode: aodv".to_string())
    );
    assert_eq!(
        ProtocolMode::parse(""),
        Err("unknown protocol mode: ".to_string())
    );
}

#[test]
fn protocol_mode_names() {
    assert_eq!(ProtocolMode::Dsr.name(), "dsr");
    assert_eq!(ProtocolMode::DlDsr.name(), "dldsr");
}

#[test]
fn error_messages() {
    assert_eq!(
        DldsrError::LabelSpaceExhausted.message(),
        "no labels are available for active neighbor table"
    );
    assert_eq!(
        DldsrError::RouteNotFound(42).message(),
        "route not found for destination 42"
    );
    assert_eq!(
        DldsrError::RouteNotFound(0).message(),
        "route not found for destination 0"
    );
    assert_eq!(
        DldsrError::UnknownLabel(255).message(),
        "label 255 does not map to a known neighbor"
    );
    assert_eq!(
        DldsrError::Codec("truncated".to_string()).message(),
        "packet codec failed: truncated"
    );
}

#[test]
fn config_error_messages() {
    assert_eq!(
        ConfigError::MissingNodeId.message(),
        "--node-id is required when --config is omitted"
    );
    assert_eq!(
        ConfigError::UnknownBindAddress.message(),
        "bind address not supplied and node id not found in topology"
    );
}
