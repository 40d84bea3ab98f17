use dldsr::packet::{Packet, ProtocolMode};
use serde::ser::{Serialize, SerializeStructVariant, Serializer};

/// A packet serialised field by field, in declaration order, as serde's
/// derive lays out an enum of struct variants.
struct Wire<'a>(&'a Packet);

struct Mode(ProtocolMode);

impl Serialize for Mode {
    fn serialize<S: Serializer>(&self, s: S) -> Result<S::Ok, S::Error> {
        match self.0 {
            ProtocolMode::Dsr => s.serialize_unit_variant("ProtocolMode", 0, "Dsr"),
            ProtocolMode::DlDsr => s.serialize_unit_variant("ProtocolMode", 1, "DlDsr"),
        }
    }
}

impl<'a> Serialize for Wire<'a> {
    fn serialize<S: Serializer>(&self, s: S) -> Result<S::Ok, S::Error> {
        match self.0 {
            Packet::Hello {
                src_node_id,
                timestamp_millis,
            } => {
                let mut v = s.serialize_struct_variant("Packet", 0, "Hello", 2)?;
                v.serialize_field("src_node_id", src_node_id)?;
                v.serialize_field("timestamp_millis", timestamp_millis)?;
                v.end()
            }
            Packet::HelloReply {
                src_node_id,
                dst_node_id,
                assigned_label,
                update_flag,
                timestamp_millis,
            } => {
                let mut v = s.serialize_struct_variant("Packet", 1, "HelloReply", 5)?;
                v.serialize_field("src_node_id", src_node_id)?;
                v.serialize_field("dst_node_id", dst_node_id)?;
                v.serialize_field("assigned_label", assigned_label)?;
                v.serialize_field("update_flag", update_flag)?;
                v.serialize_field("timestamp_millis", timestamp_millis)?;
                v.end()
            }
            Packet::Rreq {
                src_node_id,
                dst_node_id,
                request_id,
                previous_hop,
                hop_count,
                dsr_path,
                dldsr_label_path,
                trace_path,
                created_at_millis,
            } => {
                let mut v = s.serialize_struct_variant("Packet", 2, "Rreq", 9)?;
                v.serialize_field("src_node_id", src_node_id)?;
                v.serialize_field("dst_node_id", dst_node_id)?;
                v.serialize_field("request_id", request_id)?;
                v.serialize_field("previous_hop", previous_hop)?;
                v.serialize_field("hop_count", hop_count)?;
                v.serialize_field("dsr_path", dsr_path)?;
                v.serialize_field("dldsr_label_path", dldsr_label_path)?;
                v.serialize_field("trace_path", trace_path)?;
                v.serialize_field("created_at_millis", created_at_millis)?;
                v.end()
            }
            Packet::Rrep {
                src_node_id,
                dst_node_id,
                request_id,
                dsr_path,
                dldsr_label_path,
                trace_path,
                created_at_millis,
            } => {
                let mut v = s.serialize_struct_variant("Packet", 3, "Rrep", 7)?;
                v.serialize_field("src_node_id", src_node_id)?;
                v.serialize_field("dst_node_id", dst_node_id)?;
                v.serialize_field("request_id", request_id)?;
                v.serialize_field("dsr_path", dsr_path)?;
                v.serialize_field("dldsr_label_path", dldsr_label_path)?;
                v.serialize_field("trace_path", trace_path)?;
                v.serialize_field("created_at_millis", created_at_millis)?;
                v.end()
            }
            Packet::Data {
                src_node_id,
                dst_node_id,
                sequence,
                protocol_mode,
                route_cursor,
                dsr_path,
                dldsr_label_path,
                payload,
                created_at_millis,
            } => {
                let mut v = s.serialize_struct_variant("Packet", 4, "Data", 9)?;
                v.serialize_field("src_node_id", src_node_id)?;
                v.serialize_field("dst_node_id", dst_node_id)?;
                v.serialize_field("sequence", sequence)?;
                v.serialize_field("protocol_mode", &Mode(*protocol_mode))?;
                v.serialize_field("route_cursor", route_cursor)?;
                v.serialize_field("dsr_path", dsr_path)?;
                v.serialize_field("dldsr_label_path", dldsr_label_path)?;
                v.serialize_field("payload", payload)?;
                v.serialize_field("created_at_millis", created_at_millis)?;
                v.end()
            }
            Packet::Ack {
                src_node_id,
                dst_node_id,
                sequence,
            } => {
                let mut v = s.serialize_struct_variant("Packet", 5, "Ack", 3)?;
                v.serialize_field("src_node_id", src_node_id)?;
                v.serialize_field("dst_node_id", dst_node_id)?;
                v.serialize_field("sequence", sequence)?;
                v.end()
            }
            Packet::Error {
                src_node_id,
                dst_node_id,
                message,
            } => {
                let mut v = s.serialize_struct_variant("Packet", 6, "Error", 3)?;
                v.serialize_field("src_node_id", src_node_id)?;
                v.serialize_field("dst_node_id", dst_node_id)?;
                v.serialize_field("message", message)?;
                v.end()
            }
        }
    }
}

fn bincode_len(p: &Packet) -> usize {
    bincode::serialize(&Wire(p)).unwrap().len()
}

fn samples() -> Vec<Packet> {
    vec![
        Packet::Hello {
            src_node_id: 1,
            timestamp_millis: 2,
        },
        Packet::HelloReply {
            src_node_id: 1,
            dst_node_id: 2,
            assigned_label: 3,
            update_flag: false,
            timestamp_millis: 4,
        },
        Packet::Rreq {
            src_node_id: 0,
            dst_node_id: 3,
            request_id: 9,
            previous_hop: 1,
            hop_count: 2,
            dsr_path: vec![0, 1, 2],
            dldsr_label_path: vec![4, 5],
            trace_path: vec![0, 1, 2],
            created_at_millis: 7,
        },
        Packet::Rrep {
            src_node_id: 0,
            dst_node_id: 3,
            request_id: 9,
            dsr_path: vec![0, 1, 2, 3],
            dldsr_label_path: Vec::new(),
            trace_path: vec![0, 1, 2, 3],
            created_at_millis: 7,
        },
        Packet::Data {
            src_node_id: 0,
            dst_node_id: 3,
            sequence: 1,
            protocol_mode: ProtocolMode::Dsr,
            route_cursor: 1,
            dsr_path: vec![0, 1, 2, 3],
            dldsr_label_path: Vec::new(),
            payload: b"payload bytes".to_vec(),
            created_at_millis: 7,
        },
        Packet::Data {
            src_node_id: 0,
            dst_node_id: 3,
            sequence: 1,
            protocol_mode: ProtocolMode::DlDsr,
            route_cursor: 0,
            dsr_path: Vec::new(),
            dldsr_label_path: vec![1, 2, 3],
            payload: Vec::new(),
            created_at_millis: 7,
        },
        Packet::Ack {
            src_node_id: 1,
            dst_node_id: 2,
            sequence: 3,
        },
        Packet::Error {
            src_node_id: 1,
            dst_node_id: 2,
            message: "r\u{e9}sum\u{e9} \u{1f600}".to_string(),
        },
    ]
}

#[test]
fn encoded_len_matches_bincode_for_every_packet_kind() {
    for p in samples() {
        assert_eq!(p.encoded_len().unwrap(), bincode_len(&p), "{p:?}");
    }
}

#[test]
fn label_route_is_three_bytes_per_hop_shorter() {
    let with_ids = Packet::Data {
        src_node_id: 0,
        dst_node_id: 9,
        sequence: 1,
        protocol_mode: ProtocolMode::Dsr,
        route_cursor: 1,
        dsr_path: vec![0, 1, 2, 3, 4, 5, 6, 9],
        dldsr_label_path: Vec::new(),
        payload: vec![0; 64],
        created_at_millis: 0,
    };
    let with_labels = Packet::Data {
        src_node_id: 0,
        dst_node_id: 9,
        sequence: 1,
        protocol_mode: ProtocolMode::DlDsr,
        route_cursor: 1,
        dsr_path: Vec::new(),
        dldsr_label_path: vec![1, 2, 1, 2, 1, 2, 1, 2],
        payload: vec![0; 64],
        created_at_millis: 0,
    };
    assert_eq!(
        with_ids.encoded_len().unwrap(),
        with_labels.encoded_len().unwrap() + 3 * 8
    );
    assert_eq!(
        bincode_len(&with_ids),
        bincode_len(&with_labels) + 3 * 8
    );
}
