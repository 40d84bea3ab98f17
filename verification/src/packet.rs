//! Protocol modes, the packet type and the path header cost model.
use vstd::prelude::*;
use crate::error::DldsrError;
use crate::text::join2;

verus! {

/// Which source-route encoding a node uses.
#[derive(Debug, Clone, Copy, PartialEq, Eq, Structural)]
pub enum ProtocolMode {
    /// Plain DSR: the route is a list of 32-bit node identifiers.
    Dsr,
    /// DL-DSR: the route is a list of 8-bit dynamic labels.
    DlDsr,
}

/// ASCII lower-casing of one character; other characters are unchanged.
pub open spec fn ascii_lower(c: char) -> char {
    if 'A' <= c && c <= 'Z' {
        ((c as u32) + 32) as char
    } else {
        c
    }
}

/// ASCII lower-casing of a whole text.
pub open spec fn ascii_lowercase(s: Seq<char>) -> Seq<char> {
    s.map_values(|c: char| ascii_lower(c))
}

/// The mode a (case-insensitive) name denotes: `dsr`, or `dldsr` / `dl-dsr`.
pub open spec fn mode_named(name: Seq<char>) -> Option<ProtocolMode> {
    let l = ascii_lowercase(name);
    if l == "dsr"@ {
        Some(ProtocolMode::Dsr)
    } else if l == "dldsr"@ || l == "dl-dsr"@ {
        Some(ProtocolMode::DlDsr)
    } else {
        None
    }
}

/// The canonical name of a mode.
pub open spec fn mode_text(mode: ProtocolMode) -> Seq<char> {
    match mode {
        ProtocolMode::Dsr => "dsr"@,
        ProtocolMode::DlDsr => "dldsr"@,
    }
}

/// `str::to_ascii_lowercase`: std documents that it maps `A..=Z` to
/// `a..=z` and leaves every other character as it is.
#[verifier::external_body]
fn to_ascii_lowercase(value: &str) -> (lower: String)
    ensures
        lower@ == ascii_lowercase(value@),
{
    value.to_ascii_lowercase()
}

impl ProtocolMode {
    /// Parses a mode name, ignoring ASCII case.
    pub fn parse(value: &str) -> (res: Result<ProtocolMode, String>)
        ensures
            match res {
                Ok(mode) => mode_named(value@) == Some(mode),
                Err(msg) => mode_named(value@) is None && msg@ == "unknown protocol mode: "@
                    + ascii_lowercase(value@),
            },
    {
        let lower = to_ascii_lowercase(value);
        if lower == String::from_str("dsr") {
            Ok(ProtocolMode::Dsr)
        } else if lower == String::from_str("dldsr") || lower == String::from_str("dl-dsr") {
            Ok(ProtocolMode::DlDsr)
        } else {
            Err(join2("unknown protocol mode: ", lower.as_str()))
        }
    }

    /// The canonical name of this mode (`dsr` or `dldsr`).
    pub fn name(&self) -> (s: String)
        ensures
            s@ == mode_text(*self),
    {
        match self {
            ProtocolMode::Dsr => String::from_str("dsr"),
            ProtocolMode::DlDsr => String::from_str("dldsr"),
        }
    }
}

impl core::str::FromStr for ProtocolMode {
    type Err = String;

    fn from_str(value: &str) -> (res: Result<ProtocolMode, String>)
        ensures
            match res {
                Ok(mode) => mode_named(value@) == Some(mode),
                Err(msg) => mode_named(value@) is None && msg@ == "unknown protocol mode: "@
                    + ascii_lowercase(value@),
            },
    {
        ProtocolMode::parse(value)
    }
}

/// A protocol packet.
#[derive(Debug)]
pub enum Packet {
    Hello { src_node_id: u32, timestamp_millis: u64 },
    HelloReply {
        src_node_id: u32,
        dst_node_id: u32,
        assigned_label: u8,
        update_flag: bool,
        timestamp_millis: u64,
    },
    Rreq {
        src_node_id: u32,
        dst_node_id: u32,
        request_id: u64,
        previous_hop: u32,
        hop_count: u8,
        dsr_path: Vec<u32>,
        dldsr_label_path: Vec<u8>,
        trace_path: Vec<u32>,
        created_at_millis: u64,
    },
    Rrep {
        src_node_id: u32,
        dst_node_id: u32,
        request_id: u64,
        dsr_path: Vec<u32>,
        dldsr_label_path: Vec<u8>,
        trace_path: Vec<u32>,
        created_at_millis: u64,
    },
    Data {
        src_node_id: u32,
        dst_node_id: u32,
        sequence: u64,
        protocol_mode: ProtocolMode,
        route_cursor: usize,
        dsr_path: Vec<u32>,
        dldsr_label_path: Vec<u8>,
        payload: Vec<u8>,
        created_at_millis: u64,
    },
    Ack { src_node_id: u32, dst_node_id: u32, sequence: u64 },
    Error { src_node_id: u32, dst_node_id: u32, message: String },
}

/// The mathematical value of a packet: its paths and payload as sequences.
pub enum PacketModel {
    Hello { src_node_id: u32, timestamp_millis: u64 },
    HelloReply {
        src_node_id: u32,
        dst_node_id: u32,
        assigned_label: u8,
        update_flag: bool,
        timestamp_millis: u64,
    },
    Rreq {
        src_node_id: u32,
        dst_node_id: u32,
        request_id: u64,
        previous_hop: u32,
        hop_count: u8,
        dsr_path: Seq<u32>,
        dldsr_label_path: Seq<u8>,
        trace_path: Seq<u32>,
        created_at_millis: u64,
    },
    Rrep {
        src_node_id: u32,
        dst_node_id: u32,
        request_id: u64,
        dsr_path: Seq<u32>,
        dldsr_label_path: Seq<u8>,
        trace_path: Seq<u32>,
        created_at_millis: u64,
    },
    Data {
        src_node_id: u32,
        dst_node_id: u32,
        sequence: u64,
        protocol_mode: ProtocolMode,
        route_cursor: usize,
        dsr_path: Seq<u32>,
        dldsr_label_path: Seq<u8>,
        payload: Seq<u8>,
        created_at_millis: u64,
    },
    Ack { src_node_id: u32, dst_node_id: u32, sequence: u64 },
    Error { src_node_id: u32, dst_node_id: u32, message: Seq<char> },
}

impl View for Packet {
    type V = PacketModel;

    open spec fn view(&self) -> PacketModel {
        match self {
            Packet::Hello { src_node_id, timestamp_millis } => PacketModel::Hello {
                src_node_id: *src_node_id,
                timestamp_millis: *timestamp_millis,
            },
            Packet::HelloReply {
                src_node_id,
                dst_node_id,
                assigned_label,
                update_flag,
                timestamp_millis,
            } => PacketModel::HelloReply {
                src_node_id: *src_node_id,
                dst_node_id: *dst_node_id,
                assigned_label: *assigned_label,
                update_flag: *update_flag,
                timestamp_millis: *timestamp_millis,
            },
            Packet::Rreq {
                src_node_id,
                dst_node_id,
                request_id,
                previous_hop,
                hop_count,
                dsr_path,
                dldsr_label_path,
                trace_path,
                created_at_millis,
            } => PacketModel::Rreq {
                src_node_id: *src_node_id,
                dst_node_id: *dst_node_id,
                request_id: *request_id,
                previous_hop: *previous_hop,
                hop_count: *hop_count,
                dsr_path: dsr_path@,
                dldsr_label_path: dldsr_label_path@,
                trace_path: trace_path@,
                created_at_millis: *created_at_millis,
            },
            Packet::Rrep {
                src_node_id,
                dst_node_id,
                request_id,
                dsr_path,
                dldsr_label_path,
                trace_path,
                created_at_millis,
            } => PacketModel::Rrep {
                src_node_id: *src_node_id,
                dst_node_id: *dst_node_id,
                request_id: *request_id,
                dsr_path: dsr_path@,
                dldsr_label_path: dldsr_label_path@,
                trace_path: trace_path@,
                created_at_millis: *created_at_millis,
            },
            Packet::Data {
                src_node_id,
                dst_node_id,
                sequence,
                protocol_mode,
                route_cursor,
                dsr_path,
                dldsr_label_path,
                payload,
                created_at_millis,
            } => PacketModel::Data {
                src_node_id: *src_node_id,
                dst_node_id: *dst_node_id,
                sequence: *sequence,
                protocol_mode: *protocol_mode,
                route_cursor: *route_cursor,
                dsr_path: dsr_path@,
                dldsr_label_path: dldsr_label_path@,
                payload: payload@,
                created_at_millis: *created_at_millis,
            },
            Packet::Ack { src_node_id, dst_node_id, sequence } => PacketModel::Ack {
                src_node_id: *src_node_id,
                dst_node_id: *dst_node_id,
                sequence: *sequence,
            },
            Packet::Error { src_node_id, dst_node_id, message } => PacketModel::Error {
                src_node_id: *src_node_id,
                dst_node_id: *dst_node_id,
                message: message@,
            },
        }
    }
}

/// The number of UTF-8 bytes of one character.
pub open spec fn utf8_width(c: char) -> nat {
    if (c as u32) < 0x80 {
        1
    } else if (c as u32) < 0x800 {
        2
    } else if (c as u32) < 0x10000 {
        3
    } else {
        4
    }
}

/// The number of UTF-8 bytes of a text.
pub open spec fn utf8_len(s: Seq<char>) -> nat
    decreases s.len(),
{
    if s.len() == 0 {
        0
    } else {
        utf8_len(s.drop_last()) + utf8_width(s.last())
    }
}

/// The UTF-8 byte length of `s`, or `None` where it exceeds `usize`.
fn utf8_byte_len(s: &str) -> (res: Option<usize>)
    ensures
        match res {
            Some(n) => n == utf8_len(s@),
            None => utf8_len(s@) > usize::MAX,
        },
{
    let mut total: usize = 0;
    let mut over = false;
    for c in it: s.chars()
        invariant
            it.seq() == s@,
            !over ==> total == utf8_len(s@.take(it.index())),
            over ==> utf8_len(s@.take(it.index())) > usize::MAX,
    {
        let ghost i = it.index();
        assert(s@.take(i + 1).drop_last() =~= s@.take(i));
        let code = c as u32;
        let w: usize = if code < 0x80 {
            1
        } else if code < 0x800 {
            2
        } else if code < 0x10000 {
            3
        } else {
            4
        };
        if !over {
            if total <= usize::MAX - w {
                total = total + w;
            } else {
                over = true;
            }
        }
    }
    assert(s@.take(s@.len() as int) =~= s@);
    if over {
        None
    } else {
        Some(total)
    }
}

/// The number of bytes of a packet on the wire: each packet is laid out
/// with fixed-width little-endian integers, a 4-byte variant tag for each
/// enum, an 8-byte length before each list, 8 bytes for `usize`, one byte
/// for `bool` and `u8`, and UTF-8 for text.
pub open spec fn wire_len(p: PacketModel) -> nat {
    match p {
        PacketModel::Hello { .. } => 16,
        PacketModel::HelloReply { .. } => 22,
        PacketModel::Rreq { dsr_path, dldsr_label_path, trace_path, .. } => 57 + 4 * dsr_path.len()
            + dldsr_label_path.len() + 4 * trace_path.len(),
        PacketModel::Rrep { dsr_path, dldsr_label_path, trace_path, .. } => 52 + 4 * dsr_path.len()
            + dldsr_label_path.len() + 4 * trace_path.len(),
        PacketModel::Data { dsr_path, dldsr_label_path, payload, .. } => 64 + 4 * dsr_path.len()
            + dldsr_label_path.len() + payload.len(),
        PacketModel::Ack { .. } => 20,
        PacketModel::Error { message, .. } => 20 + utf8_len(message),
    }
}

/// Whether a packet belongs to neighbor discovery or route discovery
/// (Hello, HelloReply, Rreq, Rrep) rather than to data transfer.
pub open spec fn is_control(p: PacketModel) -> bool {
    p is Hello || p is HelloReply || p is Rreq || p is Rrep
}

impl Packet {
    /// The encoded size of this packet; an error only where it does not fit in `usize`.
    pub fn encoded_len(&self) -> (res: Result<usize, DldsrError>)
        ensures
            match res {
                Ok(n) => n == wire_len(self@),
                Err(e) => wire_len(self@) > usize::MAX && e is Codec,
            },
    {
        let total: u128 = match self {
            Packet::Hello { .. } => 16,
            Packet::HelloReply { .. } => 22,
            Packet::Rreq { dsr_path, dldsr_label_path, trace_path, .. } => 57 + 4
                * (dsr_path.len() as u128) + (dldsr_label_path.len() as u128) + 4
                * (trace_path.len() as u128),
            Packet::Rrep { dsr_path, dldsr_label_path, trace_path, .. } => 52 + 4
                * (dsr_path.len() as u128) + (dldsr_label_path.len() as u128) + 4
                * (trace_path.len() as u128),
            Packet::Data { dsr_path, dldsr_label_path, payload, .. } => 64 + 4 * (
            dsr_path.len() as u128) + (dldsr_label_path.len() as u128) + (payload.len() as u128),
            Packet::Ack { .. } => 20,
            Packet::Error { message, .. } => match utf8_byte_len(message.as_str()) {
                Some(bytes) => 20 + (bytes as u128),
                None => {
                    return Err(
                        DldsrError::Codec(String::from_str("encoded packet length exceeds usize")),
                    );
                },
            },
        };
        assert(total == wire_len(self@));
        if total <= usize::MAX as u128 {
            Ok(total as usize)
        } else {
            Err(DldsrError::Codec(String::from_str("encoded packet length exceeds usize")))
        }
    }
}

/// Source-route header bytes per hop: a 32-bit node id for DSR, an 8-bit label for DL-DSR.
pub open spec fn header_bytes_per_hop(mode: ProtocolMode) -> nat {
    match mode {
        ProtocolMode::Dsr => 4,
        ProtocolMode::DlDsr => 1,
    }
}

/// Source-route header bytes of a path of `hops` hops.
pub fn path_header_bytes(mode: ProtocolMode, hops: usize) -> (bytes: usize)
    requires
        hops * header_bytes_per_hop(mode) <= usize::MAX,
    ensures
        bytes == hops * header_bytes_per_hop(mode),
{
    match mode {
        ProtocolMode::Dsr => hops * 4,
        ProtocolMode::DlDsr => hops,
    }
}

} // verus!
