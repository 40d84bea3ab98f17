//! Per-node traffic counters and the deterministic chain benchmark model.
use vstd::prelude::*;
use crate::packet::{header_bytes_per_hop, path_header_bytes, ProtocolMode};

verus! {

/// `a + b` modulo 2^64: the counters wrap around as unsigned 64-bit integers.
pub open spec fn wrap(a: u64, b: u64) -> u64 {
    vstd::wrapping::u64_specs::wrapping_add(a, b)
}

/// Traffic, delivery and route-discovery counters of one node. Latency
/// samples are whole milliseconds.
#[derive(Debug)]
pub struct NodeMetrics {
    pub tx_packets: u64,
    pub rx_packets: u64,
    pub tx_bytes: u64,
    pub rx_bytes: u64,
    pub control_bytes: u64,
    pub data_bytes: u64,
    pub delivered_packets: u64,
    pub dropped_packets: u64,
    pub latency_samples_ms: Vec<u64>,
    pub route_discovery_attempts: u64,
    pub route_discovery_successes: u64,
    pub route_discovery_failures: u64,
    pub rreq_forwarded: u64,
    pub rreq_dropped_duplicate: u64,
    pub rreq_dropped_ttl: u64,
    pub rrep_forwarded: u64,
    pub rrep_dropped_invalid: u64,
    pub data_forwarded: u64,
    pub data_delivered: u64,
    pub data_dropped: u64,
}

/// The value of a node's counters.
#[verifier::ext_equal]
pub struct MetricsModel {
    pub tx_packets: u64,
    pub rx_packets: u64,
    pub tx_bytes: u64,
    pub rx_bytes: u64,
    pub control_bytes: u64,
    pub data_bytes: u64,
    pub delivered_packets: u64,
    pub dropped_packets: u64,
    pub latency_samples_ms: Seq<u64>,
    pub route_discovery_attempts: u64,
    pub route_discovery_successes: u64,
    pub route_discovery_failures: u64,
    pub rreq_forwarded: u64,
    pub rreq_dropped_duplicate: u64,
    pub rreq_dropped_ttl: u64,
    pub rrep_forwarded: u64,
    pub rrep_dropped_invalid: u64,
    pub data_forwarded: u64,
    pub data_delivered: u64,
    pub data_dropped: u64,
}

impl View for NodeMetrics {
    type V = MetricsModel;

    open spec fn view(&self) -> MetricsModel {
        MetricsModel {
            tx_packets: self.tx_packets,
            rx_packets: self.rx_packets,
            tx_bytes: self.tx_bytes,
            rx_bytes: self.rx_bytes,
            control_bytes: self.control_bytes,
            data_bytes: self.data_bytes,
            delivered_packets: self.delivered_packets,
            dropped_packets: self.dropped_packets,
            latency_samples_ms: self.latency_samples_ms@,
            route_discovery_attempts: self.route_discovery_attempts,
            route_discovery_successes: self.route_discovery_successes,
            route_discovery_failures: self.route_discovery_failures,
            rreq_forwarded: self.rreq_forwarded,
            rreq_dropped_duplicate: self.rreq_dropped_duplicate,
            rreq_dropped_ttl: self.rreq_dropped_ttl,
            rrep_forwarded: self.rrep_forwarded,
            rrep_dropped_invalid: self.rrep_dropped_invalid,
            data_forwarded: self.data_forwarded,
            data_delivered: self.data_delivered,
            data_dropped: self.data_dropped,
        }
    }
}

/// All counters zero, no latency sample.
pub open spec fn zero_metrics() -> MetricsModel {
    MetricsModel {
        tx_packets: 0,
        rx_packets: 0,
        tx_bytes: 0,
        rx_bytes: 0,
        control_bytes: 0,
        data_bytes: 0,
        delivered_packets: 0,
        dropped_packets: 0,
        latency_samples_ms: Seq::empty(),
        route_discovery_attempts: 0,
        route_discovery_successes: 0,
        route_discovery_failures: 0,
        rreq_forwarded: 0,
        rreq_dropped_duplicate: 0,
        rreq_dropped_ttl: 0,
        rrep_forwarded: 0,
        rrep_dropped_invalid: 0,
        data_forwarded: 0,
        data_delivered: 0,
        data_dropped: 0,
    }
}

/// The counters after sending a packet of `bytes` bytes (a control
/// packet if `control`, else a data packet).
pub open spec fn after_tx(m: MetricsModel, bytes: u64, control: bool) -> MetricsModel {
    MetricsModel {
        tx_packets: wrap(m.tx_packets, 1),
        tx_bytes: wrap(m.tx_bytes, bytes),
        control_bytes: if control {
            wrap(m.control_bytes, bytes)
        } else {
            m.control_bytes
        },
        data_bytes: if control {
            m.data_bytes
        } else {
            wrap(m.data_bytes, bytes)
        },
        ..m
    }
}

/// The counters after receiving a packet of `bytes` bytes.
pub open spec fn after_rx(m: MetricsModel, bytes: u64) -> MetricsModel {
    MetricsModel { rx_packets: wrap(m.rx_packets, 1), rx_bytes: wrap(m.rx_bytes, bytes), ..m }
}

impl NodeMetrics {
    /// All counters zero.
    pub fn new() -> (m: NodeMetrics)
        ensures
            m@ == zero_metrics(),
    {
        NodeMetrics {
            tx_packets: 0,
            rx_packets: 0,
            tx_bytes: 0,
            rx_bytes: 0,
            control_bytes: 0,
            data_bytes: 0,
            delivered_packets: 0,
            dropped_packets: 0,
            latency_samples_ms: Vec::new(),
            route_discovery_attempts: 0,
            route_discovery_successes: 0,
            route_discovery_failures: 0,
            rreq_forwarded: 0,
            rreq_dropped_duplicate: 0,
            rreq_dropped_ttl: 0,
            rrep_forwarded: 0,
            rrep_dropped_invalid: 0,
            data_forwarded: 0,
            data_delivered: 0,
            data_dropped: 0,
        }
    }

    /// Counts one sent packet of `bytes` bytes, as control or data traffic.
    pub fn record_tx(&mut self, bytes: usize, control: bool)
        ensures
            final(self)@ == after_tx(old(self)@, bytes as u64, control),
    {
        self.tx_packets = self.tx_packets.wrapping_add(1);
        self.tx_bytes = self.tx_bytes.wrapping_add(bytes as u64);
        if control {
            self.control_bytes = self.control_bytes.wrapping_add(bytes as u64);
        } else {
            self.data_bytes = self.data_bytes.wrapping_add(bytes as u64);
        }
    }

    /// Counts one received packet of `bytes` bytes.
    pub fn record_rx(&mut self, bytes: usize)
        ensures
            final(self)@ == after_rx(old(self)@, bytes as u64),
    {
        self.rx_packets = self.rx_packets.wrapping_add(1);
        self.rx_bytes = self.rx_bytes.wrapping_add(bytes as u64);
    }
}

impl Default for NodeMetrics {
    fn default() -> (m: NodeMetrics)
        ensures
            m@ == zero_metrics(),
    {
        NodeMetrics::new()
    }
}

/// The integer results of the chain benchmark model.
#[derive(Debug, Clone, Copy, PartialEq, Eq, Structural)]
pub struct BenchmarkReport {
    pub mode: ProtocolMode,
    pub hops: usize,
    pub payload_size: usize,
    pub packet_count: u64,
    pub total_tx_bytes: u64,
    pub total_rx_bytes: u64,
    pub control_bytes: u64,
    pub data_bytes: u64,
    pub path_header_bytes: u64,
    pub delivered_packets: u64,
    pub lost_packets: u64,
}

/// Fixed per-packet framing bytes in the model.
pub open spec fn framing_bytes() -> nat {
    32
}

/// Bytes of one packet in the model: payload, route header and framing.
pub open spec fn bytes_per_packet(mode: ProtocolMode, hops: nat, payload_size: nat) -> nat {
    payload_size + hops * header_bytes_per_hop(mode) + framing_bytes()
}

/// Link transmissions per packet along a chain of `hops` hops: one per
/// link, and at least one.
pub open spec fn link_transmissions(hops: nat) -> nat {
    if hops <= 1 {
        1
    } else {
        (hops - 1) as nat
    }
}

/// The model's totals fit in 64 bits (and the header size in `usize`).
pub open spec fn chain_model_fits(
    hops: nat,
    mode: ProtocolMode,
    payload_size: nat,
    packet_count: nat,
) -> bool {
    &&& hops * header_bytes_per_hop(mode) <= usize::MAX
    &&& bytes_per_packet(mode, hops, payload_size) <= u64::MAX
    &&& bytes_per_packet(mode, hops, payload_size) * packet_count * link_transmissions(hops)
        <= u64::MAX
}

/// Whether the chain model's totals fit their integer types, that is,
/// whether [`simulate_chain`] may be called with these arguments.
pub fn chain_model_fits_check(
    hops: usize,
    mode: ProtocolMode,
    payload_size: usize,
    packet_count: u64,
) -> (b: bool)
    ensures
        b == chain_model_fits(hops as nat, mode, payload_size as nat, packet_count as nat),
{
    let per_hop: u128 = match mode {
        ProtocolMode::Dsr => 4,
        ProtocolMode::DlDsr => 1,
    };
    let h = hops as u128;
    let header = h * per_hop;
    if header > usize::MAX as u128 {
        return false;
    }
    let per = payload_size as u128 + header + 32;
    if per > u64::MAX as u128 {
        return false;
    }
    let link: u128 = if hops <= 1 {
        1
    } else {
        (hops - 1) as u128
    };
    let c = packet_count as u128;
    assert(per * c <= 0xffff_ffff_ffff_ffff * 0xffff_ffff_ffff_ffffnat) by (nonlinear_arith)
        requires
            per <= 0xffff_ffff_ffff_ffff,
            c <= 0xffff_ffff_ffff_ffff,
    ;
    let prod = per * c;
    assert(prod <= prod * link) by (nonlinear_arith)
        requires
            link >= 1,
    ;
    if prod > u64::MAX as u128 {
        return false;
    }
    assert(prod * link <= 0xffff_ffff_ffff_ffff * 0xffff_ffff_ffff_ffffnat) by (nonlinear_arith)
        requires
            prod <= 0xffff_ffff_ffff_ffff,
            link <= 0xffff_ffff_ffff_ffff,
    ;
    prod * link <= u64::MAX as u128
}

/// The chain benchmark model: every packet is delivered and every link
/// carries every packet once; sent and received bytes are equal.
pub open spec fn chain_report(
    hops: usize,
    mode: ProtocolMode,
    payload_size: usize,
    packet_count: u64,
) -> BenchmarkReport {
    let per = bytes_per_packet(mode, hops as nat, payload_size as nat);
    let total = (per * packet_count * link_transmissions(hops as nat)) as u64;
    BenchmarkReport {
        mode,
        hops,
        payload_size,
        packet_count,
        total_tx_bytes: total,
        total_rx_bytes: total,
        control_bytes: 0,
        data_bytes: total,
        path_header_bytes: (hops * header_bytes_per_hop(mode) * packet_count) as u64,
        delivered_packets: packet_count,
        lost_packets: 0,
    }
}

/// Runs the deterministic chain model for `packet_count` packets of
/// `payload_size` bytes over `hops` hops.
pub fn simulate_chain(hops: usize, mode: ProtocolMode, payload_size: usize, packet_count: u64) -> (r:
    BenchmarkReport)
    requires
        chain_model_fits(hops as nat, mode, payload_size as nat, packet_count as nat),
    ensures
        r == chain_report(hops, mode, payload_size, packet_count),
{
    let path_bytes = path_header_bytes(mode, hops) as u64;
    let serialized_overhead: u64 = 32;
    let per_packet = payload_size as u64 + path_bytes + serialized_overhead;
    let link: u64 = if hops <= 1 {
        1
    } else {
        (hops - 1) as u64
    };
    let ghost per = per_packet as nat;
    let ghost l = link as nat;
    let ghost c = packet_count as nat;
    assert(per * c <= per * c * l) by (nonlinear_arith)
        requires
            l >= 1,
    ;
    assert(path_bytes * c <= per * c) by (nonlinear_arith)
        requires
            path_bytes <= per,
    ;
    let total = per_packet * packet_count * link;
    BenchmarkReport {
        mode,
        hops,
        payload_size,
        packet_count,
        total_tx_bytes: total,
        total_rx_bytes: total,
        control_bytes: 0,
        data_bytes: total,
        path_header_bytes: path_bytes * packet_count,
        delivered_packets: packet_count,
        lost_packets: 0,
    }
}

/// The two modes side by side on one chain, with what DL-DSR saves.
#[derive(Debug, Clone, Copy, PartialEq, Eq, Structural)]
pub struct ComparisonReport {
    pub dsr: BenchmarkReport,
    pub dldsr: BenchmarkReport,
    pub path_header_savings_bytes: u64,
    pub total_tx_savings_bytes: u64,
}

impl ComparisonReport {
    /// Runs the chain model in both modes; the savings are DSR's figure
    /// minus DL-DSR's (three header bytes per hop and packet, on every link
    /// for the sent bytes).
    pub fn new(hops: usize, payload_size: usize, packet_count: u64) -> (r: ComparisonReport)
        requires
            chain_model_fits(hops as nat, ProtocolMode::Dsr, payload_size as nat, packet_count as nat),
        ensures
            r.dsr == chain_report(hops, ProtocolMode::Dsr, payload_size, packet_count),
            r.dldsr == chain_report(hops, ProtocolMode::DlDsr, payload_size, packet_count),
            r.path_header_savings_bytes == 3 * hops * packet_count,
            r.total_tx_savings_bytes == 3 * hops * packet_count * link_transmissions(hops as nat),
    {
        proof {
            crate::laws::law_chain_modes_compare(hops, payload_size, packet_count);
        }
        let dsr = simulate_chain(hops, ProtocolMode::Dsr, payload_size, packet_count);
        let dldsr = simulate_chain(hops, ProtocolMode::DlDsr, payload_size, packet_count);
        ComparisonReport {
            path_header_savings_bytes: dsr.path_header_bytes.saturating_sub(dldsr.path_header_bytes),
            total_tx_savings_bytes: dsr.total_tx_bytes.saturating_sub(dldsr.total_tx_bytes),
            dsr,
            dldsr,
        }
    }
}

} // verus!
