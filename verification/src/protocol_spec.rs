//! The protocol rules of one node, stated over mathematical values:
//! for each event (packet, command, tick), the next state and the
//! packets and events it produces.
use vstd::prelude::*;
use crate::metrics::{MetricsModel, wrap};
use crate::packet::{mode_text, PacketModel, ProtocolMode};
use crate::route::{mark_seen, prune_seen, routes_for, shortest_route, RequestKey, RouteModel};
use crate::tables::{assign_label, label_in_use, LabelEntry, NeighborModel};
use crate::text::decimal;
use crate::topology::{node_of, NodeConfig, NodeModel};

verus! {

/// A payload waiting for a route to its destination.
pub struct PendingModel {
    pub dst_node_id: u32,
    pub payload: Seq<u8>,
}

/// An ongoing route discovery.
#[derive(Debug, Clone, Copy, PartialEq, Eq, Structural)]
pub struct DiscoveryState {
    pub request_id: u64,
    pub last_sent_millis: u64,
    pub retries_done: u32,
}

/// The value of a protocol event.
pub enum EventModel {
    RouteCached { node_id: u32, dst_node_id: u32, request_id: u64 },
    DataDelivered {
        node_id: u32,
        src_node_id: u32,
        dst_node_id: u32,
        sequence: u64,
        payload: Seq<u8>,
    },
    RouteDiscoveryFailed { node_id: u32, dst_node_id: u32, attempts: u32 },
    DataDropped { node_id: u32, dst_node_id: u32, reason: Seq<char> },
    RouteError { node_id: u32, dst_node_id: u32, reason: Seq<char> },
}

/// A packet to send and the endpoint to send it to.
pub struct OutboundModel {
    pub packet: PacketModel,
    pub dst: Seq<char>,
}

/// What handling one event produces: packets to send, events to report.
#[verifier::ext_equal]
pub struct ActionsModel {
    pub outbound: Seq<OutboundModel>,
    pub events: Seq<EventModel>,
}

/// The mutable state of a node.
#[verifier::ext_equal]
pub struct StateModel {
    pub neighbors: Map<u32, NeighborModel>,
    pub labels: Map<u32, LabelEntry>,
    pub routes: Map<u32, Seq<RouteModel>>,
    pub metrics: MetricsModel,
    pub seen: Map<RequestKey, u64>,
    pub pending: Seq<PendingModel>,
    pub discoveries: Seq<(u32, DiscoveryState)>,
    pub next_request_id: u64,
    pub next_sequence: u64,
}

/// Nothing to send, nothing to report.
pub open spec fn no_actions() -> ActionsModel {
    ActionsModel { outbound: Seq::empty(), events: Seq::empty() }
}

/// Only packets to send.
pub open spec fn sends(out: Seq<OutboundModel>) -> ActionsModel {
    ActionsModel { outbound: out, events: Seq::empty() }
}

/// Only events to report.
pub open spec fn reports(events: Seq<EventModel>) -> ActionsModel {
    ActionsModel { outbound: Seq::empty(), events }
}

// ---------------------------------------------------------------------
// Topology lookups
// ---------------------------------------------------------------------

/// This node's logical neighbors (none where the node is not in the topology).
pub open spec fn logical_neighbors(c: NodeConfig) -> Seq<u32> {
    match node_of(c.topology@, c.node_id) {
        Some(n) => n.neighbors,
        None => Seq::empty(),
    }
}

/// `id` is a logical neighbor of this node.
pub open spec fn is_logical_neighbor(c: NodeConfig, id: u32) -> bool {
    logical_neighbors(c).contains(id)
}

/// The endpoint of node `id`.
pub open spec fn endpoint_of(c: NodeConfig, id: u32) -> Option<Seq<char>> {
    match node_of(c.topology@, id) {
        Some(n) => Some(n.endpoint),
        None => None,
    }
}

/// The first node of `nodes` whose endpoint is `ep`.
pub open spec fn node_with_endpoint(nodes: Seq<NodeModel>, ep: Seq<char>) -> Option<u32>
    decreases nodes.len(),
{
    if nodes.len() == 0 {
        None
    } else if nodes[0].endpoint == ep {
        Some(nodes[0].node_id)
    } else {
        node_with_endpoint(nodes.drop_first(), ep)
    }
}

/// `right` is a neighbor of `left` in the topology.
pub open spec fn are_adjacent(c: NodeConfig, left: u32, right: u32) -> bool {
    match node_of(c.topology@, left) {
        Some(n) => n.neighbors.contains(right),
        None => false,
    }
}

/// The entry just before the first occurrence of `current` in `trace`.
pub open spec fn previous_in_trace(trace: Seq<u32>, current: u32) -> Option<u32> {
    match trace.index_of_first(current) {
        Some(i) => if i >= 1 {
            Some(trace[i - 1])
        } else {
            None
        },
        None => None,
    }
}

/// The alive neighbor holding `label`.
pub open spec fn neighbor_with_label(m: Map<u32, NeighborModel>, label: u8) -> Option<NeighborModel> {
    if label_in_use(m, label) {
        Some(
            m[choose|k: u32| #[trigger] m.contains_key(k) && m[k].alive && m[k].label == label],
        )
    } else {
        None
    }
}

// ---------------------------------------------------------------------
// Shared steps
// ---------------------------------------------------------------------

/// Dropping a data packet for `dst`: both drop counters grow by one and
/// the drop is reported twice, as a dropped packet and as a route error.
pub open spec fn drop_data(s: StateModel, c: NodeConfig, dst: u32, reason: Seq<char>) -> (
    StateModel,
    ActionsModel,
) {
    (
        StateModel {
            metrics: MetricsModel {
                dropped_packets: wrap(s.metrics.dropped_packets, 1),
                data_dropped: wrap(s.metrics.data_dropped, 1),
                ..s.metrics
            },
            ..s
        },
        reports(
            seq![
                EventModel::DataDropped { node_id: c.node_id, dst_node_id: dst, reason },
                EventModel::RouteError { node_id: c.node_id, dst_node_id: dst, reason },
            ],
        ),
    )
}

/// The endpoint the first hop of a route goes to: in DSR the node after
/// this one in the node-id path, in DL-DSR the alive neighbor holding the
/// first label.
pub open spec fn first_hop_endpoint(s: StateModel, c: NodeConfig, route: RouteModel) -> Option<
    Seq<char>,
> {
    match c.protocol_mode {
        ProtocolMode::Dsr => if route.dsr_path.len() > 1 {
            endpoint_of(c, route.dsr_path[1])
        } else {
            None
        },
        ProtocolMode::DlDsr => if route.dldsr_label_path.len() > 0 {
            match neighbor_with_label(s.neighbors, route.dldsr_label_path[0]) {
                Some(e) => Some(e.endpoint),
                None => None,
            }
        } else {
            None
        },
    }
}

/// Sending `payload` to `dst` along `route` as the origin, at `now`:
/// it takes the next sequence number and goes to the route's first hop,
/// with the route cursor already past this node; it is dropped where the
/// first hop is unknown.
pub open spec fn origin_data(
    s: StateModel,
    c: NodeConfig,
    dst: u32,
    payload: Seq<u8>,
    route: RouteModel,
    now: u64,
) -> (StateModel, ActionsModel) {
    let s1 = StateModel { next_sequence: wrap(s.next_sequence, 1), ..s };
    match first_hop_endpoint(s, c, route) {
        Some(ep) => (
            s1,
            sends(
                seq![
                    OutboundModel {
                        packet: PacketModel::Data {
                            src_node_id: c.node_id,
                            dst_node_id: dst,
                            sequence: s.next_sequence,
                            protocol_mode: c.protocol_mode,
                            route_cursor: 1,
                            dsr_path: route.dsr_path,
                            dldsr_label_path: route.dldsr_label_path,
                            payload,
                            created_at_millis: now,
                        },
                        dst: ep,
                    },
                ],
            ),
        ),
        None => drop_data(s1, c, dst, "DATA origin next-hop lookup failed"@),
    }
}

/// The Rreq sent to each logical neighbor except `except` that has a
/// known endpoint, in neighbor order.
pub open spec fn flood(c: NodeConfig, nbrs: Seq<u32>, except: Option<u32>, p: PacketModel) -> Seq<
    OutboundModel,
>
    decreases nbrs.len(),
{
    if nbrs.len() == 0 {
        Seq::empty()
    } else {
        let rest = flood(c, nbrs.drop_last(), except, p);
        let n = nbrs.last();
        if except == Some(n) {
            rest
        } else {
            match endpoint_of(c, n) {
                Some(ep) => rest.push(OutboundModel { packet: p, dst: ep }),
                None => rest,
            }
        }
    }
}

/// Recording discovery `d` for `dst`, replacing an ongoing one in its place.
pub open spec fn put_discovery(ds: Seq<(u32, DiscoveryState)>, dst: u32, d: DiscoveryState) -> Seq<
    (u32, DiscoveryState),
> {
    if exists|i: int| 0 <= i < ds.len() && (#[trigger] ds[i]).0 == dst {
        ds.update(choose|i: int| 0 <= i < ds.len() && (#[trigger] ds[i]).0 == dst, (dst, d))
    } else {
        ds.push((dst, d))
    }
}

/// Whether a discovery for `dst` is ongoing.
pub open spec fn discovering(ds: Seq<(u32, DiscoveryState)>, dst: u32) -> bool {
    exists|i: int| 0 <= i < ds.len() && (#[trigger] ds[i]).0 == dst
}

/// The ongoing discoveries without the one for `dst`.
pub open spec fn remove_discovery(ds: Seq<(u32, DiscoveryState)>, dst: u32) -> Seq<
    (u32, DiscoveryState),
> {
    ds.filter(|e: (u32, DiscoveryState)| e.0 != dst)
}

/// Starting (or retrying) route discovery for `dst` at `now`: a fresh
/// request id, marked as seen, and an Rreq to every logical neighbor.
pub open spec fn start_discovery(s: StateModel, c: NodeConfig, dst: u32, retries: u32, now: u64) -> (
    StateModel,
    ActionsModel,
) {
    let rid = s.next_request_id;
    let rreq = PacketModel::Rreq {
        src_node_id: c.node_id,
        dst_node_id: dst,
        request_id: rid,
        previous_hop: c.node_id,
        hop_count: 0,
        dsr_path: seq![c.node_id],
        dldsr_label_path: Seq::empty(),
        trace_path: seq![c.node_id],
        created_at_millis: now,
    };
    (
        StateModel {
            next_request_id: wrap(rid, 1),
            seen: mark_seen(
                s.seen,
                (c.node_id, rid),
                now,
                c.seen_request_ttl_ms,
                c.seen_request_max_entries as nat,
            ).0,
            discoveries: put_discovery(
                s.discoveries,
                dst,
                DiscoveryState { request_id: rid, last_sent_millis: now, retries_done: retries },
            ),
            metrics: MetricsModel {
                route_discovery_attempts: wrap(s.metrics.route_discovery_attempts, 1),
                ..s.metrics
            },
            ..s
        },
        sends(flood(c, logical_neighbors(c), None, rreq)),
    )
}

// ---------------------------------------------------------------------
// Neighbor discovery
// ---------------------------------------------------------------------

/// A Hello from logical neighbor `src`, whatever address it arrived
/// from, gets it a label (kept, or the lowest free one), recorded with the
/// neighbor's endpoint in the topology, and a HelloReply carrying the
/// label, sent to that endpoint. A Hello from any other node is ignored,
/// and so is one from a neighbor without a topology endpoint or for which
/// no label is left.
pub open spec fn on_hello(s: StateModel, c: NodeConfig, src: u32, sender: Seq<char>, now: u64) -> (
    StateModel,
    ActionsModel,
) {
    if !is_logical_neighbor(c, src) {
        (s, no_actions())
    } else {
        match endpoint_of(c, src) {
            None => (s, no_actions()),
            Some(ep) => {
                let (table, res) = assign_label(s.neighbors, src, ep, now);
                match res {
                    Ok(label) => (
                        StateModel { neighbors: table, ..s },
                        sends(
                            seq![
                                OutboundModel {
                                    packet: PacketModel::HelloReply {
                                        src_node_id: c.node_id,
                                        dst_node_id: src,
                                        assigned_label: label,
                                        update_flag: true,
                                        timestamp_millis: now,
                                    },
                                    dst: ep,
                                },
                            ],
                        ),
                    ),
                    Err(_) => (s, no_actions()),
                }
            },
        }
    }
}

/// A HelloReply addressed to this node from a logical neighbor records
/// the label that neighbor assigned to this node; others are ignored.
pub open spec fn on_hello_reply(
    s: StateModel,
    c: NodeConfig,
    src: u32,
    dst: u32,
    label: u8,
    timestamp: u64,
) -> (StateModel, ActionsModel) {
    if dst == c.node_id && is_logical_neighbor(c, src) {
        (
            StateModel {
                labels: s.labels.insert(
                    src,
                    LabelEntry {
                        neighbor_node_id: src,
                        label_assigned_by_neighbor_to_me: label,
                        last_seen_millis: timestamp,
                    },
                ),
                ..s
            },
            no_actions(),
        )
    } else {
        (s, no_actions())
    }
}

// ---------------------------------------------------------------------
// Route discovery
// ---------------------------------------------------------------------

/// `path` with `node` appended, unless it already ends with `node`.
pub open spec fn append_self(path: Seq<u32>, node: u32) -> Seq<u32> {
    if path.len() > 0 && path.last() == node {
        path
    } else {
        path.push(node)
    }
}

/// An Rreq: dropped unless the previous hop is a logical neighbor; dropped
/// and counted at the hop limit; dropped and counted when already seen;
/// otherwise this node joins the node-id path and the trace (and, in
/// DL-DSR, the label the previous hop assigned to this node joins the
/// label path, the Rreq being dropped where there is none). The
/// destination answers with an Rrep back along the trace; any other node
/// floods the Rreq on to its other logical neighbors.
pub open spec fn on_rreq(
    s: StateModel,
    c: NodeConfig,
    src: u32,
    dst: u32,
    rid: u64,
    prev: u32,
    hops: u8,
    dsr_path: Seq<u32>,
    label_path: Seq<u8>,
    trace: Seq<u32>,
    created: u64,
    now: u64,
) -> (StateModel, ActionsModel) {
    if !is_logical_neighbor(c, prev) {
        (s, no_actions())
    } else if hops >= c.max_rreq_hops {
        (
            StateModel {
                metrics: MetricsModel {
                    rreq_dropped_ttl: wrap(s.metrics.rreq_dropped_ttl, 1),
                    ..s.metrics
                },
                ..s
            },
            no_actions(),
        )
    } else {
        let (seen, is_new) = mark_seen(
            s.seen,
            (src, rid),
            now,
            c.seen_request_ttl_ms,
            c.seen_request_max_entries as nat,
        );
        let s1 = StateModel { seen, ..s };
        if !is_new {
            (
                StateModel {
                    metrics: MetricsModel {
                        rreq_dropped_duplicate: wrap(s.metrics.rreq_dropped_duplicate, 1),
                        ..s.metrics
                    },
                    ..s1
                },
                no_actions(),
            )
        } else {
            let dsr2 = append_self(dsr_path, c.node_id);
            let trace2 = append_self(trace, c.node_id);
            if c.protocol_mode == ProtocolMode::DlDsr && !s.labels.contains_key(prev) {
                (
                    StateModel {
                        metrics: MetricsModel {
                            dropped_packets: wrap(s.metrics.dropped_packets, 1),
                            ..s.metrics
                        },
                        ..s1
                    },
                    no_actions(),
                )
            } else {
                let labels2 = if c.protocol_mode == ProtocolMode::DlDsr {
                    label_path.push(s.labels[prev].label_assigned_by_neighbor_to_me)
                } else {
                    label_path
                };
                if c.node_id == dst {
                    let rrep = PacketModel::Rrep {
                        src_node_id: src,
                        dst_node_id: dst,
                        request_id: rid,
                        dsr_path: dsr2,
                        dldsr_label_path: labels2,
                        trace_path: trace2,
                        created_at_millis: created,
                    };
                    let out = match previous_in_trace(trace2, c.node_id) {
                        Some(back) => match endpoint_of(c, back) {
                            Some(ep) => seq![OutboundModel { packet: rrep, dst: ep }],
                            None => Seq::empty(),
                        },
                        None => Seq::empty(),
                    };
                    (s1, sends(out))
                } else {
                    let fwd = PacketModel::Rreq {
                        src_node_id: src,
                        dst_node_id: dst,
                        request_id: rid,
                        previous_hop: c.node_id,
                        hop_count: (hops + 1) as u8,
                        dsr_path: dsr2,
                        dldsr_label_path: labels2,
                        trace_path: trace2,
                        created_at_millis: created,
                    };
                    let out = flood(c, logical_neighbors(c), Some(prev), fwd);
                    (
                        StateModel {
                            metrics: MetricsModel {
                                rreq_forwarded: crate::protocol_spec::wrap_n(
                                    s.metrics.rreq_forwarded,
                                    out.len(),
                                ),
                                ..s.metrics
                            },
                            ..s1
                        },
                        sends(out),
                    )
                }
            }
        }
    }
}

/// `x + n` modulo 2^64.
pub open spec fn wrap_n(x: u64, n: nat) -> u64 {
    ((x + n) % 0x1_0000_0000_0000_0000) as u64
}

/// Why an Rrep from `sender` with trace `trace` is refused, if it is: the
/// sender must be a known logical neighbor, this node must be on the
/// trace, the sender must be the trace entry after this node and adjacent
/// to it, and the entry before this node (where there is one) must be
/// adjacent too.
pub open spec fn rrep_rejection(c: NodeConfig, sender: Seq<char>, trace: Seq<u32>) -> Option<
    Seq<char>,
> {
    match node_with_endpoint(c.topology@, sender) {
        None => Some("RREP sender endpoint "@ + sender + " is unknown"@),
        Some(sid) => if !is_logical_neighbor(c, sid) {
            Some("RREP sender node "@ + decimal(sid as nat) + " is not a logical neighbor"@)
        } else {
            match trace.index_of_first(c.node_id) {
                None => Some("RREP trace_path does not include current node"@),
                Some(pos) => if pos + 1 >= trace.len() {
                    Some("RREP current node has no sender-side trace hop"@)
                } else {
                    let expected = trace[pos + 1];
                    if sid != expected {
                        Some(
                            "RREP sender node "@ + decimal(sid as nat) + " does not match trace hop "@
                                + decimal(expected as nat),
                        )
                    } else if !are_adjacent(c, c.node_id, expected) {
                        Some(
                            "RREP sender trace hop "@ + decimal(expected as nat)
                                + " is not adjacent to current node"@,
                        )
                    } else if pos >= 1 && !are_adjacent(c, c.node_id, trace[pos - 1]) {
                        Some(
                            "RREP reverse next hop "@ + decimal(trace[pos - 1] as nat)
                                + " is not adjacent to current node"@,
                        )
                    } else {
                        None
                    }
                },
            }
        },
    }
}

/// The route an originator caches from an Rrep: in DSR the node-id path
/// alone, in DL-DSR both paths; it expires `route_cache_ttl_ms` after `now`.
pub open spec fn route_from_rrep(
    c: NodeConfig,
    dst: u32,
    dsr_path: Seq<u32>,
    label_path: Seq<u8>,
    now: u64,
) -> RouteModel {
    RouteModel {
        dst_node_id: dst,
        dsr_path,
        dldsr_label_path: if c.protocol_mode == ProtocolMode::Dsr {
            Seq::empty()
        } else {
            label_path
        },
        expires_at_millis: wrap(now, c.route_cache_ttl_ms),
    }
}

/// Flushing the queued payloads for `dst` along `route`, oldest first:
/// each is sent as origin data; payloads for other destinations stay
/// queued in order. The state, the packets sent, and what stays queued.
pub open spec fn flush(
    s: StateModel,
    c: NodeConfig,
    dst: u32,
    route: RouteModel,
    now: u64,
    queue: Seq<PendingModel>,
) -> (StateModel, Seq<OutboundModel>, Seq<PendingModel>)
    decreases queue.len(),
{
    if queue.len() == 0 {
        (s, Seq::empty(), Seq::empty())
    } else {
        let (s1, out, rest) = flush(s, c, dst, route, now, queue.drop_last());
        let p = queue.last();
        if p.dst_node_id == dst {
            let (s2, a) = origin_data(s1, c, dst, p.payload, route, now);
            (s2, out + a.outbound, rest)
        } else {
            (s1, out, rest.push(p))
        }
    }
}

/// An Rrep: refused ones are counted and reported as route errors. At the
/// originator it caches the route, ends the discovery, reports the cached
/// route and sends the queued payloads for that destination; elsewhere it
/// travels on to the previous entry of the trace.
pub open spec fn on_rrep(
    s: StateModel,
    c: NodeConfig,
    sender: Seq<char>,
    src: u32,
    dst: u32,
    rid: u64,
    dsr_path: Seq<u32>,
    label_path: Seq<u8>,
    trace: Seq<u32>,
    created: u64,
    now: u64,
) -> (StateModel, ActionsModel) {
    match rrep_rejection(c, sender, trace) {
        Some(reason) => (
            StateModel {
                metrics: MetricsModel {
                    rrep_dropped_invalid: wrap(s.metrics.rrep_dropped_invalid, 1),
                    ..s.metrics
                },
                ..s
            },
            reports(seq![EventModel::RouteError { node_id: c.node_id, dst_node_id: dst, reason }]),
        ),
        None => if c.node_id == src {
            let route = route_from_rrep(c, dst, dsr_path, label_path, now);
            let s1 = StateModel {
                routes: s.routes.insert(dst, routes_for(s.routes, dst).push(route)),
                discoveries: remove_discovery(s.discoveries, dst),
                metrics: MetricsModel {
                    route_discovery_successes: wrap(s.metrics.route_discovery_successes, 1),
                    ..s.metrics
                },
                pending: Seq::empty(),
                ..s
            };
            let (s2, out, rest) = flush(s1, c, dst, route, now, s.pending);
            (
                StateModel { pending: rest, ..s2 },
                ActionsModel {
                    outbound: out,
                    events: seq![
                        EventModel::RouteCached { node_id: c.node_id, dst_node_id: dst, request_id: rid },
                    ],
                },
            )
        } else {
            match previous_in_trace(trace, c.node_id) {
                Some(back) => match endpoint_of(c, back) {
                    Some(ep) => (
                        StateModel {
                            metrics: MetricsModel {
                                rrep_forwarded: wrap(s.metrics.rrep_forwarded, 1),
                                ..s.metrics
                            },
                            ..s
                        },
                        sends(
                            seq![
                                OutboundModel {
                                    packet: PacketModel::Rrep {
                                        src_node_id: src,
                                        dst_node_id: dst,
                                        request_id: rid,
                                        dsr_path,
                                        dldsr_label_path: label_path,
                                        trace_path: trace,
                                        created_at_millis: created,
                                    },
                                    dst: ep,
                                },
                            ],
                        ),
                    ),
                    None => (s, no_actions()),
                },
                None => (s, no_actions()),
            }
        },
    }
}

// ---------------------------------------------------------------------
// Data forwarding
// ---------------------------------------------------------------------

/// Why a Data packet that reached its destination is refused, if it is:
/// in DSR the node-id path must end at this node, the cursor must point
/// at this node's first position, and the sender must be the node before
/// it; in DL-DSR the cursor must have consumed the whole label path.
pub open spec fn delivery_rejection(
    c: NodeConfig,
    sender_id: u32,
    mode: ProtocolMode,
    cursor: usize,
    dsr_path: Seq<u32>,
    label_path: Seq<u8>,
) -> Option<Seq<char>> {
    match mode {
        ProtocolMode::Dsr => if !(dsr_path.len() > 0 && dsr_path.last() == c.node_id) {
            Some("DATA DSR path does not end at destination"@)
        } else {
            match dsr_path.index_of_first(c.node_id) {
                None => Some("DATA DSR path does not include destination"@),
                Some(pos) => if cursor != pos {
                    Some(
                        "DATA DSR delivery cursor "@ + decimal(cursor as nat)
                            + " does not match destination position "@ + decimal(pos as nat),
                    )
                } else if pos < 1 {
                    Some("DATA DSR destination has no previous hop"@)
                } else if dsr_path[pos - 1] != sender_id {
                    Some(
                        "DATA DSR sender "@ + decimal(sender_id as nat) + " does not match previous hop "@
                            + decimal(dsr_path[pos - 1] as nat),
                    )
                } else {
                    None
                },
            }
        },
        ProtocolMode::DlDsr => if cursor != label_path.len() {
            Some(
                "DATA DL-DSR delivery cursor "@ + decimal(cursor as nat)
                    + " does not equal label path length "@ + decimal(label_path.len()),
            )
        } else {
            None
        },
    }
}

/// A Data packet: refused in strict mode when its mode differs from the
/// node's, and refused from unknown or non-neighbor senders. At its
/// destination it is delivered (if the delivery checks pass), with its
/// latency recorded; elsewhere it goes on to the next hop of its route
/// with the cursor advanced: in DSR the node after this one in the
/// node-id path, in DL-DSR the alive neighbor holding the label at the
/// cursor. Every refusal is a dropped packet.
pub open spec fn on_data(
    s: StateModel,
    c: NodeConfig,
    sender: Seq<char>,
    src: u32,
    dst: u32,
    sequence: u64,
    mode: ProtocolMode,
    cursor: usize,
    dsr_path: Seq<u32>,
    label_path: Seq<u8>,
    payload: Seq<u8>,
    created: u64,
    now: u64,
) -> (StateModel, ActionsModel) {
    if c.strict_protocol_mode && mode != c.protocol_mode {
        drop_data(
            s,
            c,
            dst,
            "protocol mode mismatch: packet="@ + mode_text(mode) + ", node="@ + mode_text(
                c.protocol_mode,
            ),
        )
    } else {
        match node_with_endpoint(c.topology@, sender) {
            None => drop_data(s, c, dst, "DATA sender endpoint "@ + sender + " is unknown"@),
            Some(sid) => if !is_logical_neighbor(c, sid) {
                drop_data(
                    s,
                    c,
                    dst,
                    "DATA sender node "@ + decimal(sid as nat) + " is not a logical neighbor"@,
                )
            } else if dst == c.node_id {
                match delivery_rejection(c, sid, mode, cursor, dsr_path, label_path) {
                    Some(reason) => drop_data(s, c, dst, reason),
                    None => (
                        StateModel {
                            metrics: MetricsModel {
                                delivered_packets: wrap(s.metrics.delivered_packets, 1),
                                data_delivered: wrap(s.metrics.data_delivered, 1),
                                latency_samples_ms: s.metrics.latency_samples_ms.push(
                                    if now >= created {
                                        (now - created) as u64
                                    } else {
                                        0
                                    },
                                ),
                                ..s.metrics
                            },
                            ..s
                        },
                        reports(
                            seq![
                                EventModel::DataDelivered {
                                    node_id: c.node_id,
                                    src_node_id: src,
                                    dst_node_id: dst,
                                    sequence,
                                    payload,
                                },
                            ],
                        ),
                    ),
                }
            } else {
                let forwarded = PacketModel::Data {
                    src_node_id: src,
                    dst_node_id: dst,
                    sequence,
                    protocol_mode: mode,
                    route_cursor: (cursor + 1) as usize,
                    dsr_path,
                    dldsr_label_path: label_path,
                    payload,
                    created_at_millis: created,
                };
                let counted = StateModel {
                    metrics: MetricsModel {
                        data_forwarded: wrap(s.metrics.data_forwarded, 1),
                        ..s.metrics
                    },
                    ..s
                };
                match mode {
                    ProtocolMode::Dsr => if !(cursor < dsr_path.len() && dsr_path[cursor as int]
                        == c.node_id) {
                        drop_data(s, c, dst, "DATA DSR cursor mismatch"@)
                    } else if cursor + 1 >= dsr_path.len() {
                        drop_data(s, c, dst, "DATA DSR route exhausted"@)
                    } else {
                        let next = dsr_path[cursor + 1];
                        if !is_logical_neighbor(c, next) {
                            drop_data(
                                s,
                                c,
                                dst,
                                "DATA DSR next hop "@ + decimal(next as nat)
                                    + " is not a logical neighbor"@,
                            )
                        } else {
                            match endpoint_of(c, next) {
                                Some(ep) => (
                                    counted,
                                    sends(seq![OutboundModel { packet: forwarded, dst: ep }]),
                                ),
                                None => (s, no_actions()),
                            }
                        }
                    },
                    ProtocolMode::DlDsr => if cursor >= label_path.len() {
                        drop_data(s, c, dst, "DATA DL-DSR label path exhausted"@)
                    } else {
                        let label = label_path[cursor as int];
                        match neighbor_with_label(s.neighbors, label) {
                            None => drop_data(
                                s,
                                c,
                                dst,
                                "DATA DL-DSR label "@ + decimal(label as nat) + " lookup failed"@,
                            ),
                            Some(e) => if !is_logical_neighbor(c, e.node_id) {
                                drop_data(
                                    s,
                                    c,
                                    dst,
                                    "DATA DL-DSR next hop "@ + decimal(e.node_id as nat)
                                        + " is not a logical neighbor"@,
                                )
                            } else {
                                (
                                    counted,
                                    sends(seq![OutboundModel { packet: forwarded, dst: e.endpoint }]),
                                )
                            },
                        }
                    },
                }
            },
        }
    }
}

/// Handling one received packet from `sender` at `now`; packet kinds
/// without a rule (Ack, Error) are ignored.
pub open spec fn on_packet(s: StateModel, c: NodeConfig, p: PacketModel, sender: Seq<char>, now: u64) -> (
    StateModel,
    ActionsModel,
) {
    match p {
        PacketModel::Hello { src_node_id, .. } => on_hello(s, c, src_node_id, sender, now),
        PacketModel::HelloReply { src_node_id, dst_node_id, assigned_label, timestamp_millis, .. } =>
            on_hello_reply(s, c, src_node_id, dst_node_id, assigned_label, timestamp_millis),
        PacketModel::Rreq {
            src_node_id,
            dst_node_id,
            request_id,
            previous_hop,
            hop_count,
            dsr_path,
            dldsr_label_path,
            trace_path,
            created_at_millis,
        } => on_rreq(
            s,
            c,
            src_node_id,
            dst_node_id,
            request_id,
            previous_hop,
            hop_count,
            dsr_path,
            dldsr_label_path,
            trace_path,
            created_at_millis,
            now,
        ),
        PacketModel::Rrep {
            src_node_id,
            dst_node_id,
            request_id,
            dsr_path,
            dldsr_label_path,
            trace_path,
            created_at_millis,
        } => on_rrep(
            s,
            c,
            sender,
            src_node_id,
            dst_node_id,
            request_id,
            dsr_path,
            dldsr_label_path,
            trace_path,
            created_at_millis,
            now,
        ),
        PacketModel::Data {
            src_node_id,
            dst_node_id,
            sequence,
            protocol_mode,
            route_cursor,
            dsr_path,
            dldsr_label_path,
            payload,
            created_at_millis,
        } => on_data(
            s,
            c,
            sender,
            src_node_id,
            dst_node_id,
            sequence,
            protocol_mode,
            route_cursor,
            dsr_path,
            dldsr_label_path,
            payload,
            created_at_millis,
            now,
        ),
        _ => (s, no_actions()),
    }
}

// ---------------------------------------------------------------------
// Commands and timers
// ---------------------------------------------------------------------

/// Sending `payload` to `dst`: along the cached route if there is one;
/// otherwise the payload is queued and, unless a discovery for `dst` is
/// already ongoing, route discovery starts.
pub open spec fn on_send(s: StateModel, c: NodeConfig, dst: u32, payload: Seq<u8>, now: u64) -> (
    StateModel,
    ActionsModel,
) {
    match shortest_route(routes_for(s.routes, dst), now) {
        Some(route) => origin_data(s, c, dst, payload, route, now),
        None => {
            let s1 = StateModel {
                pending: s.pending.push(PendingModel { dst_node_id: dst, payload }),
                ..s
            };
            if discovering(s.discoveries, dst) {
                (s1, no_actions())
            } else {
                start_discovery(s1, c, dst, 0, now)
            }
        },
    }
}

/// The queue without the payloads for `dst`.
pub open spec fn without_dst(queue: Seq<PendingModel>, dst: u32) -> Seq<PendingModel> {
    queue.filter(|p: PendingModel| p.dst_node_id != dst)
}

/// The number of queued payloads for `dst`.
pub open spec fn queued_for(queue: Seq<PendingModel>, dst: u32) -> nat {
    queue.filter(|p: PendingModel| p.dst_node_id == dst).len()
}

/// The discoveries whose last Rreq is at least `route_discovery_timeout_ms` old at `now`.
pub open spec fn expired(ds: Seq<(u32, DiscoveryState)>, c: NodeConfig, now: u64) -> Seq<
    (u32, DiscoveryState),
> {
    ds.filter(
        |e: (u32, DiscoveryState)|
            (if now >= e.1.last_sent_millis {
                (now - e.1.last_sent_millis) as int
            } else {
                0int
            }) >= c.route_discovery_timeout_ms,
    )
}

/// One expired discovery: out of retries, it ends, its queued payloads
/// are dropped and the failure is reported; otherwise it is retried, its
/// new Rreq sent at `sent_at`.
pub open spec fn retry_one(s: StateModel, c: NodeConfig, dst: u32, d: DiscoveryState, sent_at: u64) -> (
    StateModel,
    ActionsModel,
) {
    if d.retries_done >= c.route_discovery_max_retries {
        let dropped = queued_for(s.pending, dst);
        let failed = EventModel::RouteDiscoveryFailed {
            node_id: c.node_id,
            dst_node_id: dst,
            attempts: vstd::wrapping::u32_specs::wrapping_add(d.retries_done, 1),
        };
        (
            StateModel {
                discoveries: remove_discovery(s.discoveries, dst),
                pending: without_dst(s.pending, dst),
                metrics: MetricsModel {
                    route_discovery_failures: wrap(s.metrics.route_discovery_failures, 1),
                    dropped_packets: wrap_n(s.metrics.dropped_packets, dropped),
                    data_dropped: wrap_n(s.metrics.data_dropped, dropped),
                    ..s.metrics
                },
                ..s
            },
            reports(
                if dropped > 0 {
                    seq![
                        failed,
                        EventModel::DataDropped {
                            node_id: c.node_id,
                            dst_node_id: dst,
                            reason: "route discovery failed"@,
                        },
                    ]
                } else {
                    seq![failed]
                },
            ),
        )
    } else {
        let (s1, a) = start_discovery(s, c, dst, (d.retries_done + 1) as u32, sent_at);
        (s1, sends(a.outbound))
    }
}

/// The expired discoveries `list`, handled in order; retries are sent at `sent_at`.
pub open spec fn retry_all(s: StateModel, c: NodeConfig, list: Seq<(u32, DiscoveryState)>, sent_at: u64) -> (
    StateModel,
    ActionsModel,
)
    decreases list.len(),
{
    if list.len() == 0 {
        (s, no_actions())
    } else {
        let (s1, a1) = retry_all(s, c, list.drop_last(), sent_at);
        let (s2, a2) = retry_one(s1, c, list.last().0, list.last().1, sent_at);
        (
            s2,
            ActionsModel {
                outbound: a1.outbound + a2.outbound,
                events: a1.events + a2.events,
            },
        )
    }
}

/// The periodic tick at `now`: old requests leave the duplicate cache,
/// then every discovery that timed out by `now` is retried (its new Rreq
/// sent at `sent_at`, the clock time of the retry) or given up.
pub open spec fn on_tick(s: StateModel, c: NodeConfig, now: u64, sent_at: u64) -> (StateModel, ActionsModel) {
    let s1 = StateModel { seen: prune_seen(s.seen, now, c.seen_request_ttl_ms), ..s };
    retry_all(s1, c, expired(s.discoveries, c, now), sent_at)
}

/// The periodic Hello to every logical neighbor with a known endpoint.
pub open spec fn hellos(c: NodeConfig, nbrs: Seq<u32>, now: u64) -> Seq<OutboundModel>
    decreases nbrs.len(),
{
    if nbrs.len() == 0 {
        Seq::empty()
    } else {
        let rest = hellos(c, nbrs.drop_last(), now);
        match endpoint_of(c, nbrs.last()) {
            Some(ep) => rest.push(
                OutboundModel {
                    packet: PacketModel::Hello { src_node_id: c.node_id, timestamp_millis: now },
                    dst: ep,
                },
            ),
            None => rest,
        }
    }
}

} // verus!
