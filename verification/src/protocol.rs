//! The protocol state machine of one node: it takes one event at a time
//! (a received packet, a send command, a timer tick) and returns the
//! packets to send and the events to report. The caller performs the I/O.
use vstd::prelude::*;
use crate::clock::now_millis;
use crate::metrics::{after_rx, after_tx, wrap, zero_metrics, MetricsModel, NodeMetrics};
use crate::packet::{is_control, wire_len, Packet, PacketModel, ProtocolMode};
use crate::protocol_spec::{
    are_adjacent, discovering, drop_data, endpoint_of, first_hop_endpoint, flood, flush, hellos,
    is_logical_neighbor, logical_neighbors, neighbor_with_label, no_actions, node_with_endpoint,
    on_hello, on_hello_reply, on_send, origin_data, put_discovery, remove_discovery, reports,
    sends, start_discovery, ActionsModel, DiscoveryState, EventModel, OutboundModel,
    PendingModel, StateModel,
};
use crate::route::{routes_for, shortest_route, RouteModel};
use crate::tables::{alive_labels_unique, law_alive_labels_unique, NeighborModel};
use crate::text::{ends_with_number, join2, join3, number_pair, with_number};
use crate::protocol_spec::{
    delivery_rejection, expired, on_data, on_packet, on_rreq, on_rrep, on_tick, queued_for,
    retry_all, retry_one, rrep_rejection, without_dst, wrap_n,
};
use crate::route::{copy_bytes, copy_ids, RouteCache, RouteEntry, SeenRequests};
use crate::tables::{LabelTable, NeighborTable};
use crate::topology::{node_of, Endpoint, NodeConfig, NodeModel};

verus! {

/// A request from the node's user.
#[derive(Debug)]
pub enum ProtocolCommand {
    /// Send `payload` to `dst_node_id`, discovering a route first if needed.
    DiscoverAndSend { dst_node_id: u32, payload: Vec<u8> },
}

/// Something that happened, for the node's user.
#[derive(Debug)]
pub enum ProtocolEvent {
    RouteCached { node_id: u32, dst_node_id: u32, request_id: u64 },
    DataDelivered {
        node_id: u32,
        src_node_id: u32,
        dst_node_id: u32,
        sequence: u64,
        payload: Vec<u8>,
    },
    RouteDiscoveryFailed { node_id: u32, dst_node_id: u32, attempts: u32 },
    DataDropped { node_id: u32, dst_node_id: u32, reason: String },
    RouteError { node_id: u32, dst_node_id: u32, reason: String },
}

impl View for ProtocolEvent {
    type V = EventModel;

    open spec fn view(&self) -> EventModel {
        match self {
            ProtocolEvent::RouteCached { node_id, dst_node_id, request_id } => EventModel::RouteCached {
                node_id: *node_id,
                dst_node_id: *dst_node_id,
                request_id: *request_id,
            },
            ProtocolEvent::DataDelivered { node_id, src_node_id, dst_node_id, sequence, payload } =>
                EventModel::DataDelivered {
                node_id: *node_id,
                src_node_id: *src_node_id,
                dst_node_id: *dst_node_id,
                sequence: *sequence,
                payload: payload@,
            },
            ProtocolEvent::RouteDiscoveryFailed { node_id, dst_node_id, attempts } =>
                EventModel::RouteDiscoveryFailed {
                node_id: *node_id,
                dst_node_id: *dst_node_id,
                attempts: *attempts,
            },
            ProtocolEvent::DataDropped { node_id, dst_node_id, reason } => EventModel::DataDropped {
                node_id: *node_id,
                dst_node_id: *dst_node_id,
                reason: reason@,
            },
            ProtocolEvent::RouteError { node_id, dst_node_id, reason } => EventModel::RouteError {
                node_id: *node_id,
                dst_node_id: *dst_node_id,
                reason: reason@,
            },
        }
    }
}

/// A packet to send, and where to.
#[derive(Debug)]
pub struct OutboundPacket {
    pub packet: Packet,
    pub dst: Endpoint,
}

impl View for OutboundPacket {
    type V = OutboundModel;

    open spec fn view(&self) -> OutboundModel {
        OutboundModel { packet: self.packet@, dst: self.dst@ }
    }
}

/// What handling one event produced.
#[derive(Debug)]
pub struct ProtocolActions {
    pub outbound: Vec<OutboundPacket>,
    pub events: Vec<ProtocolEvent>,
}

impl View for ProtocolActions {
    type V = ActionsModel;

    open spec fn view(&self) -> ActionsModel {
        ActionsModel {
            outbound: self.outbound@.map_values(|o: OutboundPacket| o@),
            events: self.events@.map_values(|e: ProtocolEvent| e@),
        }
    }
}

impl ProtocolActions {
    /// No packets, no events.
    pub fn new() -> (a: ProtocolActions)
        ensures
            a@ == no_actions(),
    {
        let a = ProtocolActions { outbound: Vec::new(), events: Vec::new() };
        assert(a@ =~= no_actions());
        a
    }

    /// Adds `packet`, to be sent to `dst`.
    pub fn send(&mut self, packet: Packet, dst: Endpoint)
        ensures
            final(self)@ == (ActionsModel {
                outbound: old(self)@.outbound.push(OutboundModel { packet: packet@, dst: dst@ }),
                events: old(self)@.events,
            }),
    {
        let ghost p = packet@;
        let ghost d = dst@;
        self.outbound.push(OutboundPacket { packet, dst });
        assert(self@.outbound =~= old(self)@.outbound.push(OutboundModel { packet: p, dst: d }));
        assert(self@.events =~= old(self)@.events);
    }

    /// Adds an event.
    fn report(&mut self, event: ProtocolEvent)
        ensures
            final(self)@ == (ActionsModel {
                outbound: old(self)@.outbound,
                events: old(self)@.events.push(event@),
            }),
    {
        let ghost e = event@;
        self.events.push(event);
        assert(self@.outbound =~= old(self)@.outbound);
        assert(self@.events =~= old(self)@.events.push(e));
    }

    /// Adds the packets of `more` after this one's; its events are left out.
    fn append_outbound(&mut self, more: ProtocolActions)
        ensures
            final(self)@ == (ActionsModel {
                outbound: old(self)@.outbound + more@.outbound,
                events: old(self)@.events,
            }),
    {
        let ghost extra = more@.outbound;
        let mut more_out = more.outbound;
        assert(more_out@.map_values(|o: OutboundPacket| o@) == extra);
        self.outbound.append(&mut more_out);
        assert(self@.outbound =~= old(self)@.outbound + extra);
        assert(self@.events =~= old(self)@.events);
    }
}

impl Default for ProtocolActions {
    fn default() -> (a: ProtocolActions)
        ensures
            a@ == no_actions(),
    {
        ProtocolActions::new()
    }
}

/// A payload waiting for a route.
#[derive(Debug)]
pub struct PendingData {
    pub dst_node_id: u32,
    pub payload: Vec<u8>,
}

impl View for PendingData {
    type V = PendingModel;

    open spec fn view(&self) -> PendingModel {
        PendingModel { dst_node_id: self.dst_node_id, payload: self.payload@ }
    }
}

/// Whether `x` occurs in `v`.
fn contains_id(v: &Vec<u32>, x: u32) -> (res: bool)
    ensures
        res == v@.contains(x),
{
    let mut i: usize = 0;
    while i < v.len()
        invariant
            i <= v@.len(),
            forall|j: int| 0 <= j < i ==> v@[j] != x,
        decreases v@.len() - i,
    {
        if v[i] == x {
            return true;
        }
        i = i + 1;
    }
    false
}

/// The first position of `x` in `v`.
fn position_of(v: &[u32], x: u32) -> (res: Option<usize>)
    ensures
        match res {
            Some(i) => v@.index_of_first(x) == Some(i as int),
            None => v@.index_of_first(x) is None,
        },
{
    proof {
        v@.index_of_first_ensures(x);
    }
    let mut i: usize = 0;
    while i < v.len()
        invariant
            i <= v@.len(),
            forall|j: int| 0 <= j < i ==> v@[j] != x,
        decreases v@.len() - i,
    {
        if v[i] == x {
            proof {
                v@.index_of_first_ensures(x);
                if let Some(k) = v@.index_of_first(x) {
                    if k < i {
                        assert(v@[k] != x);
                    } else if k > i {
                        assert(v@[i as int] == x);
                    }
                }
            }
            return Some(i);
        }
        i = i + 1;
    }
    proof {
        v@.index_of_first_ensures(x);
    }
    None
}

/// The entry just before the first occurrence of `current` in `trace_path`.
pub fn previous_in_trace(trace_path: &[u32], current: u32) -> (res: Option<u32>)
    ensures
        res == crate::protocol_spec::previous_in_trace(trace_path@, current),
{
    proof {
        trace_path@.index_of_first_ensures(current);
    }
    match position_of(trace_path, current) {
        Some(pos) => if pos >= 1 {
            Some(trace_path[pos - 1])
        } else {
            None
        },
        None => None,
    }
}

/// Whether `packet` is control traffic (Hello, HelloReply, Rreq, Rrep)
/// rather than data traffic.
pub fn is_control_packet(packet: &Packet) -> (res: bool)
    ensures
        res == is_control(packet@),
{
    match packet {
        Packet::Hello { .. } | Packet::HelloReply { .. } | Packet::Rreq { .. } | Packet::Rrep {
            ..
        } => true,
        _ => false,
    }
}

/// Skipping a node whose endpoint does not match keeps the first match.
proof fn lemma_node_with_endpoint_skip(nodes: Seq<NodeModel>, ep: Seq<char>, i: int)
    requires
        0 <= i < nodes.len(),
        nodes[i].endpoint != ep,
    ensures
        node_with_endpoint(nodes.skip(i), ep) == node_with_endpoint(nodes.skip(i + 1), ep),
{
    assert(nodes.skip(i).drop_first() =~= nodes.skip(i + 1));
}

/// The state of one protocol node.
#[derive(Debug)]
pub struct ProtocolState {
    pub config: NodeConfig,
    pub neighbors: NeighborTable,
    pub labels: LabelTable,
    pub routes: RouteCache,
    pub metrics: NodeMetrics,
    seen_requests: SeenRequests,
    pending_data: Vec<PendingData>,
    discoveries: Vec<(u32, DiscoveryState)>,
    next_request_id: u64,
    next_sequence: u64,
}

/// Ongoing discoveries are for distinct destinations.
pub open spec fn discoveries_distinct(ds: Seq<(u32, DiscoveryState)>) -> bool {
    forall|i: int, j: int|
        #![trigger ds[i], ds[j]]
        0 <= i < ds.len() && 0 <= j < ds.len() && ds[i].0 == ds[j].0 ==> i == j
}

/// The state of a node before its first event.
pub open spec fn initial_state() -> StateModel {
    StateModel {
        neighbors: Map::empty(),
        labels: Map::empty(),
        routes: Map::empty(),
        metrics: zero_metrics(),
        seen: Map::empty(),
        pending: Seq::empty(),
        discoveries: Seq::empty(),
        next_request_id: 1,
        next_sequence: 1,
    }
}

impl View for ProtocolState {
    type V = StateModel;

    closed spec fn view(&self) -> StateModel {
        StateModel {
            neighbors: self.neighbors@,
            labels: self.labels@,
            routes: self.routes@,
            metrics: self.metrics@,
            seen: self.seen_requests@,
            pending: self.pending_data@.map_values(|p: PendingData| p@),
            discoveries: self.discoveries@,
            next_request_id: self.next_request_id,
            next_sequence: self.next_sequence,
        }
    }
}

impl ProtocolState {
    /// The node's configuration.
    pub closed spec fn config_view(&self) -> NodeConfig {
        self.config
    }

    /// The state's invariant: the tables are well formed and at most one
    /// discovery runs per destination.
    pub closed spec fn wf(&self) -> bool {
        &&& self.neighbors.wf()
        &&& self.seen_requests.wf()
        &&& discoveries_distinct(self.discoveries@)
    }

    /// A fresh node with `config`.
    pub fn new(config: NodeConfig) -> (s: ProtocolState)
        ensures
            s.wf(),
            s.config_view() == config,
            s@ == initial_state(),
    {
        let s = ProtocolState {
            config,
            neighbors: NeighborTable::new(),
            labels: LabelTable::new(),
            routes: RouteCache::new(),
            metrics: NodeMetrics::new(),
            seen_requests: SeenRequests::new(),
            pending_data: Vec::new(),
            discoveries: Vec::new(),
            next_request_id: 1,
            next_sequence: 1,
        };
        assert(s@ =~= initial_state());
        s
    }

    /// The node's counters.
    pub fn metrics(&self) -> (m: &NodeMetrics)
        ensures
            m@ == self@.metrics,
    {
        &self.metrics
    }

    /// Counts a received packet of `bytes` bytes.
    pub fn record_rx(&mut self, bytes: usize)
        requires
            old(self).wf(),
        ensures
            final(self).wf(),
            final(self).config_view() == old(self).config_view(),
            final(self)@ == (StateModel { metrics: after_rx(old(self)@.metrics, bytes as u64), ..old(self)@ }),
    {
        self.metrics.record_rx(bytes);
        assert(self@ =~= (StateModel { metrics: after_rx(old(self)@.metrics, bytes as u64), ..old(self)@ }));
    }

    /// Counts a sent packet by its encoded size, as control or data traffic.
    pub fn record_tx(&mut self, packet: &Packet)
        requires
            old(self).wf(),
        ensures
            final(self).wf(),
            final(self).config_view() == old(self).config_view(),
            final(self)@ == (if wire_len(packet@) <= usize::MAX {
                StateModel {
                    metrics: after_tx(old(self)@.metrics, wire_len(packet@) as u64, is_control(packet@)),
                    ..old(self)@
                }
            } else {
                old(self)@
            }),
    {
        if let Ok(bytes) = packet.encoded_len() {
            self.metrics.record_tx(bytes, is_control_packet(packet));
            assert(self@ =~= StateModel {
                metrics: after_tx(old(self)@.metrics, wire_len(packet@) as u64, is_control(packet@)),
                ..old(self)@
            });
        }
    }

    /// Counts a packet that could not be sent.
    pub fn record_send_failure(&mut self)
        requires
            old(self).wf(),
        ensures
            final(self).wf(),
            final(self).config_view() == old(self).config_view(),
            final(self)@ == (StateModel {
                metrics: MetricsModel {
                    dropped_packets: wrap(old(self)@.metrics.dropped_packets, 1),
                    ..old(self)@.metrics
                },
                ..old(self)@
            }),
    {
        self.metrics.dropped_packets = self.metrics.dropped_packets.wrapping_add(1);
        assert(self@ =~= StateModel {
            metrics: MetricsModel {
                dropped_packets: wrap(old(self)@.metrics.dropped_packets, 1),
                ..old(self)@.metrics
            },
            ..old(self)@
        });
    }

    /// This node's logical neighbors.
    pub fn logical_neighbors(&self) -> (v: Vec<u32>)
        ensures
            v@ == logical_neighbors(self.config_view()),
    {
        match self.config.topology.node(self.config.node_id) {
            Some(n) => copy_ids(&n.neighbors),
            None => Vec::new(),
        }
    }

    /// Whether `node_id` is a logical neighbor of this node.
    fn is_logical_neighbor(&self, node_id: u32) -> (b: bool)
        ensures
            b == is_logical_neighbor(self.config, node_id),
    {
        match self.config.topology.node(self.config.node_id) {
            Some(n) => contains_id(&n.neighbors, node_id),
            None => false,
        }
    }

    /// The endpoint of node `node_id`.
    fn endpoint(&self, node_id: u32) -> (res: Option<Endpoint>)
        ensures
            match res {
                Some(e) => endpoint_of(self.config, node_id) == Some(e@),
                None => endpoint_of(self.config, node_id) is None,
            },
    {
        match self.config.topology.node(node_id) {
            Some(n) => Some(n.endpoint.clone()),
            None => None,
        }
    }

    /// The node whose endpoint is `endpoint`.
    fn node_id_by_endpoint(&self, endpoint: &Endpoint) -> (res: Option<u32>)
        ensures
            res == node_with_endpoint(self.config.topology@, endpoint@),
    {
        let ghost nodes = self.config.topology@;
        let mut i: usize = 0;
        assert(nodes.skip(0) =~= nodes);
        while i < self.config.topology.nodes.len()
            invariant
                i <= nodes.len(),
                nodes == self.config.topology@,
                node_with_endpoint(nodes, endpoint@) == node_with_endpoint(nodes.skip(i as int), endpoint@),
            decreases nodes.len() - i,
        {
            let n = &self.config.topology.nodes[i];
            if n.endpoint.same(endpoint) {
                assert(nodes.skip(i as int)[0] == nodes[i as int]);
                return Some(n.node_id);
            }
            proof {
                lemma_node_with_endpoint_skip(nodes, endpoint@, i as int);
            }
            i = i + 1;
        }
        assert(nodes.skip(i as int).len() == 0);
        None
    }

    /// Whether `right` is a topology neighbor of `left`.
    fn are_adjacent(&self, left: u32, right: u32) -> (b: bool)
        ensures
            b == are_adjacent(self.config, left, right),
    {
        match self.config.topology.node(left) {
            Some(n) => contains_id(&n.neighbors, right),
            None => false,
        }
    }

    /// The periodic Hello to each logical neighbor with a known endpoint.
    pub fn send_hellos(&self, now: u64) -> (a: ProtocolActions)
        ensures
            a@ == sends(hellos(self.config_view(), logical_neighbors(self.config_view()), now)),
    {
        let nbrs = self.logical_neighbors();
        let mut actions = ProtocolActions::new();
        let mut i: usize = 0;
        while i < nbrs.len()
            invariant
                i <= nbrs@.len(),
                nbrs@ == logical_neighbors(self.config),
                actions@ == sends(hellos(self.config, nbrs@.take(i as int), now)),
            decreases nbrs@.len() - i,
        {
            assert(nbrs@.take(i + 1).drop_last() =~= nbrs@.take(i as int));
            if let Some(ep) = self.endpoint(nbrs[i]) {
                actions.send(Packet::Hello { src_node_id: self.config.node_id, timestamp_millis: now }, ep);
            }
            i = i + 1;
            assert(actions@ =~= sends(hellos(self.config, nbrs@.take(i as int), now)));
        }
        assert(nbrs@.take(i as int) =~= nbrs@);
        actions
    }

    /// The endpoint of the alive neighbor holding `label`.
    fn neighbor_endpoint_by_label(&self, label: u8) -> (res: Option<(u32, Endpoint)>)
        requires
            self.wf(),
        ensures
            match res {
                Some((id, ep)) => neighbor_with_label(self@.neighbors, label) matches Some(e) && e.node_id == id && e.endpoint == ep@,
                None => neighbor_with_label(self@.neighbors, label) is None,
            },
    {
        proof {
            law_alive_labels_unique(&self.neighbors);
        }
        match self.neighbors.neighbor_by_label(label) {
            Some(e) => {
                proof {
                    lemma_neighbor_with_label(self@.neighbors, label, e.node_id);
                }
                Some((e.node_id, e.endpoint.clone()))
            },
            None => None,
        }
    }

    fn handle_hello(&mut self, src_node_id: u32, sender: Endpoint, now: u64) -> (a: ProtocolActions)
        requires
            old(self).wf(),
        ensures
            final(self).wf(),
            final(self).config_view() == old(self).config_view(),
            (final(self)@, a@) == on_hello(old(self)@, old(self).config_view(), src_node_id, sender@, now),
    {
        let mut actions = ProtocolActions::new();
        if !self.is_logical_neighbor(src_node_id) {
            return actions;
        }
        let ep = match self.endpoint(src_node_id) {
            Some(ep) => ep,
            None => return actions,
        };
        match self.neighbors.assign_or_reuse_label(src_node_id, ep.clone(), now) {
            Ok(label) => {
                actions.send(
                    Packet::HelloReply {
                        src_node_id: self.config.node_id,
                        dst_node_id: src_node_id,
                        assigned_label: label,
                        update_flag: true,
                        timestamp_millis: now,
                    },
                    ep,
                );
                assert(self@ =~= (StateModel { neighbors: self.neighbors@, ..old(self)@ }));
                actions
            },
            Err(_) => {
                assert(self@ =~= old(self)@);
                actions
            },
        }
    }

    fn handle_hello_reply(
        &mut self,
        src_node_id: u32,
        dst_node_id: u32,
        assigned_label: u8,
        timestamp_millis: u64,
    ) -> (a: ProtocolActions)
        requires
            old(self).wf(),
        ensures
            final(self).wf(),
            final(self).config_view() == old(self).config_view(),
            (final(self)@, a@) == on_hello_reply(
                old(self)@,
                old(self).config_view(),
                src_node_id,
                dst_node_id,
                assigned_label,
                timestamp_millis,
            ),
    {
        if dst_node_id == self.config.node_id && self.is_logical_neighbor(src_node_id) {
            self.labels.update_from_hello_reply(src_node_id, assigned_label, timestamp_millis);
            assert(self@ =~= (StateModel { labels: self.labels@, ..old(self)@ }));
        }
        ProtocolActions::new()
    }
}


/// With unique alive labels, the neighbor holding a label is the one found.
proof fn lemma_neighbor_with_label(m: Map<u32, NeighborModel>, label: u8, id: u32)
    requires
        alive_labels_unique(m),
        m.contains_key(id),
        m[id].alive,
        m[id].label == label,
    ensures
        neighbor_with_label(m, label) == Some(m[id]),
{
    let k = choose|k: u32| #[trigger] m.contains_key(k) && m[k].alive && m[k].label == label;
    assert(m.contains_key(k) && m[k].alive && m[k].label == label);
    assert(m[k].label == m[id].label);
}

/// A copy of a node-id path as a new vector.
fn ids_of(v: &[u32]) -> (c: Vec<u32>)
    ensures
        c@ == v@,
{
    let mut c: Vec<u32> = Vec::new();
    let mut i: usize = 0;
    while i < v.len()
        invariant
            i <= v@.len(),
            c@ == v@.take(i as int),
        decreases v@.len() - i,
    {
        c.push(v[i]);
        i = i + 1;
        assert(c@ =~= v@.take(i as int));
    }
    assert(v@.take(i as int) =~= v@);
    c
}

/// A Data packet.
fn data_packet(
    src_node_id: u32,
    dst_node_id: u32,
    sequence: u64,
    protocol_mode: ProtocolMode,
    route_cursor: usize,
    dsr_path: Vec<u32>,
    dldsr_label_path: Vec<u8>,
    payload: Vec<u8>,
    created_at_millis: u64,
) -> (p: Packet)
    ensures
        p@ == (PacketModel::Data {
            src_node_id,
            dst_node_id,
            sequence,
            protocol_mode,
            route_cursor,
            dsr_path: dsr_path@,
            dldsr_label_path: dldsr_label_path@,
            payload: payload@,
            created_at_millis,
        }),
{
    Packet::Data {
        src_node_id,
        dst_node_id,
        sequence,
        protocol_mode,
        route_cursor,
        dsr_path,
        dldsr_label_path,
        payload,
        created_at_millis,
    }
}

/// An Rreq packet with copies of the given paths.
fn rreq_packet(
    src_node_id: u32,
    dst_node_id: u32,
    request_id: u64,
    previous_hop: u32,
    hop_count: u8,
    dsr_path: &Vec<u32>,
    dldsr_label_path: &Vec<u8>,
    trace_path: &Vec<u32>,
    created_at_millis: u64,
) -> (p: Packet)
    ensures
        p@ == (PacketModel::Rreq {
            src_node_id,
            dst_node_id,
            request_id,
            previous_hop,
            hop_count,
            dsr_path: dsr_path@,
            dldsr_label_path: dldsr_label_path@,
            trace_path: trace_path@,
            created_at_millis,
        }),
{
    Packet::Rreq {
        src_node_id,
        dst_node_id,
        request_id,
        previous_hop,
        hop_count,
        dsr_path: copy_ids(dsr_path),
        dldsr_label_path: copy_bytes(dldsr_label_path),
        trace_path: copy_ids(trace_path),
        created_at_millis,
    }
}

/// Putting a discovery keeps destinations distinct.
proof fn lemma_put_discovery(ds: Seq<(u32, DiscoveryState)>, dst: u32, d: DiscoveryState, i: int)
    requires
        discoveries_distinct(ds),
        0 <= i < ds.len(),
        ds[i].0 == dst,
    ensures
        put_discovery(ds, dst, d) == ds.update(i, (dst, d)),
        discoveries_distinct(ds.update(i, (dst, d))),
{
    let k = choose|k: int| 0 <= k < ds.len() && (#[trigger] ds[k]).0 == dst;
    assert(ds[k].0 == ds[i].0);
    let t = ds.update(i, (dst, d));
    assert forall|a: int, b: int| 0 <= a < t.len() && 0 <= b < t.len() && (#[trigger] t[a]).0 == (#[trigger] t[b]).0 implies a == b by {
        assert(ds[a].0 == t[a].0);
        assert(ds[b].0 == t[b].0);
    }
}

impl ProtocolState {
    /// Drops a data packet for `dst_node_id` for `reason`.
    fn drop_data(&mut self, dst_node_id: u32, reason: String) -> (a: ProtocolActions)
        requires
            old(self).wf(),
        ensures
            final(self).wf(),
            final(self).config_view() == old(self).config_view(),
            (final(self)@, a@) == drop_data(old(self)@, old(self).config_view(), dst_node_id, reason@),
    {
        self.metrics.dropped_packets = self.metrics.dropped_packets.wrapping_add(1);
        self.metrics.data_dropped = self.metrics.data_dropped.wrapping_add(1);
        let mut actions = ProtocolActions::new();
        actions.report(
            ProtocolEvent::DataDropped {
                node_id: self.config.node_id,
                dst_node_id,
                reason: reason.clone(),
            },
        );
        actions.report(ProtocolEvent::RouteError { node_id: self.config.node_id, dst_node_id, reason });
        proof {
            let expect = drop_data(old(self)@, old(self).config_view(), dst_node_id, reason@);
            assert(self@ =~= expect.0);
            assert(actions@ =~= expect.1);
        }
        actions
    }

    /// The endpoint of a route's first hop (see [`first_hop_endpoint`]).
    fn next_data_endpoint(&self, route: &RouteEntry) -> (res: Option<Endpoint>)
        requires
            self.wf(),
        ensures
            match res {
                Some(e) => first_hop_endpoint(self@, self.config, route@) == Some(e@),
                None => first_hop_endpoint(self@, self.config, route@) is None,
            },
    {
        match self.config.protocol_mode {
            ProtocolMode::Dsr => if route.dsr_path.len() > 1 {
                self.endpoint(route.dsr_path[1])
            } else {
                None
            },
            ProtocolMode::DlDsr => if route.dldsr_label_path.len() > 0 {
                match self.neighbor_endpoint_by_label(route.dldsr_label_path[0]) {
                    Some((_, ep)) => Some(ep),
                    None => None,
                }
            } else {
                None
            },
        }
    }

    /// Sends `payload` to `dst_node_id` along `route` as its origin.
    fn origin_data(&mut self, dst_node_id: u32, payload: Vec<u8>, route: &RouteEntry, now: u64) -> (a:
        ProtocolActions)
        requires
            old(self).wf(),
        ensures
            final(self).wf(),
            final(self).config_view() == old(self).config_view(),
            (final(self)@, a@) == origin_data(
                old(self)@,
                old(self).config_view(),
                dst_node_id,
                payload@,
                route@,
                now,
            ),
    {
        let sequence = self.next_sequence;
        let hop = self.next_data_endpoint(route);
        self.next_sequence = self.next_sequence.wrapping_add(1);
        let ghost s1 = self@;
        let mut actions = ProtocolActions::new();
        match hop {
            Some(ep) => {
                let packet = data_packet(
                    self.config.node_id,
                    dst_node_id,
                    sequence,
                    self.config.protocol_mode,
                    1,
                    copy_ids(&route.dsr_path),
                    copy_bytes(&route.dldsr_label_path),
                    payload,
                    now,
                );
                actions.send(packet, ep);
                proof {
                    let expect = origin_data(old(self)@, old(self).config_view(), dst_node_id, payload@, route@, now);
                    assert(self@ =~= expect.0);
                    assert(actions@ =~= expect.1);
                }
                actions
            },
            None => {
                assert(s1 =~= StateModel { next_sequence: wrap(old(self)@.next_sequence, 1), ..old(self)@ });
                self.drop_data(dst_node_id, String::from_str("DATA origin next-hop lookup failed"))
            },
        }
    }

    /// Sends the queued payloads for `dst_node_id` along `route`, in queue
    /// order; the others stay queued. Only the packets are returned.
    fn flush_pending(&mut self, dst_node_id: u32, route: &RouteEntry, now: u64) -> (a: ProtocolActions)
        requires
            old(self).wf(),
        ensures
            final(self).wf(),
            final(self).config_view() == old(self).config_view(),
            ({
                let (s2, out, rest) = flush(
                    StateModel { pending: Seq::empty(), ..old(self)@ },
                    old(self).config_view(),
                    dst_node_id,
                    route@,
                    now,
                    old(self)@.pending,
                );
                &&& final(self)@ == StateModel { pending: rest, ..s2 }
                &&& a@ == sends(out)
            }),
    {
        let mut queue: Vec<PendingData> = Vec::new();
        std::mem::swap(&mut queue, &mut self.pending_data);
        let ghost q = queue@.map_values(|p: PendingData| p@);
        let ghost start = self@;
        let ghost c = self.config;
        assert(start =~= StateModel { pending: Seq::empty(), ..old(self)@ });
        assert(q == old(self)@.pending);
        let mut remaining: Vec<PendingData> = Vec::new();
        let mut actions = ProtocolActions::new();
        let mut i: usize = 0;
        while i < queue.len()
            invariant
                i <= queue@.len(),
                q == queue@.map_values(|p: PendingData| p@),
                self.wf(),
                self.config == c,
                ({
                    let (sk, outk, restk) = flush(start, c, dst_node_id, route@, now, q.take(i as int));
                    &&& self@ == sk
                    &&& actions@ == sends(outk)
                    &&& remaining@.map_values(|p: PendingData| p@) == restk
                }),
            decreases queue@.len() - i,
        {
            assert(q.take(i + 1).drop_last() =~= q.take(i as int));
            let ghost prev_out = actions@.outbound;
            let ghost prev_rest = remaining@.map_values(|p: PendingData| p@);
            let p = &queue[i];
            if p.dst_node_id == dst_node_id {
                let more = self.origin_data(dst_node_id, copy_bytes(&p.payload), route, now);
                actions.append_outbound(more);
            } else {
                remaining.push(PendingData { dst_node_id: p.dst_node_id, payload: copy_bytes(&p.payload) });
                assert(remaining@.map_values(|p: PendingData| p@) =~= prev_rest.push(q[i as int]));
            }
            i = i + 1;
            proof {
                let (sk, outk, restk) = flush(start, c, dst_node_id, route@, now, q.take(i as int));
                assert(actions@ =~= sends(outk));
                assert(remaining@.map_values(|p: PendingData| p@) =~= restk);
            }
        }
        assert(q.take(i as int) =~= q);
        self.pending_data = remaining;
        proof {
            let (s2, out, rest) = flush(start, c, dst_node_id, route@, now, q);
            assert(self@ =~= StateModel { pending: rest, ..s2 });
        }
        actions
    }

    /// The Rreq flood: one copy to each logical neighbor except `except`
    /// with a known endpoint.
    fn flood_rreq(
        &self,
        except: Option<u32>,
        src_node_id: u32,
        dst_node_id: u32,
        request_id: u64,
        previous_hop: u32,
        hop_count: u8,
        dsr_path: &Vec<u32>,
        dldsr_label_path: &Vec<u8>,
        trace_path: &Vec<u32>,
        created_at_millis: u64,
    ) -> (a: ProtocolActions)
        ensures
            a@ == sends(
                flood(
                    self.config,
                    logical_neighbors(self.config),
                    except,
                    PacketModel::Rreq {
                        src_node_id,
                        dst_node_id,
                        request_id,
                        previous_hop,
                        hop_count,
                        dsr_path: dsr_path@,
                        dldsr_label_path: dldsr_label_path@,
                        trace_path: trace_path@,
                        created_at_millis,
                    },
                ),
            ),
    {
        let ghost p = PacketModel::Rreq {
            src_node_id,
            dst_node_id,
            request_id,
            previous_hop,
            hop_count,
            dsr_path: dsr_path@,
            dldsr_label_path: dldsr_label_path@,
            trace_path: trace_path@,
            created_at_millis,
        };
        let nbrs = self.logical_neighbors();
        let mut actions = ProtocolActions::new();
        let mut i: usize = 0;
        while i < nbrs.len()
            invariant
                i <= nbrs@.len(),
                nbrs@ == logical_neighbors(self.config),
                actions@ == sends(flood(self.config, nbrs@.take(i as int), except, p)),
                p == (PacketModel::Rreq {
                    src_node_id,
                    dst_node_id,
                    request_id,
                    previous_hop,
                    hop_count,
                    dsr_path: dsr_path@,
                    dldsr_label_path: dldsr_label_path@,
                    trace_path: trace_path@,
                    created_at_millis,
                }),
            decreases nbrs@.len() - i,
        {
            assert(nbrs@.take(i + 1).drop_last() =~= nbrs@.take(i as int));
            let n = nbrs[i];
            assert(nbrs@.take(i + 1).last() == n);
            let skip = match except {
                Some(x) => x == n,
                None => false,
            };
            let ghost before = actions@;
            let ghost prev = flood(self.config, nbrs@.take(i as int), except, p);
            assert(before == sends(prev));
            if !skip {
                match self.endpoint(n) {
                    Some(ep) => {
                        assert(flood(self.config, nbrs@.take(i + 1), except, p) == prev.push(OutboundModel { packet: p, dst: ep@ }));
                        let packet = rreq_packet(
                            src_node_id,
                            dst_node_id,
                            request_id,
                            previous_hop,
                            hop_count,
                            dsr_path,
                            dldsr_label_path,
                            trace_path,
                            created_at_millis,
                        );
                        assert(packet@ == p);
                        let ghost e = ep@;
                        actions.send(packet, ep);
                        assert(actions@.outbound =~= prev.push(OutboundModel { packet: p, dst: e }));
                        assert(actions@.events =~= Seq::<EventModel>::empty());
                    },
                    None => {
                        assert(flood(self.config, nbrs@.take(i + 1), except, p) == prev);
                    },
                }
            } else {
                assert(flood(self.config, nbrs@.take(i + 1), except, p) == prev);
            }
            i = i + 1;
            assert(actions@ =~= sends(flood(self.config, nbrs@.take(i as int), except, p)));
        }
        assert(nbrs@.take(i as int) =~= nbrs@);
        actions
    }

    /// Records discovery `d` for `dst_node_id`, replacing an ongoing one in place.
    fn put_discovery(&mut self, dst_node_id: u32, d: DiscoveryState)
        requires
            discoveries_distinct(old(self).discoveries@),
        ensures
            discoveries_distinct(final(self).discoveries@),
            final(self).discoveries@ == put_discovery(old(self).discoveries@, dst_node_id, d),
            final(self).config_view() == old(self).config_view(),
            final(self).neighbors == old(self).neighbors,
            final(self).labels == old(self).labels,
            final(self).routes == old(self).routes,
            final(self).metrics == old(self).metrics,
            final(self).seen_requests == old(self).seen_requests,
            final(self).pending_data == old(self).pending_data,
            final(self).next_request_id == old(self).next_request_id,
            final(self).next_sequence == old(self).next_sequence,
    {
        let ghost ds = self.discoveries@;
        match self.discovery_index(dst_node_id) {
            Some(i) => {
                proof {
                    lemma_put_discovery(ds, dst_node_id, d, i as int);
                }
                self.discoveries.set(i, (dst_node_id, d));
            },
            None => {
                self.discoveries.push((dst_node_id, d));
                proof {
                    let t = self.discoveries@;
                    assert(t =~= ds.push((dst_node_id, d)));
                    assert forall|a: int, b: int|
                        0 <= a < t.len() && 0 <= b < t.len() && (#[trigger] t[a]).0 == (
                        #[trigger] t[b]).0 implies a == b by {
                        if a < ds.len() && b < ds.len() {
                            assert(ds[a].0 == ds[b].0);
                        } else if a < ds.len() {
                            assert(ds[a].0 != dst_node_id);
                        } else if b < ds.len() {
                            assert(ds[b].0 != dst_node_id);
                        }
                    }
                }
            },
        }
    }

    /// The position of the ongoing discovery for `dst_node_id`.
    fn discovery_index(&self, dst_node_id: u32) -> (res: Option<usize>)
        ensures
            match res {
                Some(i) => i < self.discoveries@.len() && self.discoveries@[i as int].0 == dst_node_id,
                None => forall|j: int|
                    0 <= j < self.discoveries@.len() ==> (#[trigger] self.discoveries@[j]).0
                        != dst_node_id,
            },
    {
        let mut i: usize = 0;
        while i < self.discoveries.len()
            invariant
                i <= self.discoveries@.len(),
                forall|j: int| 0 <= j < i ==> (#[trigger] self.discoveries@[j]).0 != dst_node_id,
            decreases self.discoveries@.len() - i,
        {
            if self.discoveries[i].0 == dst_node_id {
                return Some(i);
            }
            i = i + 1;
        }
        None
    }

    /// Starts (or retries) route discovery for `dst_node_id`.
    fn start_discovery(&mut self, dst_node_id: u32, retries_done: u32, now: u64) -> (a: ProtocolActions)
        requires
            old(self).wf(),
        ensures
            final(self).wf(),
            final(self).config_view() == old(self).config_view(),
            (final(self)@, a@) == start_discovery(
                old(self)@,
                old(self).config_view(),
                dst_node_id,
                retries_done,
                now,
            ),
    {
        let request_id = self.next_request_id;
        self.next_request_id = request_id.wrapping_add(1);
        let node = self.config.node_id;
        let ttl = self.config.seen_request_ttl_ms;
        let max = self.config.seen_request_max_entries;
        self.seen_requests.mark_if_new(node, request_id, now, ttl, max);
        self.put_discovery(
            dst_node_id,
            DiscoveryState { request_id, last_sent_millis: now, retries_done },
        );
        self.metrics.route_discovery_attempts = self.metrics.route_discovery_attempts.wrapping_add(1);
        let mut path: Vec<u32> = Vec::new();
        path.push(node);
        let no_labels: Vec<u8> = Vec::new();
        let actions = self.flood_rreq(None, node, dst_node_id, request_id, node, 0, &path, &no_labels, &path, now);
        proof {
            let expect = start_discovery(old(self)@, old(self).config_view(), dst_node_id, retries_done, now);
            assert(path@ =~= seq![node]);
            assert(no_labels@ =~= Seq::<u8>::empty());
            assert(self@ =~= expect.0);
            assert(actions@ =~= expect.1);
        }
        actions
    }

    /// Sends `payload` to `dst_node_id` at `now` (see [`on_send`]).
    fn discover_and_send(&mut self, dst_node_id: u32, payload: Vec<u8>, now: u64) -> (a: ProtocolActions)
        requires
            old(self).wf(),
        ensures
            final(self).wf(),
            final(self).config_view() == old(self).config_view(),
            (final(self)@, a@) == on_send(old(self)@, old(self).config_view(), dst_node_id, payload@, now),
    {
        let found = match self.routes.shortest(dst_node_id, now) {
            Some(r) => Some(r.duplicate()),
            None => None,
        };
        if let Some(route) = found {
            return self.origin_data(dst_node_id, payload, &route, now);
        }
        let ghost p = payload@;
        self.pending_data.push(PendingData { dst_node_id, payload });
        let ghost s1 = self@;
        assert(s1 =~= StateModel {
            pending: old(self)@.pending.push(PendingModel { dst_node_id, payload: p }),
            ..old(self)@
        });
        if let Some(i) = self.discovery_index(dst_node_id) {
            assert(discovering(self.discoveries@, dst_node_id));
            return ProtocolActions::new();
        }
        assert(!discovering(self.discoveries@, dst_node_id));
        self.start_discovery(dst_node_id, 0, now)
    }

    /// Handles a command at `now` (see [`on_send`]).
    pub fn handle_command_at(&mut self, command: ProtocolCommand, now: u64) -> (a: ProtocolActions)
        requires
            old(self).wf(),
        ensures
            final(self).wf(),
            final(self).config_view() == old(self).config_view(),
            match command {
                ProtocolCommand::DiscoverAndSend { dst_node_id, payload } => (final(self)@, a@)
                    == on_send(old(self)@, old(self).config_view(), dst_node_id, payload@, now),
            },
    {
        match command {
            ProtocolCommand::DiscoverAndSend { dst_node_id, payload } => self.discover_and_send(
                dst_node_id,
                payload,
                now,
            ),
        }
    }

    /// Handles a command at the current time.
    pub fn handle_command(&mut self, command: ProtocolCommand) -> (a: ProtocolActions)
        requires
            old(self).wf(),
        ensures
            final(self).wf(),
            final(self).config_view() == old(self).config_view(),
            match command {
                ProtocolCommand::DiscoverAndSend { dst_node_id, payload } => exists|now: u64|
                    (final(self)@, a@) == #[trigger] on_send(
                        old(self)@,
                        old(self).config_view(),
                        dst_node_id,
                        payload@,
                        now,
                    ),
            },
    {
        let now = now_millis();
        self.handle_command_at(command, now)
    }
}


/// Adding `n` with wrap-around is adding modulo 2^64.
proof fn lemma_wrap_n(x: u64, n: u64)
    ensures
        vstd::wrapping::u64_specs::wrapping_add(x, n) == wrap_n(x, n as nat),
{
    let t: int = x + n;
    if t > u64::MAX {
        assert((t - 0x1_0000_0000_0000_0000) % 0x1_0000_0000_0000_0000 == t % 0x1_0000_0000_0000_0000) by (nonlinear_arith);
        assert(0 <= t - 0x1_0000_0000_0000_0000 < 0x1_0000_0000_0000_0000);
    } else {
        assert(t % 0x1_0000_0000_0000_0000 == t) by (nonlinear_arith)
            requires 0 <= t < 0x1_0000_0000_0000_0000;
    }
}

impl ProtocolActions {
    /// Adds the packets and events of `more` after this one's.
    fn append(&mut self, more: ProtocolActions)
        ensures
            final(self)@ == (ActionsModel {
                outbound: old(self)@.outbound + more@.outbound,
                events: old(self)@.events + more@.events,
            }),
    {
        let ghost extra = more@;
        let mut more_out = more.outbound;
        let mut more_events = more.events;
        assert(more_out@.map_values(|o: OutboundPacket| o@) == extra.outbound);
        assert(more_events@.map_values(|e: ProtocolEvent| e@) == extra.events);
        self.outbound.append(&mut more_out);
        self.events.append(&mut more_events);
        assert(self@.outbound =~= old(self)@.outbound + extra.outbound);
        assert(self@.events =~= old(self)@.events + extra.events);
    }
}

/// `path` with `node` appended unless it already ends with it.
fn append_self(path: &mut Vec<u32>, node: u32)
    ensures
        final(path)@ == crate::protocol_spec::append_self(old(path)@, node),
{
    let n = path.len();
    if !(n > 0 && path[n - 1] == node) {
        path.push(node);
    }
}

impl ProtocolState {
    fn handle_rreq(
        &mut self,
        src_node_id: u32,
        dst_node_id: u32,
        request_id: u64,
        previous_hop: u32,
        hop_count: u8,
        dsr_path: Vec<u32>,
        dldsr_label_path: Vec<u8>,
        trace_path: Vec<u32>,
        created_at_millis: u64,
        now: u64,
    ) -> (a: ProtocolActions)
        requires
            old(self).wf(),
        ensures
            final(self).wf(),
            final(self).config_view() == old(self).config_view(),
            (final(self)@, a@) == on_rreq(
                old(self)@,
                old(self).config_view(),
                src_node_id,
                dst_node_id,
                request_id,
                previous_hop,
                hop_count,
                dsr_path@,
                dldsr_label_path@,
                trace_path@,
                created_at_millis,
                now,
            ),
    {
        let ghost s0 = self@;
        let ghost c = self.config;
        let ghost spec = on_rreq(
            s0,
            c,
            src_node_id,
            dst_node_id,
            request_id,
            previous_hop,
            hop_count,
            dsr_path@,
            dldsr_label_path@,
            trace_path@,
            created_at_millis,
            now,
        );
        let actions = ProtocolActions::new();
        if !self.is_logical_neighbor(previous_hop) {
            return actions;
        }
        if hop_count >= self.config.max_rreq_hops {
            self.metrics.rreq_dropped_ttl = self.metrics.rreq_dropped_ttl.wrapping_add(1);
            assert(self@ =~= spec.0);
            return actions;
        }
        let ttl = self.config.seen_request_ttl_ms;
        let max = self.config.seen_request_max_entries;
        let is_new = self.seen_requests.mark_if_new(src_node_id, request_id, now, ttl, max);
        if !is_new {
            self.metrics.rreq_dropped_duplicate = self.metrics.rreq_dropped_duplicate.wrapping_add(1);
            assert(self@ =~= spec.0);
            return actions;
        }
        let node = self.config.node_id;
        let mut dsr = dsr_path;
        append_self(&mut dsr, node);
        let mut trace = trace_path;
        append_self(&mut trace, node);
        let mut labels = dldsr_label_path;
        if self.config.protocol_mode == ProtocolMode::DlDsr {
            match self.labels.label_assigned_by_neighbor(previous_hop) {
                None => {
                    self.metrics.dropped_packets = self.metrics.dropped_packets.wrapping_add(1);
                    assert(self@ =~= spec.0);
                    return actions;
                },
                Some(label) => {
                    labels.push(label);
                },
            }
        }
        if node == dst_node_id {
            let mut actions = ProtocolActions::new();
            match previous_in_trace(&trace, node) {
                Some(back) => match self.endpoint(back) {
                    Some(ep) => {
                        actions.send(
                            Packet::Rrep {
                                src_node_id,
                                dst_node_id,
                                request_id,
                                dsr_path: dsr,
                                dldsr_label_path: labels,
                                trace_path: trace,
                                created_at_millis,
                            },
                            ep,
                        );
                    },
                    None => {},
                },
                None => {},
            }
            assert(self@ =~= spec.0);
            assert(actions@ =~= spec.1);
            return actions;
        }
        let fwd = self.flood_rreq(
            Some(previous_hop),
            src_node_id,
            dst_node_id,
            request_id,
            node,
            hop_count + 1,
            &dsr,
            &labels,
            &trace,
            created_at_millis,
        );
        let count = fwd.outbound.len() as u64;
        proof {
            lemma_wrap_n(self.metrics.rreq_forwarded, count);
        }
        self.metrics.rreq_forwarded = self.metrics.rreq_forwarded.wrapping_add(count);
        assert(self@ =~= spec.0);
        assert(fwd@ =~= spec.1);
        fwd
    }

    /// Why an Rrep from `sender` with `trace_path` is refused (see [`rrep_rejection`]).
    fn validate_rrep(&self, sender: &Endpoint, trace_path: &Vec<u32>) -> (res: Result<(), String>)
        ensures
            match res {
                Ok(()) => rrep_rejection(self.config, sender@, trace_path@) is None,
                Err(reason) => rrep_rejection(self.config, sender@, trace_path@) == Some(reason@),
            },
    {
        let sid = match self.node_id_by_endpoint(sender) {
            Some(id) => id,
            None => return Err(join3("RREP sender endpoint ", sender.as_str(), " is unknown")),
        };
        if !self.is_logical_neighbor(sid) {
            return Err(with_number("RREP sender node ", sid as u64, " is not a logical neighbor"));
        }
        proof {
            trace_path@.index_of_first_ensures(self.config.node_id);
        }
        let trace = trace_path.as_slice();
        let pos = match position_of(trace, self.config.node_id) {
            Some(p) => p,
            None => return Err(String::from_str("RREP trace_path does not include current node")),
        };
        assert(trace@ == trace_path@);
        assert(trace_path@.index_of_first(self.config.node_id) == Some(pos as int));
        let n = trace_path.len();
        assert(pos < n);
        if pos + 1 >= n {
            return Err(String::from_str("RREP current node has no sender-side trace hop"));
        }
        let expected = trace_path[pos + 1];
        if sid != expected {
            return Err(
                number_pair(
                    "RREP sender node ",
                    sid as u64,
                    " does not match trace hop ",
                    expected as u64,
                ),
            );
        }
        if !self.are_adjacent(self.config.node_id, expected) {
            return Err(
                with_number(
                    "RREP sender trace hop ",
                    expected as u64,
                    " is not adjacent to current node",
                ),
            );
        }
        if pos >= 1 {
            let back = trace_path[pos - 1];
            if !self.are_adjacent(self.config.node_id, back) {
                return Err(
                    with_number(
                        "RREP reverse next hop ",
                        back as u64,
                        " is not adjacent to current node",
                    ),
                );
            }
        }
        Ok(())
    }

    /// Ends the discovery for `dst_node_id`, if one is ongoing.
    fn remove_discovery(&mut self, dst_node_id: u32)
        requires
            old(self).wf(),
        ensures
            final(self).wf(),
            final(self).config_view() == old(self).config_view(),
            final(self)@ == (StateModel {
                discoveries: remove_discovery(old(self)@.discoveries, dst_node_id),
                ..old(self)@
            }),
    {
        let ghost ds = self.discoveries@;
        let mut kept: Vec<(u32, DiscoveryState)> = Vec::new();
        let mut i: usize = 0;
        while i < self.discoveries.len()
            invariant
                i <= ds.len(),
                self.discoveries@ == ds,
                discoveries_distinct(ds),
                kept@ == remove_discovery(ds.take(i as int), dst_node_id),
                forall|j: int| 0 <= j < kept@.len() ==> exists|k: int| 0 <= k < i && #[trigger] kept@[j] == ds[k],
                discoveries_distinct(kept@),
            decreases ds.len() - i,
        {
            proof {
                reveal_with_fuel(Seq::<(u32, DiscoveryState)>::filter, 1);
                assert(ds.take(i + 1).drop_last() =~= ds.take(i as int));
            }
            let e = self.discoveries[i];
            let ghost before = kept@;
            if e.0 != dst_node_id {
                kept.push(e);
                proof {
                    assert forall|a: int, b: int| 0 <= a < kept@.len() && 0 <= b < kept@.len() && (#[trigger] kept@[a]).0 == (#[trigger] kept@[b]).0 implies a == b by {
                        if a < before.len() && b == before.len() {
                            let k = choose|k: int| 0 <= k < i && #[trigger] before[a] == ds[k];
                            assert(ds[k].0 == ds[i as int].0);
                        } else if b < before.len() && a == before.len() {
                            let k = choose|k: int| 0 <= k < i && #[trigger] before[b] == ds[k];
                            assert(ds[k].0 == ds[i as int].0);
                        } else if a < before.len() && b < before.len() {
                            assert(before[a].0 == before[b].0);
                        }
                    }
                    assert forall|j: int| 0 <= j < kept@.len() implies exists|k: int| 0 <= k < i + 1 && #[trigger] kept@[j] == ds[k] by {
                        if j < before.len() {
                            let k = choose|k: int| 0 <= k < i && #[trigger] before[j] == ds[k];
                            assert(kept@[j] == ds[k]);
                        } else {
                            assert(kept@[j] == ds[i as int]);
                        }
                    }
                }
            }
            i = i + 1;
        }
        assert(ds.take(i as int) =~= ds);
        self.discoveries = kept;
        assert(self@ =~= (StateModel {
            discoveries: remove_discovery(old(self)@.discoveries, dst_node_id),
            ..old(self)@
        }));
    }

    fn handle_rrep(
        &mut self,
        sender: Endpoint,
        src_node_id: u32,
        dst_node_id: u32,
        request_id: u64,
        dsr_path: Vec<u32>,
        dldsr_label_path: Vec<u8>,
        trace_path: Vec<u32>,
        created_at_millis: u64,
        now: u64,
    ) -> (a: ProtocolActions)
        requires
            old(self).wf(),
        ensures
            final(self).wf(),
            final(self).config_view() == old(self).config_view(),
            (final(self)@, a@) == on_rrep(
                old(self)@,
                old(self).config_view(),
                sender@,
                src_node_id,
                dst_node_id,
                request_id,
                dsr_path@,
                dldsr_label_path@,
                trace_path@,
                created_at_millis,
                now,
            ),
    {
        let ghost s0 = self@;
        let ghost c = self.config;
        let ghost spec = on_rrep(
            s0,
            c,
            sender@,
            src_node_id,
            dst_node_id,
            request_id,
            dsr_path@,
            dldsr_label_path@,
            trace_path@,
            created_at_millis,
            now,
        );
        let mut actions = ProtocolActions::new();
        if let Err(reason) = self.validate_rrep(&sender, &trace_path) {
            self.metrics.rrep_dropped_invalid = self.metrics.rrep_dropped_invalid.wrapping_add(1);
            actions.report(
                ProtocolEvent::RouteError { node_id: self.config.node_id, dst_node_id, reason },
            );
            assert(self@ =~= spec.0);
            assert(actions@ =~= spec.1);
            return actions;
        }
        let node = self.config.node_id;
        if node == src_node_id {
            let expires = now.wrapping_add(self.config.route_cache_ttl_ms);
            let route = match self.config.protocol_mode {
                ProtocolMode::Dsr => RouteEntry::new_dsr(dst_node_id, dsr_path, expires),
                ProtocolMode::DlDsr => RouteEntry {
                    dst_node_id,
                    dsr_path,
                    dldsr_label_path,
                    expires_at_millis: expires,
                },
            };
            self.routes.insert(route.duplicate());
            self.remove_discovery(dst_node_id);
            self.metrics.route_discovery_successes = self.metrics.route_discovery_successes.wrapping_add(1);
            proof {
                let route_m = crate::protocol_spec::route_from_rrep(c, dst_node_id, dsr_path@, dldsr_label_path@, now);
                assert(route@ == route_m);
                assert(StateModel { pending: Seq::empty(), ..self@ } =~= StateModel {
                    routes: s0.routes.insert(dst_node_id, routes_for(s0.routes, dst_node_id).push(route_m)),
                    discoveries: remove_discovery(s0.discoveries, dst_node_id),
                    metrics: MetricsModel {
                        route_discovery_successes: wrap(s0.metrics.route_discovery_successes, 1),
                        ..s0.metrics
                    },
                    pending: Seq::empty(),
                    ..s0
                });
            }
            let mut flushed = self.flush_pending(dst_node_id, &route, now);
            flushed.report(ProtocolEvent::RouteCached { node_id: node, dst_node_id, request_id });
            assert(self@ =~= spec.0);
            assert(flushed@ =~= spec.1);
            return flushed;
        }
        match previous_in_trace(&trace_path, node) {
            Some(back) => match self.endpoint(back) {
                Some(ep) => {
                    self.metrics.rrep_forwarded = self.metrics.rrep_forwarded.wrapping_add(1);
                    actions.send(
                        Packet::Rrep {
                            src_node_id,
                            dst_node_id,
                            request_id,
                            dsr_path,
                            dldsr_label_path,
                            trace_path,
                            created_at_millis,
                        },
                        ep,
                    );
                },
                None => {},
            },
            None => {},
        }
        assert(self@ =~= spec.0);
        assert(actions@ =~= spec.1);
        actions
    }
}


impl ProtocolState {
    /// Why a Data packet at its destination is refused (see [`delivery_rejection`]).
    fn validate_data_delivery(
        &self,
        sender_node_id: u32,
        protocol_mode: ProtocolMode,
        route_cursor: usize,
        dsr_path: &Vec<u32>,
        dldsr_label_path: &Vec<u8>,
    ) -> (res: Result<(), String>)
        ensures
            match res {
                Ok(()) => delivery_rejection(
                    self.config,
                    sender_node_id,
                    protocol_mode,
                    route_cursor,
                    dsr_path@,
                    dldsr_label_path@,
                ) is None,
                Err(reason) => delivery_rejection(
                    self.config,
                    sender_node_id,
                    protocol_mode,
                    route_cursor,
                    dsr_path@,
                    dldsr_label_path@,
                ) == Some(reason@),
            },
    {
        let node = self.config.node_id;
        match protocol_mode {
            ProtocolMode::Dsr => {
                let n = dsr_path.len();
                if !(n > 0 && dsr_path[n - 1] == node) {
                    return Err(String::from_str("DATA DSR path does not end at destination"));
                }
                proof {
                    dsr_path@.index_of_first_ensures(node);
                }
                let path = dsr_path.as_slice();
                let pos = match position_of(path, node) {
                    Some(p) => p,
                    None => return Err(String::from_str("DATA DSR path does not include destination")),
                };
                assert(path@ == dsr_path@);
                assert(pos < n);
                if route_cursor != pos {
                    return Err(
                        number_pair(
                            "DATA DSR delivery cursor ",
                            route_cursor as u64,
                            " does not match destination position ",
                            pos as u64,
                        ),
                    );
                }
                if pos < 1 {
                    return Err(String::from_str("DATA DSR destination has no previous hop"));
                }
                let previous = dsr_path[pos - 1];
                if previous != sender_node_id {
                    return Err(
                        number_pair(
                            "DATA DSR sender ",
                            sender_node_id as u64,
                            " does not match previous hop ",
                            previous as u64,
                        ),
                    );
                }
                Ok(())
            },
            ProtocolMode::DlDsr => {
                if route_cursor != dldsr_label_path.len() {
                    return Err(
                        number_pair(
                            "DATA DL-DSR delivery cursor ",
                            route_cursor as u64,
                            " does not equal label path length ",
                            dldsr_label_path.len() as u64,
                        ),
                    );
                }
                Ok(())
            },
        }
    }

    fn handle_data(
        &mut self,
        sender: Endpoint,
        src_node_id: u32,
        dst_node_id: u32,
        sequence: u64,
        protocol_mode: ProtocolMode,
        route_cursor: usize,
        dsr_path: Vec<u32>,
        dldsr_label_path: Vec<u8>,
        payload: Vec<u8>,
        created_at_millis: u64,
        now: u64,
    ) -> (a: ProtocolActions)
        requires
            old(self).wf(),
        ensures
            final(self).wf(),
            final(self).config_view() == old(self).config_view(),
            (final(self)@, a@) == on_data(
                old(self)@,
                old(self).config_view(),
                sender@,
                src_node_id,
                dst_node_id,
                sequence,
                protocol_mode,
                route_cursor,
                dsr_path@,
                dldsr_label_path@,
                payload@,
                created_at_millis,
                now,
            ),
    {
        let ghost s0 = self@;
        let ghost c = self.config;
        let ghost spec = on_data(
            s0,
            c,
            sender@,
            src_node_id,
            dst_node_id,
            sequence,
            protocol_mode,
            route_cursor,
            dsr_path@,
            dldsr_label_path@,
            payload@,
            created_at_millis,
            now,
        );
        let node = self.config.node_id;
        if self.config.strict_protocol_mode && protocol_mode != self.config.protocol_mode {
            let packet_mode = protocol_mode.name();
            let node_mode = self.config.protocol_mode.name();
            let head = join3("protocol mode mismatch: packet=", packet_mode.as_str(), ", node=");
            return self.drop_data(dst_node_id, join2(head.as_str(), node_mode.as_str()));
        }
        let sender_node_id = match self.node_id_by_endpoint(&sender) {
            Some(id) => id,
            None => {
                return self.drop_data(
                    dst_node_id,
                    join3("DATA sender endpoint ", sender.as_str(), " is unknown"),
                );
            },
        };
        if !self.is_logical_neighbor(sender_node_id) {
            return self.drop_data(
                dst_node_id,
                with_number("DATA sender node ", sender_node_id as u64, " is not a logical neighbor"),
            );
        }
        if dst_node_id == node {
            if let Err(reason) = self.validate_data_delivery(
                sender_node_id,
                protocol_mode,
                route_cursor,
                &dsr_path,
                &dldsr_label_path,
            ) {
                return self.drop_data(dst_node_id, reason);
            }
            let latency_ms = now.saturating_sub(created_at_millis);
            self.metrics.delivered_packets = self.metrics.delivered_packets.wrapping_add(1);
            self.metrics.data_delivered = self.metrics.data_delivered.wrapping_add(1);
            self.metrics.latency_samples_ms.push(latency_ms);
            let mut actions = ProtocolActions::new();
            actions.report(
                ProtocolEvent::DataDelivered {
                    node_id: node,
                    src_node_id,
                    dst_node_id,
                    sequence,
                    payload,
                },
            );
            assert(self@ =~= spec.0);
            assert(actions@ =~= spec.1);
            return actions;
        }
        match protocol_mode {
            ProtocolMode::Dsr => {
                if !(route_cursor < dsr_path.len() && dsr_path[route_cursor] == node) {
                    return self.drop_data(dst_node_id, String::from_str("DATA DSR cursor mismatch"));
                }
                if route_cursor + 1 >= dsr_path.len() {
                    return self.drop_data(dst_node_id, String::from_str("DATA DSR route exhausted"));
                }
                let next = dsr_path[route_cursor + 1];
                if !self.is_logical_neighbor(next) {
                    return self.drop_data(
                        dst_node_id,
                        with_number("DATA DSR next hop ", next as u64, " is not a logical neighbor"),
                    );
                }
                let mut actions = ProtocolActions::new();
                if let Some(ep) = self.endpoint(next) {
                    self.metrics.data_forwarded = self.metrics.data_forwarded.wrapping_add(1);
                    actions.send(
                        data_packet(
                            src_node_id,
                            dst_node_id,
                            sequence,
                            protocol_mode,
                            route_cursor + 1,
                            dsr_path,
                            dldsr_label_path,
                            payload,
                            created_at_millis,
                        ),
                        ep,
                    );
                }
                assert(self@ =~= spec.0);
                assert(actions@ =~= spec.1);
                actions
            },
            ProtocolMode::DlDsr => {
                if route_cursor >= dldsr_label_path.len() {
                    return self.drop_data(
                        dst_node_id,
                        String::from_str("DATA DL-DSR label path exhausted"),
                    );
                }
                let label = dldsr_label_path[route_cursor];
                let (next_id, ep) = match self.neighbor_endpoint_by_label(label) {
                    Some(found) => found,
                    None => {
                        return self.drop_data(
                            dst_node_id,
                            with_number("DATA DL-DSR label ", label as u64, " lookup failed"),
                        );
                    },
                };
                if !self.is_logical_neighbor(next_id) {
                    return self.drop_data(
                        dst_node_id,
                        with_number(
                            "DATA DL-DSR next hop ",
                            next_id as u64,
                            " is not a logical neighbor",
                        ),
                    );
                }
                self.metrics.data_forwarded = self.metrics.data_forwarded.wrapping_add(1);
                let mut actions = ProtocolActions::new();
                actions.send(
                    data_packet(
                        src_node_id,
                        dst_node_id,
                        sequence,
                        protocol_mode,
                        route_cursor + 1,
                        dsr_path,
                        dldsr_label_path,
                        payload,
                        created_at_millis,
                    ),
                    ep,
                );
                assert(self@ =~= spec.0);
                assert(actions@ =~= spec.1);
                actions
            },
        }
    }
}


impl ProtocolState {
    /// Drops the queued payloads for `dst_node_id` and returns how many there were.
    fn drop_pending_for_dst(&mut self, dst_node_id: u32) -> (dropped: usize)
        requires
            old(self).wf(),
        ensures
            final(self).wf(),
            final(self).config_view() == old(self).config_view(),
            final(self)@ == (StateModel {
                pending: without_dst(old(self)@.pending, dst_node_id),
                ..old(self)@
            }),
            dropped == queued_for(old(self)@.pending, dst_node_id),
    {
        let mut queue: Vec<PendingData> = Vec::new();
        std::mem::swap(&mut queue, &mut self.pending_data);
        let ghost q = queue@.map_values(|p: PendingData| p@);
        assert(q == old(self)@.pending);
        let mut remaining: Vec<PendingData> = Vec::new();
        let mut dropped: usize = 0;
        let mut i: usize = 0;
        while i < queue.len()
            invariant
                i <= queue@.len(),
                q == queue@.map_values(|p: PendingData| p@),
                dropped <= i,
                remaining@.map_values(|p: PendingData| p@) == without_dst(q.take(i as int), dst_node_id),
                dropped == queued_for(q.take(i as int), dst_node_id),
            decreases queue@.len() - i,
        {
            proof {
                reveal_with_fuel(Seq::<PendingModel>::filter, 1);
                assert(q.take(i + 1).drop_last() =~= q.take(i as int));
            }
            let ghost prev = remaining@.map_values(|p: PendingData| p@);
            let p = &queue[i];
            if p.dst_node_id == dst_node_id {
                dropped = dropped + 1;
            } else {
                remaining.push(PendingData { dst_node_id: p.dst_node_id, payload: copy_bytes(&p.payload) });
                assert(remaining@.map_values(|p: PendingData| p@) =~= prev.push(q[i as int]));
            }
            i = i + 1;
        }
        assert(q.take(i as int) =~= q);
        self.pending_data = remaining;
        assert(self@ =~= (StateModel {
            pending: without_dst(old(self)@.pending, dst_node_id),
            ..old(self)@
        }));
        dropped
    }

    /// The discoveries that timed out at `now`, in order.
    fn expired_discoveries(&self, now: u64) -> (list: Vec<(u32, DiscoveryState)>)
        ensures
            list@ == expired(self.discoveries@, self.config, now),
    {
        let ghost ds = self.discoveries@;
        let mut list: Vec<(u32, DiscoveryState)> = Vec::new();
        let mut i: usize = 0;
        while i < self.discoveries.len()
            invariant
                i <= ds.len(),
                ds == self.discoveries@,
                list@ == expired(ds.take(i as int), self.config, now),
            decreases ds.len() - i,
        {
            proof {
                reveal_with_fuel(Seq::<(u32, DiscoveryState)>::filter, 1);
                assert(ds.take(i + 1).drop_last() =~= ds.take(i as int));
            }
            let e = self.discoveries[i];
            if now.saturating_sub(e.1.last_sent_millis) >= self.config.route_discovery_timeout_ms {
                list.push(e);
            }
            i = i + 1;
        }
        assert(ds.take(i as int) =~= ds);
        list
    }

    /// One timed-out discovery (see [`retry_one`]).
    fn retry_one(&mut self, dst_node_id: u32, d: DiscoveryState, sent_at: u64) -> (a: ProtocolActions)
        requires
            old(self).wf(),
        ensures
            final(self).wf(),
            final(self).config_view() == old(self).config_view(),
            (final(self)@, a@) == retry_one(old(self)@, old(self).config_view(), dst_node_id, d, sent_at),
    {
        let ghost s0 = self@;
        let ghost spec = retry_one(s0, self.config, dst_node_id, d, sent_at);
        if d.retries_done >= self.config.route_discovery_max_retries {
            self.remove_discovery(dst_node_id);
            let dropped = self.drop_pending_for_dst(dst_node_id);
            self.metrics.route_discovery_failures = self.metrics.route_discovery_failures.wrapping_add(1);
            proof {
                lemma_wrap_n(self.metrics.dropped_packets, dropped as u64);
                lemma_wrap_n(self.metrics.data_dropped, dropped as u64);
            }
            self.metrics.dropped_packets = self.metrics.dropped_packets.wrapping_add(dropped as u64);
            self.metrics.data_dropped = self.metrics.data_dropped.wrapping_add(dropped as u64);
            let mut actions = ProtocolActions::new();
            actions.report(
                ProtocolEvent::RouteDiscoveryFailed {
                    node_id: self.config.node_id,
                    dst_node_id,
                    attempts: d.retries_done.wrapping_add(1),
                },
            );
            if dropped > 0 {
                actions.report(
                    ProtocolEvent::DataDropped {
                        node_id: self.config.node_id,
                        dst_node_id,
                        reason: String::from_str("route discovery failed"),
                    },
                );
            }
            assert(self@ =~= spec.0);
            assert(actions@ =~= spec.1);
            actions
        } else {
            let a = self.start_discovery(dst_node_id, d.retries_done + 1, sent_at);
            assert(a@ =~= spec.1);
            a
        }
    }

    /// The periodic tick at `now`, with retried route requests sent at
    /// `sent_at` (see [`on_tick`]).
    pub fn handle_tick_at(&mut self, now: u64, sent_at: u64) -> (a: ProtocolActions)
        requires
            old(self).wf(),
        ensures
            final(self).wf(),
            final(self).config_view() == old(self).config_view(),
            (final(self)@, a@) == on_tick(old(self)@, old(self).config_view(), now, sent_at),
    {
        let ttl = self.config.seen_request_ttl_ms;
        self.seen_requests.prune(now, ttl);
        let ghost s1 = self@;
        let ghost c = self.config;
        let list = self.expired_discoveries(now);
        let mut actions = ProtocolActions::new();
        let mut i: usize = 0;
        while i < list.len()
            invariant
                i <= list@.len(),
                self.wf(),
                self.config == c,
                (self@, actions@) == retry_all(s1, c, list@.take(i as int), sent_at),
            decreases list@.len() - i,
        {
            assert(list@.take(i + 1).drop_last() =~= list@.take(i as int));
            let (dst, d) = list[i];
            let more = self.retry_one(dst, d, sent_at);
            actions.append(more);
            i = i + 1;
            proof {
                let (sk, ak) = retry_all(s1, c, list@.take(i as int), sent_at);
                assert(actions@ =~= ak);
            }
        }
        assert(list@.take(i as int) =~= list@);
        actions
    }

    /// The periodic tick at `now`; timed-out discoveries are retried with
    /// route requests stamped by the clock at the retry.
    pub fn handle_tick(&mut self, now: u64) -> (a: ProtocolActions)
        requires
            old(self).wf(),
        ensures
            final(self).wf(),
            final(self).config_view() == old(self).config_view(),
            exists|sent_at: u64|
                (final(self)@, a@) == #[trigger] on_tick(old(self)@, old(self).config_view(), now, sent_at),
    {
        let sent_at = now_millis();
        self.handle_tick_at(now, sent_at)
    }

    /// Handles a packet received from `sender` at `now` (see [`on_packet`]).
    pub fn handle_packet_at(&mut self, packet: Packet, sender: Endpoint, now: u64) -> (a: ProtocolActions)
        requires
            old(self).wf(),
        ensures
            final(self).wf(),
            final(self).config_view() == old(self).config_view(),
            (final(self)@, a@) == on_packet(old(self)@, old(self).config_view(), packet@, sender@, now),
    {
        match packet {
            Packet::Hello { src_node_id, .. } => self.handle_hello(src_node_id, sender, now),
            Packet::HelloReply { src_node_id, dst_node_id, assigned_label, timestamp_millis, .. } =>
                self.handle_hello_reply(src_node_id, dst_node_id, assigned_label, timestamp_millis),
            Packet::Rreq {
                src_node_id,
                dst_node_id,
                request_id,
                previous_hop,
                hop_count,
                dsr_path,
                dldsr_label_path,
                trace_path,
                created_at_millis,
            } => self.handle_rreq(
                src_node_id,
                dst_node_id,
                request_id,
                previous_hop,
                hop_count,
                dsr_path,
                dldsr_label_path,
                trace_path,
                created_at_millis,
                now,
            ),
            Packet::Rrep {
                src_node_id,
                dst_node_id,
                request_id,
                dsr_path,
                dldsr_label_path,
                trace_path,
                created_at_millis,
            } => self.handle_rrep(
                sender,
                src_node_id,
                dst_node_id,
                request_id,
                dsr_path,
                dldsr_label_path,
                trace_path,
                created_at_millis,
                now,
            ),
            Packet::Data {
                src_node_id,
                dst_node_id,
                sequence,
                protocol_mode,
                route_cursor,
                dsr_path,
                dldsr_label_path,
                payload,
                created_at_millis,
            } => self.handle_data(
                sender,
                src_node_id,
                dst_node_id,
                sequence,
                protocol_mode,
                route_cursor,
                dsr_path,
                dldsr_label_path,
                payload,
                created_at_millis,
                now,
            ),
            Packet::Ack { .. } | Packet::Error { .. } => ProtocolActions::new(),
        }
    }

    /// Handles a packet received from `sender` at the current time.
    pub fn handle_packet(&mut self, packet: Packet, sender: Endpoint) -> (a: ProtocolActions)
        requires
            old(self).wf(),
        ensures
            final(self).wf(),
            final(self).config_view() == old(self).config_view(),
            exists|now: u64|
                (final(self)@, a@) == #[trigger] on_packet(old(self)@, old(self).config_view(), packet@, sender@, now),
    {
        let now = now_millis();
        self.handle_packet_at(packet, sender, now)
    }
}

} // verus!
