//! Properties of the library that hold of all inputs or relate several
//! operations, stated over the models that the operations' contracts use.
use vstd::prelude::*;
use crate::error::DldsrError;
use crate::metrics::{
    after_tx,
    chain_model_fits,
    chain_report,
    link_transmissions,
    wrap,
    zero_metrics,
    MetricsModel,
};
use crate::packet::{header_bytes_per_hop, wire_len, PacketModel, ProtocolMode};
use crate::protocol_spec::{
    neighbor_with_label,
    are_adjacent,
    endpoint_of,
    discovering,
    node_with_endpoint,
    expired,
    flush,
    on_send,
    on_tick,
    retry_all,
    rrep_rejection,
    is_logical_neighbor,
    on_packet,
    queued_for,
    remove_discovery,
    retry_one,
    without_dst,
    DiscoveryState,
    EventModel,
    PendingModel,
    StateModel,
};
use crate::route::{
    evict_oldest,
    evicted_before,
    is_shortest_at,
    lemma_seen_finite,
    mark_seen,
    oldest_key,
    prune_seen,
    route_hops,
    routes_for,
    shortest_route,
    RequestKey,
    RouteModel,
    SeenRequests,
};
use crate::tables::{
    alive_labels_unique,
    assign_label,
    entries_consistent,
    label_in_use,
    lowest_free_label_from,
    LabelEntry,
    NeighborModel,
};
use crate::topology::NodeConfig;

verus! {

// ---------------------------------------------------------------------
// Labels
// ---------------------------------------------------------------------

/// The label that `lowest_free_label_from(m, from)` names is free, and
/// every label from `from` up to it is taken; where it names none, every
/// label from `from` on is taken.
proof fn lemma_lowest_free_label_from(m: Map<u32, NeighborModel>, from: int)
    requires
        1 <= from,
    ensures
        match lowest_free_label_from(m, from) {
            Some(l) => from <= l && !label_in_use(m, l) && forall|x: u8|
                from <= x < l ==> #[trigger] label_in_use(m, x),
            None => forall|x: u8| from <= x ==> #[trigger] label_in_use(m, x),
        },
    decreases 256 - from,
{
    if from > 255 {
    } else if !label_in_use(m, from as u8) {
    } else {
        lemma_lowest_free_label_from(m, from + 1);
        assert forall|x: u8| from <= x && x < from + 1 implies #[trigger] label_in_use(m, x) by {
            assert(x == from as u8);
        }
    }
}

/// A Hello from a neighbor already in the table keeps its label: that
/// label is the answer and stays stored.
pub proof fn law_known_neighbor_keeps_label(
    m: Map<u32, NeighborModel>,
    node_id: u32,
    endpoint: Seq<char>,
    now: u64,
)
    requires
        m.contains_key(node_id),
    ensures
        assign_label(m, node_id, endpoint, now).1 == Ok::<u8, DldsrError>(m[node_id].label),
        assign_label(m, node_id, endpoint, now).0.contains_key(node_id),
        assign_label(m, node_id, endpoint, now).0[node_id].label == m[node_id].label,
{
}

/// A Hello from a neighbor not yet in the table gets the lowest label in
/// `1..=255` that no alive neighbor holds; where every such label is held,
/// the answer is `LabelSpaceExhausted` and the table is unchanged.
pub proof fn law_new_neighbor_gets_lowest_free_label(
    m: Map<u32, NeighborModel>,
    node_id: u32,
    endpoint: Seq<char>,
    now: u64,
)
    requires
        !m.contains_key(node_id),
    ensures
        match assign_label(m, node_id, endpoint, now).1 {
            Ok(l) => {
                &&& 1 <= l
                &&& !label_in_use(m, l)
                &&& forall|x: u8| 1 <= x < l ==> #[trigger] label_in_use(m, x)
                &&& assign_label(m, node_id, endpoint, now).0.contains_key(node_id)
                &&& assign_label(m, node_id, endpoint, now).0[node_id].label == l
            },
            Err(e) => {
                &&& e == DldsrError::LabelSpaceExhausted
                &&& forall|x: u8| 1 <= x ==> #[trigger] label_in_use(m, x)
                &&& assign_label(m, node_id, endpoint, now).0 == m
            },
        },
{
    lemma_lowest_free_label_from(m, 1);
}

/// Assigning labels keeps them unique: where no two alive neighbors held
/// the same label before a Hello, none do after it.
pub proof fn law_assignment_keeps_labels_unique(
    m: Map<u32, NeighborModel>,
    node_id: u32,
    endpoint: Seq<char>,
    now: u64,
)
    requires
        alive_labels_unique(m),
        entries_consistent(m),
    ensures
        alive_labels_unique(assign_label(m, node_id, endpoint, now).0),
        entries_consistent(assign_label(m, node_id, endpoint, now).0),
{
    lemma_lowest_free_label_from(m, 1);
    let m2 = assign_label(m, node_id, endpoint, now).0;
    assert forall|a: u32, b: u32|
        m2.contains_key(a) && m2.contains_key(b) && m2[a].alive && m2[b].alive && #[trigger] m2[a].label
            == #[trigger] m2[b].label implies a == b by {
        if a != node_id && b != node_id {
            assert(m[a] == m2[a] && m[b] == m2[b]);
        } else if !m.contains_key(node_id) {
            if a == node_id && b != node_id {
                assert(m.contains_key(b) && m[b].alive && m[b].label == m2[a].label);
            } else if b == node_id && a != node_id {
                assert(m.contains_key(a) && m[a].alive && m[a].label == m2[b].label);
            }
        } else {
            if a == node_id && b != node_id {
                assert(m[b] == m2[b]);
            } else if b == node_id && a != node_id {
                assert(m[a] == m2[a]);
            }
        }
    }
}

/// Reading back the label a neighbor assigned to this node gives the
/// value last recorded for it; what is recorded for other neighbors is
/// untouched.
pub proof fn law_label_table_read_after_write(
    m: Map<u32, LabelEntry>,
    neighbor: u32,
    label: u8,
    now: u64,
    other: u32,
)
    requires
        other != neighbor,
    ensures
        ({
            let w = m.insert(
                neighbor,
                LabelEntry {
                    neighbor_node_id: neighbor,
                    label_assigned_by_neighbor_to_me: label,
                    last_seen_millis: now,
                },
            );
            &&& w.contains_key(neighbor)
            &&& w[neighbor].label_assigned_by_neighbor_to_me == label
            &&& w.contains_key(other) == m.contains_key(other)
            &&& m.contains_key(other) ==> w[other] == m[other]
        }),
{
}

// ---------------------------------------------------------------------
// Routes
// ---------------------------------------------------------------------

/// Where one route of `rs` is unexpired at `now`, a lookup has a pick.
proof fn lemma_shortest_exists(rs: Seq<RouteModel>, now: u64, j: int)
    requires
        0 <= j < rs.len(),
        rs[j].expires_at_millis >= now,
    ensures
        exists|i: int| is_shortest_at(rs, now, i),
    decreases rs.len(),
{
    let pre = rs.drop_last();
    let last = rs.len() - 1;
    assert forall|k: int| 0 <= k < pre.len() implies pre[k] == rs[k] by {}
    if exists|k: int| 0 <= k < pre.len() && #[trigger] pre[k].expires_at_millis >= now {
        let k = choose|k: int| 0 <= k < pre.len() && #[trigger] pre[k].expires_at_millis >= now;
        lemma_shortest_exists(pre, now, k);
        let i = choose|i: int| is_shortest_at(pre, now, i);
        assert(pre[i] == rs[i]);
        if rs[last].expires_at_millis >= now && route_hops(rs[last]) < route_hops(rs[i]) {
            assert forall|x: int|
                0 <= x < rs.len() && #[trigger] rs[x].expires_at_millis >= now implies route_hops(
                rs[last],
            ) <= route_hops(rs[x]) by {
                if x < last {
                    assert(pre[x] == rs[x]);
                }
            }
            assert forall|x: int|
                0 <= x < last && #[trigger] rs[x].expires_at_millis >= now implies route_hops(rs[x])
                > route_hops(rs[last]) by {
                assert(pre[x] == rs[x]);
            }
            assert(is_shortest_at(rs, now, last));
        } else {
            assert forall|x: int|
                0 <= x < rs.len() && #[trigger] rs[x].expires_at_millis >= now implies route_hops(
                rs[i],
            ) <= route_hops(rs[x]) by {
                if x < last {
                    assert(pre[x] == rs[x]);
                }
            }
            assert forall|x: int|
                0 <= x < i && #[trigger] rs[x].expires_at_millis >= now implies route_hops(rs[x])
                > route_hops(rs[i]) by {
                assert(pre[x] == rs[x]);
            }
            assert(is_shortest_at(rs, now, i));
        }
    } else {
        assert(j == last) by {
            if j < last {
                assert(pre[j].expires_at_millis >= now);
            }
        }
        assert forall|x: int|
            0 <= x < last implies #[trigger] rs[x].expires_at_millis < now by {
            assert(pre[x] == rs[x]);
            if rs[x].expires_at_millis >= now {
                assert(pre[x].expires_at_millis >= now);
            }
        }
        assert(is_shortest_at(rs, now, last));
    }
}

/// A lookup at `now` never picks an expired route nor one with more hops
/// than an unexpired cached route, and it picks one of the cached routes;
/// it finds none only where every cached route has expired.
pub proof fn law_lookup_picks_unexpired_shortest(rs: Seq<RouteModel>, now: u64)
    ensures
        match shortest_route(rs, now) {
            Some(r) => {
                &&& rs.contains(r)
                &&& r.expires_at_millis >= now
                &&& forall|j: int|
                    0 <= j < rs.len() && #[trigger] rs[j].expires_at_millis >= now ==> route_hops(r)
                        <= route_hops(rs[j])
            },
            None => forall|j: int| 0 <= j < rs.len() ==> #[trigger] rs[j].expires_at_millis < now,
        },
{
    if exists|i: int| is_shortest_at(rs, now, i) {
        let i = choose|i: int| is_shortest_at(rs, now, i);
        assert(rs[i] == shortest_route(rs, now)->0);
    } else {
        assert forall|j: int| 0 <= j < rs.len() implies #[trigger] rs[j].expires_at_millis < now by {
            if rs[j].expires_at_millis >= now {
                lemma_shortest_exists(rs, now, j);
            }
        }
    }
}

/// Once a route that is unexpired at `now` is cached for its destination,
/// a lookup for that destination at `now` succeeds, with a route of at
/// most as many hops.
pub proof fn law_cached_route_is_found(m: Map<u32, Seq<RouteModel>>, r: RouteModel, now: u64)
    requires
        r.expires_at_millis >= now,
    ensures
        ({
            let rs = routes_for(
                m.insert(r.dst_node_id, routes_for(m, r.dst_node_id).push(r)),
                r.dst_node_id,
            );
            match shortest_route(rs, now) {
                Some(s) => route_hops(s) <= route_hops(r) && s.expires_at_millis >= now,
                None => false,
            }
        }),
{
    let rs = routes_for(m.insert(r.dst_node_id, routes_for(m, r.dst_node_id).push(r)), r.dst_node_id);
    let last = rs.len() - 1;
    assert(rs[last] == r);
    law_lookup_picks_unexpired_shortest(rs, now);
}

/// Caching a route for one destination leaves the routes of every other
/// destination as they were.
pub proof fn law_insert_leaves_other_destinations(
    m: Map<u32, Seq<RouteModel>>,
    r: RouteModel,
    dst: u32,
)
    requires
        dst != r.dst_node_id,
    ensures
        routes_for(m.insert(r.dst_node_id, routes_for(m, r.dst_node_id).push(r)), dst) == routes_for(
            m,
            dst,
        ),
{
}

// ---------------------------------------------------------------------
// Seen route requests
// ---------------------------------------------------------------------

/// A non-empty finite cache has a request that is evicted first, and
/// `oldest_key` names it.
proof fn lemma_oldest_exists(m: Map<RequestKey, u64>)
    requires
        m.dom().finite(),
        m.len() > 0,
    ensures
        m.contains_key(oldest_key(m)),
        forall|j: RequestKey| #[trigger]
            m.contains_key(j) ==> !evicted_before(j, m[j], oldest_key(m), m[oldest_key(m)]),
    decreases m.len(),
{
    let a = m.dom().choose();
    assert(m.contains_key(a));
    let rest = m.remove(a);
    if rest.len() == 0 {
        assert forall|j: RequestKey| #[trigger] m.contains_key(j) implies !evicted_before(
            j,
            m[j],
            a,
            m[a],
        ) by {
            if j != a {
                assert(rest.dom().contains(j));
            }
        }
    } else {
        lemma_oldest_exists(rest);
        let b = oldest_key(rest);
        if evicted_before(a, m[a], b, m[b]) {
            assert forall|j: RequestKey| #[trigger] m.contains_key(j) implies !evicted_before(
                j,
                m[j],
                a,
                m[a],
            ) by {
                if j != a {
                    assert(rest.contains_key(j));
                    assert(!evicted_before(j, rest[j], b, rest[b]));
                }
            }
        } else {
            assert forall|j: RequestKey| #[trigger] m.contains_key(j) implies !evicted_before(
                j,
                m[j],
                b,
                m[b],
            ) by {
                if j != a {
                    assert(rest.contains_key(j));
                }
            }
        }
    }
}

/// Evicting down to `max` leaves at most `max` requests of a finite cache.
proof fn lemma_evict_oldest_len(m: Map<RequestKey, u64>, max: nat)
    requires
        m.dom().finite(),
    ensures
        evict_oldest(m, max).len() <= max,
    decreases m.len(),
{
    if m.len() > max {
        lemma_oldest_exists(m);
        lemma_evict_oldest_len(m.remove(oldest_key(m)), max);
    }
}

/// However many requests are marked, the cache never holds more than
/// `max_entries` of them.
pub proof fn law_seen_cache_bounded(
    c: &SeenRequests,
    k: RequestKey,
    now: u64,
    ttl_ms: u64,
    max_entries: nat,
)
    requires
        c.wf(),
    ensures
        mark_seen(c@, k, now, ttl_ms, max_entries).0.len() <= max_entries,
{
    lemma_seen_finite(c);
    let pruned = prune_seen(c@, now, ttl_ms);
    assert(pruned.dom().subset_of(c@.dom()));
    vstd::set_lib::lemma_set_subset_finite(c@.dom(), pruned.dom());
    lemma_evict_oldest_len(pruned.insert(k, now), max_entries);
}

/// A request marked again no later than `ttl_ms` after it was first
/// marked, in a cache that had room for it, is reported as already seen;
/// the first marking only drops the expired requests and records it.
pub proof fn law_repeat_within_ttl_is_duplicate(
    m: Map<RequestKey, u64>,
    k: RequestKey,
    first: u64,
    again: u64,
    ttl_ms: u64,
    max_entries: nat,
)
    requires
        m.dom().finite(),
        m.len() < max_entries,
        first <= again,
        again - first <= ttl_ms,
    ensures
        mark_seen(m, k, first, ttl_ms, max_entries).0 == prune_seen(m, first, ttl_ms).insert(k, first),
        !mark_seen(mark_seen(m, k, first, ttl_ms, max_entries).0, k, again, ttl_ms, max_entries).1,
{
    let pruned = prune_seen(m, first, ttl_ms);
    assert(pruned.dom().subset_of(m.dom()));
    vstd::set_lib::lemma_len_subset(pruned.dom(), m.dom());
    let ins = pruned.insert(k, first);
    assert(ins.dom() =~= pruned.dom().insert(k));
    assert(ins.len() <= max_entries);
    assert(evict_oldest(ins, max_entries) == ins);
}

/// A request that is not held, or was seen more than `ttl_ms` before
/// `now`, is reported as new.
pub proof fn law_expired_request_is_new(
    m: Map<RequestKey, u64>,
    k: RequestKey,
    now: u64,
    ttl_ms: u64,
    max_entries: nat,
)
    requires
        m.contains_key(k) ==> now >= m[k] && now - m[k] > ttl_ms,
    ensures
        mark_seen(m, k, now, ttl_ms, max_entries).1,
{
}

// ---------------------------------------------------------------------
// Traffic counters
// ---------------------------------------------------------------------

/// Every byte sent is counted once, as control or as data traffic: the
/// control and data byte counters add up to the sent byte counter (modulo
/// 2^64) at the start, and where they do, they still do after another
/// packet is counted as sent.
pub proof fn law_sent_bytes_split(m: MetricsModel, bytes: u64, control: bool)
    requires
        wrap(m.control_bytes, m.data_bytes) == m.tx_bytes,
    ensures
        wrap(zero_metrics().control_bytes, zero_metrics().data_bytes) == zero_metrics().tx_bytes,
        wrap(after_tx(m, bytes, control).control_bytes, after_tx(m, bytes, control).data_bytes)
            == after_tx(m, bytes, control).tx_bytes,
        after_tx(m, bytes, control).tx_packets == wrap(m.tx_packets, 1),
{
}

// ---------------------------------------------------------------------
// Header sizes and the chain benchmark
// ---------------------------------------------------------------------

/// A DL-DSR source-route header is a quarter of the DSR header for the
/// same path, and smaller whenever the path has a hop.
pub proof fn law_dldsr_header_smaller(hops: nat)
    ensures
        hops * header_bytes_per_hop(ProtocolMode::Dsr) == 4 * (hops * header_bytes_per_hop(
            ProtocolMode::DlDsr,
        )),
        hops > 0 ==> hops * header_bytes_per_hop(ProtocolMode::Dsr) > hops * header_bytes_per_hop(
            ProtocolMode::DlDsr,
        ),
{
}

/// On the same chain, payload size and packet count, both modes deliver
/// every packet and lose none and receive as many bytes as they send; DSR
/// carries three more header bytes per hop and packet than DL-DSR, on
/// every link, so that with at least one hop and one packet DSR's header
/// and total traffic are strictly larger.
pub proof fn law_chain_modes_compare(hops: usize, payload_size: usize, packet_count: u64)
    requires
        chain_model_fits(hops as nat, ProtocolMode::Dsr, payload_size as nat, packet_count as nat),
    ensures
        chain_model_fits(hops as nat, ProtocolMode::DlDsr, payload_size as nat, packet_count as nat),
        ({
            let dsr = chain_report(hops, ProtocolMode::Dsr, payload_size, packet_count);
            let dl = chain_report(hops, ProtocolMode::DlDsr, payload_size, packet_count);
            &&& dsr.delivered_packets == packet_count && dl.delivered_packets == packet_count
            &&& dsr.lost_packets == 0 && dl.lost_packets == 0
            &&& dsr.total_tx_bytes == dsr.total_rx_bytes && dl.total_tx_bytes == dl.total_rx_bytes
            &&& dsr.path_header_bytes == dl.path_header_bytes + 3 * hops * packet_count
            &&& dsr.total_tx_bytes == dl.total_tx_bytes + 3 * hops * packet_count
                * link_transmissions(hops as nat)
            &&& (hops > 0 && packet_count > 0) ==> (dsr.path_header_bytes > dl.path_header_bytes
                && dsr.total_tx_bytes > dl.total_tx_bytes)
        }),
{
    let h = hops as int;
    let p = payload_size as int;
    let c = packet_count as int;
    let l = link_transmissions(hops as nat) as int;
    let per_dsr = p + 4 * h + 32;
    let per_dl = p + h + 32;
    assert(per_dl * c * l <= per_dsr * c * l) by (nonlinear_arith)
        requires
            per_dl <= per_dsr,
            c >= 0,
            l >= 0,
    ;
    assert(per_dsr * c * l == per_dl * c * l + 3 * h * c * l) by (nonlinear_arith)
        requires
            per_dsr == per_dl + 3 * h,
    ;
    assert(4 * h * c <= per_dsr * c) by (nonlinear_arith)
        requires
            4 * h <= per_dsr,
            c >= 0,
    ;
    assert(per_dsr * c <= per_dsr * c * l) by (nonlinear_arith)
        requires
            per_dsr >= 0,
            c >= 0,
            l >= 1,
    ;
    assert(h * 4 * c == h * 1 * c + 3 * h * c) by (nonlinear_arith);
    assert(h * 4 * c == 4 * h * c) by (nonlinear_arith);
    assert((h > 0 && c > 0) ==> 3 * h * c > 0 && 3 * h * c * l > 0) by (nonlinear_arith)
        requires
            l >= 1,
    ;
}

/// The savings of DL-DSR over DSR on the chain, in header bytes and in
/// bytes sent, do not depend on the payload size and grow with the path
/// length and the packet count.
pub proof fn law_header_savings_grow(
    hops: usize,
    more_hops: usize,
    payload_size: usize,
    other_payload_size: usize,
    packet_count: u64,
    more_packets: u64,
)
    requires
        hops <= more_hops,
        packet_count <= more_packets,
        chain_model_fits(hops as nat, ProtocolMode::Dsr, payload_size as nat, packet_count as nat),
        chain_model_fits(
            more_hops as nat,
            ProtocolMode::Dsr,
            other_payload_size as nat,
            more_packets as nat,
        ),
    ensures
        ({
            let small = chain_report(hops, ProtocolMode::Dsr, payload_size, packet_count).path_header_bytes
                - chain_report(hops, ProtocolMode::DlDsr, payload_size, packet_count).path_header_bytes;
            let large = chain_report(more_hops, ProtocolMode::Dsr, other_payload_size, more_packets).path_header_bytes
                - chain_report(more_hops, ProtocolMode::DlDsr, other_payload_size, more_packets).path_header_bytes;
            let small_tx = chain_report(hops, ProtocolMode::Dsr, payload_size, packet_count).total_tx_bytes
                - chain_report(hops, ProtocolMode::DlDsr, payload_size, packet_count).total_tx_bytes;
            let large_tx = chain_report(more_hops, ProtocolMode::Dsr, other_payload_size, more_packets).total_tx_bytes
                - chain_report(more_hops, ProtocolMode::DlDsr, other_payload_size, more_packets).total_tx_bytes;
            &&& small == 3 * hops * packet_count
            &&& small <= large
            &&& small_tx == 3 * hops * packet_count * link_transmissions(hops as nat)
            &&& small_tx <= large_tx
        }),
{
    law_chain_modes_compare(hops, payload_size, packet_count);
    law_chain_modes_compare(more_hops, other_payload_size, more_packets);
    let h1 = hops as int;
    let h2 = more_hops as int;
    let c1 = packet_count as int;
    let c2 = more_packets as int;
    assert(3 * h1 * c1 <= 3 * h2 * c2) by (nonlinear_arith)
        requires
            0 <= h1 <= h2,
            0 <= c1 <= c2,
    ;
    let l1 = link_transmissions(hops as nat) as int;
    let l2 = link_transmissions(more_hops as nat) as int;
    assert(l1 <= l2);
    assert(3 * h1 * c1 * l1 <= 3 * h2 * c2 * l2) by (nonlinear_arith)
        requires
            0 <= h1 <= h2,
            0 <= c1 <= c2,
            0 <= l1 <= l2,
    ;
}

// ---------------------------------------------------------------------
// The protocol state machine
// ---------------------------------------------------------------------

/// The HelloReply answering a Hello goes to the Hello's source at its
/// endpoint in the topology, whatever address the Hello came from, and
/// carries the label that the neighbor table then holds for that source,
/// recorded with that endpoint; a neighbor already in the table is
/// answered with the label it had. A Hello from a logical neighbor with a
/// topology endpoint is always answered while a label is left for it.
pub proof fn law_hello_reply_carries_table_label(
    s: StateModel,
    c: NodeConfig,
    p: PacketModel,
    sender: Seq<char>,
    now: u64,
)
    requires
        p is Hello,
    ensures
        ({
            let (s2, a) = on_packet(s, c, p, sender, now);
            let src = p->Hello_src_node_id;
            &&& (is_logical_neighbor(c, src) && endpoint_of(c, src) is Some && (
                s.neighbors.contains_key(src) || crate::tables::lowest_free_label(s.neighbors) is Some))
                ==> a.outbound.len() == 1
            &&& forall|i: int|
                0 <= i < a.outbound.len() ==> match #[trigger] a.outbound[i].packet {
                    PacketModel::HelloReply { dst_node_id, assigned_label, .. } => {
                        &&& dst_node_id == src
                        &&& is_logical_neighbor(c, src)
                        &&& endpoint_of(c, src) == Some(a.outbound[i].dst)
                        &&& s2.neighbors.contains_key(src)
                        &&& s2.neighbors[src].label == assigned_label
                        &&& s2.neighbors[src].endpoint == a.outbound[i].dst
                        &&& s.neighbors.contains_key(src) ==> assigned_label
                            == s.neighbors[src].label
                    },
                    _ => false,
                }
        }),
{
}

/// A route request received a second time, through a logical neighbor and
/// under the hop limit, no later than the seen-request window after the
/// first time and with room left in the seen-request cache, is dropped:
/// nothing is sent or reported and the duplicate counter grows by one.
pub proof fn law_duplicate_rreq_dropped(
    s: StateModel,
    c: NodeConfig,
    p: PacketModel,
    sender: Seq<char>,
    first: u64,
    again: u64,
)
    requires
        p is Rreq,
        is_logical_neighbor(c, p->Rreq_previous_hop),
        p->Rreq_hop_count < c.max_rreq_hops,
        s.seen.dom().finite(),
        s.seen.len() < c.seen_request_max_entries,
        first <= again,
        again - first <= c.seen_request_ttl_ms,
    ensures
        ({
            let (s1, a1) = on_packet(s, c, p, sender, first);
            let (s2, a2) = on_packet(s1, c, p, sender, again);
            &&& a2.outbound.len() == 0
            &&& a2.events.len() == 0
            &&& s2.metrics.rreq_dropped_duplicate == wrap(s1.metrics.rreq_dropped_duplicate, 1)
        }),
{
    let k = (p->Rreq_src_node_id, p->Rreq_request_id);
    let ttl = c.seen_request_ttl_ms;
    let max = c.seen_request_max_entries as nat;
    law_repeat_within_ttl_is_duplicate(s.seen, k, first, again, ttl, max);
    let s1 = on_packet(s, c, p, sender, first).0;
    assert(s1.seen == mark_seen(s.seen, k, first, ttl, max).0);
}

/// A route request that arrives through a logical neighbor at or over the
/// hop limit is never forwarded nor answered: it is dropped and counted,
/// and nothing else changes.
pub proof fn law_rreq_hop_limit(
    s: StateModel,
    c: NodeConfig,
    p: PacketModel,
    sender: Seq<char>,
    now: u64,
)
    requires
        p is Rreq,
        is_logical_neighbor(c, p->Rreq_previous_hop),
        p->Rreq_hop_count >= c.max_rreq_hops,
    ensures
        ({
            let (s2, a) = on_packet(s, c, p, sender, now);
            &&& a.outbound.len() == 0
            &&& a.events.len() == 0
            &&& s2 == (StateModel {
                metrics: MetricsModel {
                    rreq_dropped_ttl: wrap(s.metrics.rreq_dropped_ttl, 1),
                    ..s.metrics
                },
                ..s
            })
        }),
{
}

/// A timed-out route discovery that has used all its retries ends: no
/// discovery runs for its destination any more, no payload for it stays
/// queued, nothing is sent, the failure is reported first and counted.
pub proof fn law_exhausted_discovery_ends(
    s: StateModel,
    c: NodeConfig,
    dst: u32,
    d: DiscoveryState,
    now: u64,
)
    requires
        d.retries_done >= c.route_discovery_max_retries,
    ensures
        ({
            let (s2, a) = retry_one(s, c, dst, d, now);
            &&& !discovering(s2.discoveries, dst)
            &&& queued_for(s2.pending, dst) == 0
            &&& a.outbound.len() == 0
            &&& a.events.len() >= 1
            &&& a.events[0] == (EventModel::RouteDiscoveryFailed {
                node_id: c.node_id,
                dst_node_id: dst,
                attempts: vstd::wrapping::u32_specs::wrapping_add(d.retries_done, 1),
            })
            &&& s2.metrics.route_discovery_failures == wrap(s.metrics.route_discovery_failures, 1)
        }),
{
    broadcast use vstd::seq_lib::group_filter_ensures;

    let rd = remove_discovery(s.discoveries, dst);
    assert forall|i: int| 0 <= i < rd.len() implies (#[trigger] rd[i]).0 != dst by {}
    let q = without_dst(s.pending, dst);
    let left = q.filter(|p: PendingModel| p.dst_node_id == dst);
    if left.len() > 0 {
        assert(left[0].dst_node_id == dst);
        assert(left.contains(left[0]));
        q.lemma_filter_contains_rev(|p: PendingModel| p.dst_node_id == dst, left[0]);
        let j = choose|j: int| 0 <= j < q.len() && q[j] == left[0];
        assert(q[j].dst_node_id != dst);
    }
}

/// Sending the queued payloads along a route leaves the route cache, the
/// ongoing discoveries and the seen requests as they were.
proof fn lemma_flush_keeps_tables(
    s: StateModel,
    c: NodeConfig,
    dst: u32,
    route: RouteModel,
    now: u64,
    queue: Seq<PendingModel>,
)
    ensures
        flush(s, c, dst, route, now, queue).0.routes == s.routes,
        flush(s, c, dst, route, now, queue).0.discoveries == s.discoveries,
        flush(s, c, dst, route, now, queue).0.neighbors == s.neighbors,
        flush(s, c, dst, route, now, queue).0.labels == s.labels,
        flush(s, c, dst, route, now, queue).0.seen == s.seen,
    decreases queue.len(),
{
    if queue.len() > 0 {
        lemma_flush_keeps_tables(s, c, dst, route, now, queue.drop_last());
    }
}

/// Once the originator accepts a route reply, a send to that destination
/// while the cached route is unexpired goes out at once: the payload is not
/// queued and no new discovery starts.
pub proof fn law_accepted_reply_serves_later_sends(
    s: StateModel,
    c: NodeConfig,
    p: PacketModel,
    sender: Seq<char>,
    now: u64,
    payload: Seq<u8>,
    later: u64,
)
    requires
        p is Rrep,
        p->Rrep_src_node_id == c.node_id,
        rrep_rejection(c, sender, p->Rrep_trace_path) is None,
        now + c.route_cache_ttl_ms <= u64::MAX,
        later <= now + c.route_cache_ttl_ms,
    ensures
        ({
            let (s1, a1) = on_packet(s, c, p, sender, now);
            let (s2, a2) = on_send(s1, c, p->Rrep_dst_node_id, payload, later);
            &&& shortest_route(routes_for(s1.routes, p->Rrep_dst_node_id), later) is Some
            &&& s2.pending == s1.pending
            &&& s2.discoveries == s1.discoveries
            &&& s2.metrics.route_discovery_attempts == s1.metrics.route_discovery_attempts
        }),
{
    let dst = p->Rrep_dst_node_id;
    let route = crate::protocol_spec::route_from_rrep(
        c,
        dst,
        p->Rrep_dsr_path,
        p->Rrep_dldsr_label_path,
        now,
    );
    assert(route.expires_at_millis == now + c.route_cache_ttl_ms);
    let s1 = on_packet(s, c, p, sender, now).0;
    let mid = StateModel {
        routes: s.routes.insert(dst, routes_for(s.routes, dst).push(route)),
        discoveries: remove_discovery(s.discoveries, dst),
        metrics: MetricsModel {
            route_discovery_successes: wrap(s.metrics.route_discovery_successes, 1),
            ..s.metrics
        },
        pending: Seq::empty(),
        ..s
    };
    lemma_flush_keeps_tables(mid, c, dst, route, now, s.pending);
    assert(s1.routes == mid.routes);
    law_cached_route_is_found(s.routes, route, later);
}

/// The traffic counters of `a` and `b` agree.
pub open spec fn same_traffic(a: MetricsModel, b: MetricsModel) -> bool {
    &&& a.tx_packets == b.tx_packets
    &&& a.tx_bytes == b.tx_bytes
    &&& a.control_bytes == b.control_bytes
    &&& a.data_bytes == b.data_bytes
    &&& a.rx_packets == b.rx_packets
    &&& a.rx_bytes == b.rx_bytes
}

/// Sending queued payloads along a route leaves the traffic counters alone.
proof fn lemma_flush_keeps_traffic(
    s: StateModel,
    c: NodeConfig,
    dst: u32,
    route: RouteModel,
    now: u64,
    queue: Seq<PendingModel>,
)
    ensures
        same_traffic(flush(s, c, dst, route, now, queue).0.metrics, s.metrics),
    decreases queue.len(),
{
    if queue.len() > 0 {
        lemma_flush_keeps_traffic(s, c, dst, route, now, queue.drop_last());
    }
}

/// Retrying or ending timed-out discoveries leaves the traffic counters alone.
proof fn lemma_retry_all_keeps_traffic(
    s: StateModel,
    c: NodeConfig,
    list: Seq<(u32, DiscoveryState)>,
    now: u64,
)
    ensures
        same_traffic(retry_all(s, c, list, now).0.metrics, s.metrics),
        retry_all(s, c, list, now).0.neighbors == s.neighbors,
    decreases list.len(),
{
    if list.len() > 0 {
        lemma_retry_all_keeps_traffic(s, c, list.drop_last(), now);
    }
}

/// Only counting a sent or received packet touches the traffic counters:
/// handling a packet, a send command or a tick leaves them as they were.
#[verifier::spinoff_prover]
#[verifier::rlimit(40)]
pub proof fn law_handlers_keep_traffic_counters(
    s: StateModel,
    c: NodeConfig,
    p: PacketModel,
    sender: Seq<char>,
    dst: u32,
    payload: Seq<u8>,
    now: u64,
    sent_at: u64,
)
    ensures
        same_traffic(on_packet(s, c, p, sender, now).0.metrics, s.metrics),
        same_traffic(on_send(s, c, dst, payload, now).0.metrics, s.metrics),
        same_traffic(on_tick(s, c, now, sent_at).0.metrics, s.metrics),
{
    match p {
        PacketModel::Rrep {
            src_node_id,
            dst_node_id,
            request_id,
            dsr_path,
            dldsr_label_path,
            trace_path,
            created_at_millis,
        } => {
            let route = crate::protocol_spec::route_from_rrep(
                c,
                dst_node_id,
                dsr_path,
                dldsr_label_path,
                now,
            );
            let mid = StateModel {
                routes: s.routes.insert(
                    dst_node_id,
                    routes_for(s.routes, dst_node_id).push(route),
                ),
                discoveries: remove_discovery(s.discoveries, dst_node_id),
                metrics: MetricsModel {
                    route_discovery_successes: wrap(s.metrics.route_discovery_successes, 1),
                    ..s.metrics
                },
                pending: Seq::empty(),
                ..s
            };
            lemma_flush_keeps_traffic(mid, c, dst_node_id, route, now, s.pending);
        },
        _ => {},
    }
    let s1 = StateModel { seen: prune_seen(s.seen, now, c.seen_request_ttl_ms), ..s };
    lemma_retry_all_keeps_traffic(s1, c, expired(s.discoveries, c, now), sent_at);
}

/// A route reply is refused (counted, reported as a route error, and
/// neither passed on nor cached) unless it comes from the node that
/// follows this one on the reply's trace, a logical neighbor adjacent to
/// this node.
pub proof fn law_rrep_needs_trace_neighbor(
    s: StateModel,
    c: NodeConfig,
    p: PacketModel,
    sender: Seq<char>,
    now: u64,
)
    requires
        p is Rrep,
    ensures
        ({
            let (s2, a) = on_packet(s, c, p, sender, now);
            let trace = p->Rrep_trace_path;
            match rrep_rejection(c, sender, trace) {
                Some(reason) => {
                    &&& a.outbound.len() == 0
                    &&& a.events == seq![
                        EventModel::RouteError {
                            node_id: c.node_id,
                            dst_node_id: p->Rrep_dst_node_id,
                            reason,
                        },
                    ]
                    &&& s2.routes == s.routes
                    &&& s2.metrics.rrep_dropped_invalid == wrap(s.metrics.rrep_dropped_invalid, 1)
                },
                None => exists|pos: int|
                    {
                        &&& trace.index_of_first(c.node_id) == Some(pos)
                        &&& pos + 1 < trace.len()
                        &&& node_with_endpoint(c.topology@, sender) == Some(#[trigger] trace[pos + 1])
                        &&& is_logical_neighbor(c, trace[pos + 1])
                        &&& are_adjacent(c, c.node_id, trace[pos + 1])
                    },
            }
        }),
{
    let trace = p->Rrep_trace_path;
    if rrep_rejection(c, sender, trace) is None {
        let pos = trace.index_of_first(c.node_id)->0;
        assert(trace[pos + 1] == trace[pos + 1]);
    }
}

/// Every address that the neighbor table records is the topology endpoint
/// of the neighbor it is recorded for.
pub open spec fn neighbors_at_topology_endpoints(m: Map<u32, NeighborModel>, c: NodeConfig) -> bool {
    forall|k: u32| #[trigger] m.contains_key(k) ==> endpoint_of(c, m[k].node_id) == Some(m[k].endpoint)
}

/// The neighbor table only ever records topology endpoints: the empty table
/// does, a received packet keeps it so, and sends and ticks leave the table
/// as it was.
#[verifier::spinoff_prover]
#[verifier::rlimit(40)]
pub proof fn law_neighbors_stay_at_topology_endpoints(
    s: StateModel,
    c: NodeConfig,
    p: PacketModel,
    sender: Seq<char>,
    dst: u32,
    payload: Seq<u8>,
    now: u64,
    sent_at: u64,
)
    requires
        entries_consistent(s.neighbors),
        neighbors_at_topology_endpoints(s.neighbors, c),
    ensures
        neighbors_at_topology_endpoints(Map::empty(), c),
        neighbors_at_topology_endpoints(on_packet(s, c, p, sender, now).0.neighbors, c),
        on_send(s, c, dst, payload, now).0.neighbors == s.neighbors,
        on_tick(s, c, now, sent_at).0.neighbors == s.neighbors,
{
    match p {
        PacketModel::Rrep { dst_node_id, dsr_path, dldsr_label_path, .. } => {
            let route = crate::protocol_spec::route_from_rrep(
                c,
                dst_node_id,
                dsr_path,
                dldsr_label_path,
                now,
            );
            let mid = StateModel {
                routes: s.routes.insert(
                    dst_node_id,
                    routes_for(s.routes, dst_node_id).push(route),
                ),
                discoveries: remove_discovery(s.discoveries, dst_node_id),
                metrics: MetricsModel {
                    route_discovery_successes: wrap(s.metrics.route_discovery_successes, 1),
                    ..s.metrics
                },
                pending: Seq::empty(),
                ..s
            };
            lemma_flush_keeps_tables(mid, c, dst_node_id, route, now, s.pending);
        },
        _ => {},
    }
    let s1 = StateModel { seen: prune_seen(s.seen, now, c.seen_request_ttl_ms), ..s };
    lemma_retry_all_keeps_traffic(s1, c, expired(s.discoveries, c, now), sent_at);
    let m2 = on_packet(s, c, p, sender, now).0.neighbors;
    assert forall|k: u32| #[trigger] m2.contains_key(k) implies endpoint_of(c, m2[k].node_id) == Some(
        m2[k].endpoint,
    ) by {
        if m2[k] != s.neighbors[k] || !s.neighbors.contains_key(k) {
            assert(k == p->Hello_src_node_id);
        }
    }
}

/// Handling a Data packet sends at most one packet and changes no table:
/// routes, neighbors, labels, queued payloads, discoveries and seen
/// requests stay as they were. A packet that goes out is the same Data
/// packet with its cursor advanced by one, counted as forwarded, and goes
/// to the next hop, a logical neighbor: in DSR the node after this one on
/// the node-id path, at its topology endpoint; in DL-DSR the alive neighbor
/// holding the label at the cursor, at the endpoint the neighbor table
/// holds for it (its topology endpoint, where the table records only those).
pub proof fn law_data_forwarding(
    s: StateModel,
    c: NodeConfig,
    sender: Seq<char>,
    src: u32,
    dst: u32,
    sequence: u64,
    mode: ProtocolMode,
    cursor: usize,
    dsr_path: Seq<u32>,
    label_path: Seq<u8>,
    payload: Seq<u8>,
    created: u64,
    now: u64,
)
    ensures
        ({
            let p = PacketModel::Data {
                src_node_id: src,
                dst_node_id: dst,
                sequence,
                protocol_mode: mode,
                route_cursor: cursor,
                dsr_path,
                dldsr_label_path: label_path,
                payload,
                created_at_millis: created,
            };
            let (s2, a) = on_packet(s, c, p, sender, now);
            &&& a.outbound.len() <= 1
            &&& s2.routes == s.routes
            &&& s2.neighbors == s.neighbors
            &&& s2.labels == s.labels
            &&& s2.pending == s.pending
            &&& s2.discoveries == s.discoveries
            &&& s2.seen == s.seen
            &&& a.outbound.len() == 1 ==> {
                &&& a.events.len() == 0
                &&& dst != c.node_id
                &&& a.outbound[0].packet == (PacketModel::Data {
                    src_node_id: src,
                    dst_node_id: dst,
                    sequence,
                    protocol_mode: mode,
                    route_cursor: (cursor + 1) as usize,
                    dsr_path,
                    dldsr_label_path: label_path,
                    payload,
                    created_at_millis: created,
                })
                &&& s2.metrics.data_forwarded == wrap(s.metrics.data_forwarded, 1)
                &&& match mode {
                    ProtocolMode::Dsr => {
                        &&& cursor + 1 < dsr_path.len()
                        &&& dsr_path[cursor as int] == c.node_id
                        &&& is_logical_neighbor(c, dsr_path[cursor + 1])
                        &&& endpoint_of(c, dsr_path[cursor + 1]) == Some(a.outbound[0].dst)
                    },
                    ProtocolMode::DlDsr => {
                        &&& cursor < label_path.len()
                        &&& neighbor_with_label(s.neighbors, label_path[cursor as int]) matches Some(e)
                        &&& is_logical_neighbor(c, e.node_id)
                        &&& e.endpoint == a.outbound[0].dst
                        &&& neighbors_at_topology_endpoints(s.neighbors, c) ==> endpoint_of(
                            c,
                            e.node_id,
                        ) == Some(a.outbound[0].dst)
                    },
                }
            }
        }),
{
    let l = label_path[cursor as int];
    if crate::tables::label_in_use(s.neighbors, l) {
        let k = choose|k: u32| #[trigger] s.neighbors.contains_key(k) && s.neighbors[k].alive
            && s.neighbors[k].label == l;
        assert(s.neighbors.contains_key(k));
    }
}

/// A Data packet that carries its route as `k` labels is `3 * k` bytes
/// shorter on the wire than the same packet carrying it as `k` node ids.
pub proof fn law_label_route_encodes_smaller(
    src: u32,
    dst: u32,
    sequence: u64,
    mode: ProtocolMode,
    cursor: usize,
    ids: Seq<u32>,
    labels: Seq<u8>,
    payload: Seq<u8>,
    created: u64,
)
    requires
        ids.len() == labels.len(),
    ensures
        wire_len(
            PacketModel::Data {
                src_node_id: src,
                dst_node_id: dst,
                sequence,
                protocol_mode: mode,
                route_cursor: cursor,
                dsr_path: ids,
                dldsr_label_path: Seq::empty(),
                payload,
                created_at_millis: created,
            },
        ) == wire_len(
            PacketModel::Data {
                src_node_id: src,
                dst_node_id: dst,
                sequence,
                protocol_mode: mode,
                route_cursor: cursor,
                dsr_path: Seq::empty(),
                dldsr_label_path: labels,
                payload,
                created_at_millis: created,
            },
        ) + 3 * ids.len(),
{
}

} // verus!
