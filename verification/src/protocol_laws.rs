//! What the route-discovery and forwarding rules of a node guarantee,
//! stated as relations between an event's inputs and its results.
use vstd::prelude::*;
use crate::metrics::{wrap, MetricsModel};
use crate::packet::{PacketModel, ProtocolMode};
use crate::protocol_spec::{
    endpoint_of,
    neighbor_with_label,
    flood,
    flush,
    is_logical_neighbor,
    node_with_endpoint,
    on_packet,
    on_send,
    on_tick,
    retry_all,
    rrep_rejection,
    DiscoveryState,
    EventModel,
    OutboundModel,
    PendingModel,
    StateModel,
};
use crate::route::{prune_seen, routes_for, shortest_route, RouteModel};
use crate::topology::NodeConfig;

verus! {

// ---------------------------------------------------------------------
// Flooding
// ---------------------------------------------------------------------

/// Flooding `p` over `nbrs` sends `p` and nothing else, only to endpoints
/// of nodes of `nbrs` other than `except`, and to the endpoint of every
/// such node that has one.
proof fn lemma_flood(c: NodeConfig, nbrs: Seq<u32>, except: Option<u32>, p: PacketModel)
    ensures
        forall|i: int|
            0 <= i < flood(c, nbrs, except, p).len() ==> (#[trigger] flood(c, nbrs, except, p)[i]).packet
                == p && exists|j: int|
                0 <= j < nbrs.len() && except != Some(nbrs[j]) && endpoint_of(c, nbrs[j]) == Some(
                    flood(c, nbrs, except, p)[i].dst,
                ),
        forall|j: int|
            0 <= j < nbrs.len() && except != Some(nbrs[j]) && #[trigger] endpoint_of(c, nbrs[j])
                is Some ==> exists|i: int|
                0 <= i < flood(c, nbrs, except, p).len() && flood(c, nbrs, except, p)[i].dst
                    == endpoint_of(c, nbrs[j])->0,
    decreases nbrs.len(),
{
    if nbrs.len() > 0 {
        let pre = nbrs.drop_last();
        lemma_flood(c, pre, except, p);
        let rest = flood(c, pre, except, p);
        let out = flood(c, nbrs, except, p);
        let n = nbrs.last();
        assert forall|j: int| 0 <= j < pre.len() implies pre[j] == nbrs[j] by {}
        assert forall|i: int| 0 <= i < out.len() implies (#[trigger] out[i]).packet == p
            && exists|j: int|
            0 <= j < nbrs.len() && except != Some(nbrs[j]) && endpoint_of(c, nbrs[j]) == Some(
                out[i].dst,
            ) by {
            if i < rest.len() {
                assert(out[i] == rest[i]);
                let j = choose|j: int|
                    0 <= j < pre.len() && except != Some(pre[j]) && endpoint_of(c, pre[j]) == Some(
                        rest[i].dst,
                    );
                assert(nbrs[j] == pre[j]);
            } else {
                assert(nbrs[nbrs.len() - 1] == n);
            }
        }
        assert forall|j: int|
            0 <= j < nbrs.len() && except != Some(nbrs[j]) && #[trigger] endpoint_of(c, nbrs[j])
                is Some implies exists|i: int|
            0 <= i < out.len() && out[i].dst == endpoint_of(c, nbrs[j])->0 by {
            if j < pre.len() {
                assert(nbrs[j] == pre[j]);
                assert(endpoint_of(c, pre[j]) is Some);
                let i = choose|i: int| 0 <= i < rest.len() && rest[i].dst == endpoint_of(c, pre[j])->0;
                assert(out[i] == rest[i]);
            } else {
                assert(out[out.len() - 1].dst == endpoint_of(c, n)->0);
            }
        }
    }
}

// ---------------------------------------------------------------------
// Originated route requests
// ---------------------------------------------------------------------

/// The route request a node originates toward `dst` at `at` with request
/// id `rid`: from this node, with this node alone on its node-id path and
/// its trace, no labels yet, and no hop taken.
pub open spec fn originated_rreq(c: NodeConfig, dst: u32, rid: u64, at: u64) -> PacketModel {
    PacketModel::Rreq {
        src_node_id: c.node_id,
        dst_node_id: dst,
        request_id: rid,
        previous_hop: c.node_id,
        hop_count: 0,
        dsr_path: seq![c.node_id],
        dldsr_label_path: Seq::empty(),
        trace_path: seq![c.node_id],
        created_at_millis: at,
    }
}

/// A send to a destination without an unexpired route queues the payload
/// and, unless a discovery for it runs already, floods the originated
/// route request (next request id, this node alone on its paths) to the
/// endpoint of every logical neighbor, and to nowhere else.
pub proof fn law_send_without_route_originates_rreq(
    s: StateModel,
    c: NodeConfig,
    dst: u32,
    payload: Seq<u8>,
    now: u64,
)
    requires
        shortest_route(routes_for(s.routes, dst), now) is None,
    ensures
        ({
            let (s2, a) = on_send(s, c, dst, payload, now);
            &&& s2.pending == s.pending.push(PendingModel { dst_node_id: dst, payload })
            &&& a.events.len() == 0
            &&& forall|i: int|
                0 <= i < a.outbound.len() ==> {
                    &&& (#[trigger] a.outbound[i]).packet == originated_rreq(
                        c,
                        dst,
                        s.next_request_id,
                        now,
                    )
                    &&& exists|n: u32| is_logical_neighbor(c, n) && #[trigger] endpoint_of(c, n) == Some(
                        a.outbound[i].dst,
                    )
                }
            &&& (forall|k: int| 0 <= k < s.discoveries.len() ==> (#[trigger] s.discoveries[k]).0 != dst)
                ==> forall|n: u32|
                is_logical_neighbor(c, n) && #[trigger] endpoint_of(c, n) is Some ==> exists|i: int|
                    0 <= i < a.outbound.len() && a.outbound[i].dst == endpoint_of(c, n)->0
        }),
{
    let nbrs = crate::protocol_spec::logical_neighbors(c);
    let p = originated_rreq(c, dst, s.next_request_id, now);
    lemma_flood(c, nbrs, None, p);
    let (s2, a) = on_send(s, c, dst, payload, now);
    assert forall|i: int| 0 <= i < a.outbound.len() implies exists|n: u32|
        is_logical_neighbor(c, n) && #[trigger] endpoint_of(c, n) == Some((#[trigger] a.outbound[i]).dst) by {
        let f = flood(c, nbrs, None, p);
        assert(a.outbound == f || a.outbound.len() == 0);
        if a.outbound.len() > 0 {
            assert(f[i] == a.outbound[i]);
            let j = choose|j: int|
                0 <= j < nbrs.len() && None::<u32> != Some(nbrs[j]) && endpoint_of(c, nbrs[j]) == Some(f[i].dst);
            assert(nbrs.contains(nbrs[j]));
        }
    }
    if forall|k: int| 0 <= k < s.discoveries.len() ==> (#[trigger] s.discoveries[k]).0 != dst {
        assert(!crate::protocol_spec::discovering(s.discoveries, dst));
        assert forall|n: u32| is_logical_neighbor(c, n) && #[trigger] endpoint_of(c, n) is Some implies exists|
            i: int,
        | 0 <= i < a.outbound.len() && a.outbound[i].dst == endpoint_of(c, n)->0 by {
            let j = choose|j: int| 0 <= j < nbrs.len() && nbrs[j] == n;
            assert(endpoint_of(c, nbrs[j]) is Some);
        }
    }
}

/// Every route request sent on a tick is an originated request of this
/// node, sent at `sent_at`: this node alone on its paths, no labels, no
/// hop taken.
pub proof fn law_tick_sends_only_originated_rreqs(
    s: StateModel,
    c: NodeConfig,
    now: u64,
    sent_at: u64,
)
    ensures
        ({
            let a = on_tick(s, c, now, sent_at).1;
            forall|i: int|
                0 <= i < a.outbound.len() ==> exists|dst: u32, rid: u64|
                    (#[trigger] a.outbound[i]).packet == originated_rreq(c, dst, rid, sent_at)
        }),
{
    let s1 = StateModel { seen: prune_seen(s.seen, now, c.seen_request_ttl_ms), ..s };
    let list = crate::protocol_spec::expired(s.discoveries, c, now);
    lemma_retry_all_originated(s1, c, list, sent_at);
    assert(on_tick(s, c, now, sent_at) == retry_all(s1, c, list, sent_at));
    let a = on_tick(s, c, now, sent_at).1;
    assert forall|i: int| 0 <= i < a.outbound.len() implies exists|dst: u32, rid: u64|
        (#[trigger] a.outbound[i]).packet == originated_rreq(c, dst, rid, sent_at) by {
        assert(a.outbound[i] == retry_all(s1, c, list, sent_at).1.outbound[i]);
        let (d, r) = choose|d: u32, r: u64|
            retry_all(s1, c, list, sent_at).1.outbound[i].packet == originated_rreq(c, d, r, sent_at);
        assert(a.outbound[i].packet == originated_rreq(c, d, r, sent_at));
    }
}

proof fn lemma_retry_all_originated(
    s: StateModel,
    c: NodeConfig,
    list: Seq<(u32, DiscoveryState)>,
    sent_at: u64,
)
    ensures
        ({
            let a = retry_all(s, c, list, sent_at).1;
            forall|i: int|
                0 <= i < a.outbound.len() ==> exists|dst: u32, rid: u64|
                    (#[trigger] a.outbound[i]).packet == originated_rreq(c, dst, rid, sent_at)
        }),
    decreases list.len(),
{
    if list.len() > 0 {
        let pre = list.drop_last();
        lemma_retry_all_originated(s, c, pre, sent_at);
        let (s1, a1) = retry_all(s, c, pre, sent_at);
        let (dst, d) = list.last();
        let a2 = crate::protocol_spec::retry_one(s1, c, dst, d, sent_at).1;
        let rid = s1.next_request_id;
        let p = originated_rreq(c, dst, rid, sent_at);
        lemma_flood(c, crate::protocol_spec::logical_neighbors(c), None, p);
        let a = retry_all(s, c, list, sent_at).1;
        assert(a.outbound == a1.outbound + a2.outbound);
        assert forall|i: int| 0 <= i < a.outbound.len() implies exists|dst: u32, rid: u64|
            (#[trigger] a.outbound[i]).packet == originated_rreq(c, dst, rid, sent_at) by {
            if i < a1.outbound.len() {
                assert(a.outbound[i] == a1.outbound[i]);
            } else {
                assert(a.outbound[i] == a2.outbound[i - a1.outbound.len()]);
                assert(a2.outbound[i - a1.outbound.len()].packet == p);
            }
        }
    }
}

// ---------------------------------------------------------------------
// Route requests passed on or answered
// ---------------------------------------------------------------------

/// `path` with `node` at its end: appended, unless the path ends with it.
pub open spec fn ending_with(path: Seq<u32>, node: u32) -> Seq<u32> {
    if path.len() > 0 && path[path.len() - 1] == node {
        path
    } else {
        path.push(node)
    }
}

/// The label path a node passes on: in DL-DSR the received one extended
/// by the label that the previous hop assigned to this node; in DSR the
/// received one as it is.
pub open spec fn labels_passed_on(s: StateModel, c: NodeConfig, prev: u32, labels: Seq<u8>) -> Seq<u8> {
    if c.protocol_mode == ProtocolMode::DlDsr {
        labels.push(s.labels[prev].label_assigned_by_neighbor_to_me)
    } else {
        labels
    }
}

/// `o` is the route request (`src`, `dst`, `rid`, from `prev` after `hops`
/// hops, with paths `dsr_path`, `label_path`, `trace`, created at
/// `created`) passed on by this node or answered by it: same source,
/// destination, request id and creation time; node-id path and trace
/// ending with this node; the label path extended, in DL-DSR, by the label
/// the previous hop gave this node. A passed-on request has taken one more
/// hop, from this node, and goes to a logical neighbor other than the
/// previous hop (the destination itself passes nothing on); an answer is a
/// route reply from the destination, sent to the node just before this
/// one's first place on the trace.
pub open spec fn passed_on_or_answered(
    s: StateModel,
    c: NodeConfig,
    src: u32,
    dst: u32,
    rid: u64,
    prev: u32,
    hops: u8,
    dsr_path: Seq<u32>,
    label_path: Seq<u8>,
    trace: Seq<u32>,
    created: u64,
    o: OutboundModel,
) -> bool {
    match o.packet {
        PacketModel::Rreq {
            src_node_id,
            dst_node_id,
            request_id,
            previous_hop,
            hop_count,
            dsr_path: d2,
            dldsr_label_path: l2,
            trace_path: t2,
            created_at_millis,
        } => {
            &&& dst != c.node_id
            &&& src_node_id == src && dst_node_id == dst && request_id == rid
            &&& created_at_millis == created
            &&& previous_hop == c.node_id
            &&& hop_count == hops + 1
            &&& d2 == ending_with(dsr_path, c.node_id)
            &&& t2 == ending_with(trace, c.node_id)
            &&& l2 == labels_passed_on(s, c, prev, label_path)
            &&& exists|n: u32|
                is_logical_neighbor(c, n) && n != prev && #[trigger] endpoint_of(c, n) == Some(o.dst)
        },
        PacketModel::Rrep {
            src_node_id,
            dst_node_id,
            request_id,
            dsr_path: d2,
            dldsr_label_path: l2,
            trace_path: t2,
            created_at_millis,
        } => {
            &&& dst == c.node_id
            &&& src_node_id == src && dst_node_id == dst && request_id == rid
            &&& created_at_millis == created
            &&& d2 == ending_with(dsr_path, c.node_id)
            &&& t2 == ending_with(trace, c.node_id)
            &&& l2 == labels_passed_on(s, c, prev, label_path)
            &&& exists|k: int|
                1 <= k < t2.len() && t2[k] == c.node_id && (forall|j: int|
                    0 <= j < k ==> t2[j] != c.node_id) && #[trigger] endpoint_of(c, t2[k - 1])
                    == Some(o.dst)
        },
        _ => false,
    }
}

/// Every packet sent on receiving a route request is that request passed
/// on or answered (see [`passed_on_or_answered`]); nothing is reported,
/// and in DL-DSR nothing is sent unless the previous hop's label for this
/// node is known.
#[verifier::spinoff_prover]
#[verifier::rlimit(80)]
pub proof fn law_rreq_paths_grow_by_this_node(
    s: StateModel,
    c: NodeConfig,
    sender: Seq<char>,
    src: u32,
    dst: u32,
    rid: u64,
    prev: u32,
    hops: u8,
    dsr_path: Seq<u32>,
    label_path: Seq<u8>,
    trace: Seq<u32>,
    created: u64,
    now: u64,
)
    ensures
        ({
            let p = PacketModel::Rreq {
                src_node_id: src,
                dst_node_id: dst,
                request_id: rid,
                previous_hop: prev,
                hop_count: hops,
                dsr_path,
                dldsr_label_path: label_path,
                trace_path: trace,
                created_at_millis: created,
            };
            let a = on_packet(s, c, p, sender, now).1;
            &&& a.events.len() == 0
            &&& (c.protocol_mode == ProtocolMode::DlDsr && a.outbound.len() > 0) ==> s.labels.contains_key(
                prev,
            )
            &&& forall|i: int|
                0 <= i < a.outbound.len() ==> passed_on_or_answered(
                    s,
                    c,
                    src,
                    dst,
                    rid,
                    prev,
                    hops,
                    dsr_path,
                    label_path,
                    trace,
                    created,
                    #[trigger] a.outbound[i],
                )
        }),
{
    let node = c.node_id;
    let p = PacketModel::Rreq {
        src_node_id: src,
        dst_node_id: dst,
        request_id: rid,
        previous_hop: prev,
        hop_count: hops,
        dsr_path,
        dldsr_label_path: label_path,
        trace_path: trace,
        created_at_millis: created,
    };
    let a = on_packet(s, c, p, sender, now).1;
    if dsr_path.len() > 0 {
        assert(dsr_path.last() == dsr_path[dsr_path.len() - 1]);
    }
    if trace.len() > 0 {
        assert(trace.last() == trace[trace.len() - 1]);
    }
    assert(crate::protocol_spec::append_self(dsr_path, node) == ending_with(dsr_path, node));
    assert(crate::protocol_spec::append_self(trace, node) == ending_with(trace, node));
    let labels2 = labels_passed_on(s, c, prev, label_path);
    let is_new = crate::route::mark_seen(
        s.seen,
        (src, rid),
        now,
        c.seen_request_ttl_ms,
        c.seen_request_max_entries as nat,
    ).1;
    if is_logical_neighbor(c, prev) && hops < c.max_rreq_hops && is_new && !(c.protocol_mode
        == ProtocolMode::DlDsr && !s.labels.contains_key(prev)) {
        if node == dst {
            let t2 = ending_with(trace, node);
            t2.index_of_first_ensures(node);
            assert forall|i: int| 0 <= i < a.outbound.len() implies passed_on_or_answered(
                s,
                c,
                src,
                dst,
                rid,
                prev,
                hops,
                dsr_path,
                label_path,
                trace,
                created,
                #[trigger] a.outbound[i],
            ) by {
                let k = t2.index_of_first(node)->0;
                assert(endpoint_of(c, t2[k - 1]) == Some(a.outbound[i].dst));
            }
        } else {
            let fwd = PacketModel::Rreq {
                src_node_id: src,
                dst_node_id: dst,
                request_id: rid,
                previous_hop: node,
                hop_count: (hops + 1) as u8,
                dsr_path: ending_with(dsr_path, node),
                dldsr_label_path: labels2,
                trace_path: ending_with(trace, node),
                created_at_millis: created,
            };
            let nbrs = crate::protocol_spec::logical_neighbors(c);
            lemma_flood(c, nbrs, Some(prev), fwd);
            let f = flood(c, nbrs, Some(prev), fwd);
            assert(a.outbound == f);
            assert forall|i: int| 0 <= i < a.outbound.len() implies passed_on_or_answered(
                s,
                c,
                src,
                dst,
                rid,
                prev,
                hops,
                dsr_path,
                label_path,
                trace,
                created,
                #[trigger] a.outbound[i],
            ) by {
                let j = choose|j: int|
                    0 <= j < nbrs.len() && Some(prev) != Some(nbrs[j]) && endpoint_of(c, nbrs[j])
                        == Some(f[i].dst);
                assert(nbrs.contains(nbrs[j]));
            }
        }
    }
}

/// The destination of a new route request that arrives through a logical
/// neighbor under the hop limit (and, in DL-DSR, from a neighbor whose
/// label for this node is known), on a trace not yet through this node,
/// answers with one route reply, sent to the endpoint of the last node of
/// the trace.
pub proof fn law_destination_answers_rreq(
    s: StateModel,
    c: NodeConfig,
    sender: Seq<char>,
    src: u32,
    rid: u64,
    prev: u32,
    hops: u8,
    dsr_path: Seq<u32>,
    label_path: Seq<u8>,
    trace: Seq<u32>,
    created: u64,
    now: u64,
    ep: Seq<char>,
)
    requires
        is_logical_neighbor(c, prev),
        hops < c.max_rreq_hops,
        !prune_seen(s.seen, now, c.seen_request_ttl_ms).contains_key((src, rid)),
        c.protocol_mode == ProtocolMode::DlDsr ==> s.labels.contains_key(prev),
        trace.len() > 0,
        !trace.contains(c.node_id),
        endpoint_of(c, trace[trace.len() - 1]) == Some(ep),
    ensures
        ({
            let p = PacketModel::Rreq {
                src_node_id: src,
                dst_node_id: c.node_id,
                request_id: rid,
                previous_hop: prev,
                hop_count: hops,
                dsr_path,
                dldsr_label_path: label_path,
                trace_path: trace,
                created_at_millis: created,
            };
            let a = on_packet(s, c, p, sender, now).1;
            &&& a.outbound.len() == 1
            &&& a.outbound[0].dst == ep
            &&& a.outbound[0].packet is Rrep
        }),
{
    let node = c.node_id;
    let t2 = trace.push(node);
    assert(trace.last() == trace[trace.len() - 1]);
    assert(!(trace.len() > 0 && trace.last() == node));
    t2.index_of_first_ensures(node);
    assert(t2[trace.len() as int] == node);
    assert forall|k: int| 0 <= k < trace.len() implies t2[k] != node by {
        assert(t2[k] == trace[k]);
        assert(trace.contains(trace[k]));
    }
    assert(t2.index_of_first(node) == Some(trace.len() as int));
    assert(t2[trace.len() - 1] == trace[trace.len() - 1]);
}

// ---------------------------------------------------------------------
// Route replies at the originator
// ---------------------------------------------------------------------

/// Whether `p` is a Data packet from `src` to `dst`.
pub open spec fn is_data_from_to(p: PacketModel, src: u32, dst: u32) -> bool {
    match p {
        PacketModel::Data { src_node_id, dst_node_id, .. } => src_node_id == src && dst_node_id == dst,
        _ => false,
    }
}

/// The payload of a Data packet (empty for other packets).
pub open spec fn data_payload(p: PacketModel) -> Seq<u8> {
    match p {
        PacketModel::Data { payload, .. } => payload,
        _ => Seq::empty(),
    }
}

/// Whether a queued payload is for `dst`.
pub open spec fn for_dst(dst: u32) -> spec_fn(PendingModel) -> bool {
    |q: PendingModel| q.dst_node_id == dst
}

/// Whether a queued payload is for another destination than `dst`.
pub open spec fn for_other_than(dst: u32) -> spec_fn(PendingModel) -> bool {
    |q: PendingModel| q.dst_node_id != dst
}

proof fn lemma_flush_keeps_others(
    s: StateModel,
    c: NodeConfig,
    dst: u32,
    route: RouteModel,
    now: u64,
    queue: Seq<PendingModel>,
)
    ensures
        flush(s, c, dst, route, now, queue).2 == queue.filter(for_other_than(dst)),
    decreases queue.len(),
{
    reveal_with_fuel(Seq::<PendingModel>::filter, 1);
    if queue.len() > 0 {
        lemma_flush_keeps_others(s, c, dst, route, now, queue.drop_last());
    }
}

/// With a known first hop, flushing sends each queued payload for `dst`,
/// in queue order, to that first hop; the neighbor table is not touched.
proof fn lemma_flush_sends_each_payload(
    s: StateModel,
    c: NodeConfig,
    dst: u32,
    route: RouteModel,
    now: u64,
    queue: Seq<PendingModel>,
    ep: Seq<char>,
)
    requires
        crate::protocol_spec::first_hop_endpoint(s, c, route) == Some(ep),
    ensures
        flush(s, c, dst, route, now, queue).0.neighbors == s.neighbors,
        flush(s, c, dst, route, now, queue).1.len() == queue.filter(for_dst(dst)).len(),
        forall|i: int|
            0 <= i < flush(s, c, dst, route, now, queue).1.len() ==> (#[trigger] flush(
                s,
                c,
                dst,
                route,
                now,
                queue,
            ).1[i]).dst == ep && data_payload(flush(s, c, dst, route, now, queue).1[i].packet)
                == queue.filter(for_dst(dst))[i].payload,
    decreases queue.len(),
{
    reveal_with_fuel(Seq::<PendingModel>::filter, 1);
    if queue.len() > 0 {
        let pre = queue.drop_last();
        lemma_flush_sends_each_payload(s, c, dst, route, now, pre, ep);
        let (s1, out, rest) = flush(s, c, dst, route, now, pre);
        assert(crate::protocol_spec::first_hop_endpoint(s1, c, route) == Some(ep));
        let all = flush(s, c, dst, route, now, queue).1;
        let fp = pre.filter(for_dst(dst));
        let fq = queue.filter(for_dst(dst));
        if queue.last().dst_node_id == dst {
            assert(fq == fp.push(queue.last()));
            assert forall|i: int| 0 <= i < all.len() implies (#[trigger] all[i]).dst == ep
                && data_payload(all[i].packet) == fq[i].payload by {
                if i < out.len() {
                    assert(all[i] == out[i]);
                }
            }
        } else {
            assert(fq == fp);
        }
    }
}

/// When the originator accepts a route reply for `dst`, the payloads
/// queued for other destinations stay queued, in their order, and those for
/// `dst` leave the queue; each packet sent is a Data packet for `dst` from
/// this node. Where the route's first hop is known (in DSR the endpoint of
/// the node after this one on the node-id path, in DL-DSR the alive
/// neighbor holding the first label), every payload queued for `dst` is
/// sent there, in queue order, and nothing else is sent.
pub proof fn law_accepted_reply_keeps_other_payloads(
    s: StateModel,
    c: NodeConfig,
    sender: Seq<char>,
    dst: u32,
    rid: u64,
    dsr_path: Seq<u32>,
    label_path: Seq<u8>,
    trace: Seq<u32>,
    created: u64,
    now: u64,
)
    requires
        rrep_rejection(c, sender, trace) is None,
        crate::tables::alive_labels_unique(s.neighbors),
    ensures
        ({
            let p = PacketModel::Rrep {
                src_node_id: c.node_id,
                dst_node_id: dst,
                request_id: rid,
                dsr_path,
                dldsr_label_path: label_path,
                trace_path: trace,
                created_at_millis: created,
            };
            let (s2, a) = on_packet(s, c, p, sender, now);
            &&& s2.pending == s.pending.filter(for_other_than(dst))
            &&& forall|ep: Seq<char>|
                #![trigger first_hop(s, c, dsr_path, label_path, ep)]
                first_hop(s, c, dsr_path, label_path, ep) ==> {
                    &&& a.outbound.len() == s.pending.filter(for_dst(dst)).len()
                    &&& forall|i: int|
                        0 <= i < a.outbound.len() ==> (#[trigger] a.outbound[i]).dst == ep
                            && data_payload(a.outbound[i].packet) == s.pending.filter(
                            for_dst(dst),
                        )[i].payload
                }
            &&& forall|i: int|
                0 <= i < a.outbound.len() ==> is_data_from_to(
                    (#[trigger] a.outbound[i]).packet,
                    c.node_id,
                    dst,
                )
        }),
{
    let route = crate::protocol_spec::route_from_rrep(c, dst, dsr_path, label_path, now);
    let mid = StateModel {
        routes: s.routes.insert(dst, routes_for(s.routes, dst).push(route)),
        discoveries: crate::protocol_spec::remove_discovery(s.discoveries, dst),
        metrics: MetricsModel {
            route_discovery_successes: wrap(s.metrics.route_discovery_successes, 1),
            ..s.metrics
        },
        pending: Seq::empty(),
        ..s
    };
    lemma_flush_keeps_others(mid, c, dst, route, now, s.pending);
    lemma_flush_sends_data(mid, c, dst, route, now, s.pending);
    assert forall|ep: Seq<char>|
        #![trigger first_hop(s, c, dsr_path, label_path, ep)]
        first_hop(s, c, dsr_path, label_path, ep) implies crate::protocol_spec::first_hop_endpoint(
        mid,
        c,
        route,
    ) == Some(ep) by {
        if c.protocol_mode == ProtocolMode::DlDsr {
            lemma_label_lookup(s, label_path[0], ep);
        }
    }
    if exists|ep: Seq<char>| #[trigger] first_hop(s, c, dsr_path, label_path, ep) {
        let ep = choose|ep: Seq<char>| #[trigger] first_hop(s, c, dsr_path, label_path, ep);
        lemma_flush_sends_each_payload(mid, c, dst, route, now, s.pending, ep);
    }
}

/// The first hop of a route with node-id path `dsr_path` and label path
/// `label_path` is at `ep`: in DSR the endpoint of the second node of the
/// path; in DL-DSR the endpoint of an alive neighbor holding the first
/// label.
pub open spec fn first_hop(
    s: StateModel,
    c: NodeConfig,
    dsr_path: Seq<u32>,
    label_path: Seq<u8>,
    ep: Seq<char>,
) -> bool {
    match c.protocol_mode {
        ProtocolMode::Dsr => dsr_path.len() > 1 && endpoint_of(c, dsr_path[1]) == Some(ep),
        ProtocolMode::DlDsr => label_path.len() > 0 && exists|k: u32|
            #[trigger] s.neighbors.contains_key(k) && s.neighbors[k].alive && s.neighbors[k].label
                == label_path[0] && s.neighbors[k].endpoint == ep,
    }
}

proof fn lemma_label_lookup(s: StateModel, label: u8, ep: Seq<char>)
    requires
        crate::tables::alive_labels_unique(s.neighbors),
        exists|k: u32|
            #[trigger] s.neighbors.contains_key(k) && s.neighbors[k].alive && s.neighbors[k].label
                == label && s.neighbors[k].endpoint == ep,
    ensures
        neighbor_with_label(s.neighbors, label) matches Some(e) && e.endpoint == ep,
{
    let m = s.neighbors;
    let k = choose|k: u32|
        #[trigger] m.contains_key(k) && m[k].alive && m[k].label == label && m[k].endpoint == ep;
    let k2 = choose|k2: u32| #[trigger] m.contains_key(k2) && m[k2].alive && m[k2].label == label;
    assert(m[k].label == m[k2].label);
    assert(k == k2);
}

proof fn lemma_flush_sends_data(
    s: StateModel,
    c: NodeConfig,
    dst: u32,
    route: RouteModel,
    now: u64,
    queue: Seq<PendingModel>,
)
    ensures
        forall|i: int|
            0 <= i < flush(s, c, dst, route, now, queue).1.len() ==> is_data_from_to(
                (#[trigger] flush(s, c, dst, route, now, queue).1[i]).packet,
                c.node_id,
                dst,
            ),
    decreases queue.len(),
{
    if queue.len() > 0 {
        let pre = queue.drop_last();
        lemma_flush_sends_data(s, c, dst, route, now, pre);
        let (s1, out, rest) = flush(s, c, dst, route, now, pre);
        let all = flush(s, c, dst, route, now, queue).1;
        assert forall|i: int| 0 <= i < all.len() implies is_data_from_to(
            (#[trigger] all[i]).packet,
            c.node_id,
            dst,
        ) by {
            if i < out.len() {
                assert(all[i] == out[i]);
            }
        }
    }
}

// ---------------------------------------------------------------------
// Data at its destination
// ---------------------------------------------------------------------

/// A Data packet for this node, in this node's mode, from a logical
/// neighbor `sid` is delivered exactly when it followed its whole route:
/// in DL-DSR when its cursor has consumed the whole label path; in DSR
/// when the node-id path ends here, the cursor points at this node's first
/// position on it and `sid` is the node just before. A delivered packet is
/// reported with its payload and counted as delivered; any other is
/// reported dropped and counted as dropped. Nothing is sent either way.
pub proof fn law_data_delivered_iff_route_followed(
    s: StateModel,
    c: NodeConfig,
    sender: Seq<char>,
    sid: u32,
    src: u32,
    sequence: u64,
    cursor: usize,
    dsr_path: Seq<u32>,
    label_path: Seq<u8>,
    payload: Seq<u8>,
    created: u64,
    now: u64,
)
    requires
        node_with_endpoint(c.topology@, sender) == Some(sid),
        is_logical_neighbor(c, sid),
    ensures
        ({
            let p = PacketModel::Data {
                src_node_id: src,
                dst_node_id: c.node_id,
                sequence,
                protocol_mode: c.protocol_mode,
                route_cursor: cursor,
                dsr_path,
                dldsr_label_path: label_path,
                payload,
                created_at_millis: created,
            };
            let (s2, a) = on_packet(s, c, p, sender, now);
            let followed = match c.protocol_mode {
                ProtocolMode::DlDsr => cursor == label_path.len(),
                ProtocolMode::Dsr => {
                    &&& dsr_path.len() > 0
                    &&& dsr_path[dsr_path.len() - 1] == c.node_id
                    &&& dsr_path.index_of_first(c.node_id) == Some(cursor as int)
                    &&& cursor >= 1
                    &&& dsr_path[cursor - 1] == sid
                },
            };
            &&& a.outbound.len() == 0
            &&& followed ==> {
                &&& a.events == seq![
                    EventModel::DataDelivered {
                        node_id: c.node_id,
                        src_node_id: src,
                        dst_node_id: c.node_id,
                        sequence,
                        payload,
                    },
                ]
                &&& s2.metrics.data_delivered == wrap(s.metrics.data_delivered, 1)
                &&& s2.metrics.delivered_packets == wrap(s.metrics.delivered_packets, 1)
                &&& s2.metrics.data_dropped == s.metrics.data_dropped
            }
            &&& !followed ==> {
                &&& a.events.len() == 2
                &&& a.events[0] is DataDropped
                &&& s2.metrics.data_dropped == wrap(s.metrics.data_dropped, 1)
                &&& s2.metrics.data_delivered == s.metrics.data_delivered
            }
        }),
{
    if dsr_path.len() > 0 {
        assert(dsr_path.last() == dsr_path[dsr_path.len() - 1]);
    }
}

// ---------------------------------------------------------------------
// Route replies on their way back, and sends along a cached route
// ---------------------------------------------------------------------

/// A route reply accepted at a node other than its originator is passed on
/// unchanged, alone, to the node just before this one's first place on the
/// trace, and counted as forwarded; the node's tables are untouched.
pub proof fn law_rrep_travels_back_along_trace(
    s: StateModel,
    c: NodeConfig,
    sender: Seq<char>,
    src: u32,
    dst: u32,
    rid: u64,
    dsr_path: Seq<u32>,
    label_path: Seq<u8>,
    trace: Seq<u32>,
    created: u64,
    now: u64,
)
    requires
        rrep_rejection(c, sender, trace) is None,
        src != c.node_id,
    ensures
        ({
            let p = PacketModel::Rrep {
                src_node_id: src,
                dst_node_id: dst,
                request_id: rid,
                dsr_path,
                dldsr_label_path: label_path,
                trace_path: trace,
                created_at_millis: created,
            };
            let (s2, a) = on_packet(s, c, p, sender, now);
            &&& a.events.len() == 0
            &&& a.outbound.len() <= 1
            &&& s2.routes == s.routes && s2.pending == s.pending && s2.neighbors == s.neighbors
            &&& a.outbound.len() == 1 ==> {
                &&& a.outbound[0].packet == p
                &&& s2.metrics.rrep_forwarded == wrap(s.metrics.rrep_forwarded, 1)
                &&& exists|k: int|
                    1 <= k < trace.len() && trace[k] == c.node_id && (forall|j: int|
                        0 <= j < k ==> trace[j] != c.node_id) && #[trigger] endpoint_of(c, trace[k - 1])
                        == Some(a.outbound[0].dst)
            }
            &&& (exists|k: int|
                1 <= k < trace.len() && trace[k] == c.node_id && (forall|j: int|
                    0 <= j < k ==> trace[j] != c.node_id) && #[trigger] endpoint_of(c, trace[k - 1])
                    is Some) ==> a.outbound.len() == 1
        }),
{
    trace.index_of_first_ensures(c.node_id);
    if exists|k: int|
        1 <= k < trace.len() && trace[k] == c.node_id && (forall|j: int|
            0 <= j < k ==> trace[j] != c.node_id) && #[trigger] endpoint_of(c, trace[k - 1]) is Some {
        let k = choose|k: int|
            1 <= k < trace.len() && trace[k] == c.node_id && (forall|j: int|
                0 <= j < k ==> trace[j] != c.node_id) && #[trigger] endpoint_of(c, trace[k - 1]) is Some;
        let f = trace.index_of_first(c.node_id)->0;
        assert(f == k) by {
            if f < k {
                assert(trace[f] != c.node_id);
            } else if k < f {
                assert(trace[k] != c.node_id);
            }
        }
    }
    match trace.index_of_first(c.node_id) {
        Some(k) => {
            if k >= 1 {
                assert(endpoint_of(c, trace[k - 1]) == endpoint_of(c, trace[k - 1]));
            }
        },
        None => {},
    }
}

/// A send to a destination with an unexpired cached route goes out at once
/// and queues nothing: one Data packet from this node with the payload,
/// the next sequence number and the cursor past this node, sent to the
/// route's first hop, or, without a known first hop, a drop counted and
/// reported. The sequence number advances by one either way; no discovery
/// starts.
pub proof fn law_send_with_route_goes_at_once(
    s: StateModel,
    c: NodeConfig,
    dst: u32,
    payload: Seq<u8>,
    now: u64,
)
    requires
        shortest_route(routes_for(s.routes, dst), now) is Some,
    ensures
        ({
            let (s2, a) = on_send(s, c, dst, payload, now);
            &&& s2.pending == s.pending
            &&& s2.discoveries == s.discoveries
            &&& s2.next_request_id == s.next_request_id
            &&& s2.next_sequence == wrap(s.next_sequence, 1)
            &&& a.outbound.len() == 1 || (a.outbound.len() == 0 && s2.metrics.data_dropped == wrap(
                s.metrics.data_dropped,
                1,
            ) && a.events.len() > 0 && a.events[0] is DataDropped)
            &&& forall|i: int|
                0 <= i < a.outbound.len() ==> match (#[trigger] a.outbound[i]).packet {
                    PacketModel::Data {
                        src_node_id,
                        dst_node_id,
                        sequence,
                        route_cursor,
                        payload: sent,
                        created_at_millis,
                        ..
                    } => src_node_id == c.node_id && dst_node_id == dst && sequence == s.next_sequence
                        && route_cursor == 1 && sent == payload && created_at_millis == now,
                    _ => false,
                }
        }),
{
}

} // verus!
