//! Logical topology, node configuration and its defaults.
use vstd::prelude::*;
use std::collections::HashMap;
use std::path::PathBuf;
use crate::packet::ProtocolMode;
use crate::text::{decimal, decimal_text, join2};

verus! {

#[verifier::external_type_specification]
#[verifier::external_body]
pub struct ExPathBuf(PathBuf);

broadcast use vstd::std_specs::hash::group_hash_axioms;

/// A node's UDP endpoint, held as the text of its socket address
/// (such as `127.0.0.1:7000`); two endpoints are the same address when
/// their texts are equal.
#[derive(Debug)]
pub struct Endpoint {
    text: String,
}

impl View for Endpoint {
    type V = Seq<char>;

    closed spec fn view(&self) -> Seq<char> {
        self.text@
    }
}

impl Clone for Endpoint {
    fn clone(&self) -> (e: Self)
        ensures
            e@ == self@,
    {
        Endpoint { text: self.text.clone() }
    }
}

/// The text of the loopback endpoint on `port`.
pub open spec fn loopback_text(port: nat) -> Seq<char> {
    "127.0.0.1:"@ + decimal(port)
}

impl Endpoint {
    /// The endpoint whose address text is `text`.
    pub fn new(text: String) -> (e: Endpoint)
        ensures
            e@ == text@,
    {
        Endpoint { text }
    }

    /// The address text.
    pub fn as_str(&self) -> (s: &str)
        ensures
            s@ == self@,
    {
        self.text.as_str()
    }

    /// The IPv4 loopback endpoint `127.0.0.1:port`.
    pub fn loopback(port: u16) -> (e: Endpoint)
        ensures
            e@ == loopback_text(port as nat),
    {
        let digits = decimal_text(port as u64);
        Endpoint { text: join2("127.0.0.1:", digits.as_str()) }
    }

    /// Whether both name the same address.
    pub fn same(&self, other: &Endpoint) -> (b: bool)
        ensures
            b == (self@ == other@),
    {
        self.text == other.text
    }
}

/// One node of the logical topology.
#[derive(Debug, Clone)]
pub struct TopologyNode {
    pub node_id: u32,
    pub endpoint: Endpoint,
    pub neighbors: Vec<u32>,
}

/// The value of a topology node.
pub struct NodeModel {
    pub node_id: u32,
    pub endpoint: Seq<char>,
    pub neighbors: Seq<u32>,
}

impl View for TopologyNode {
    type V = NodeModel;

    open spec fn view(&self) -> NodeModel {
        NodeModel { node_id: self.node_id, endpoint: self.endpoint@, neighbors: self.neighbors@ }
    }
}

/// The logical topology: which node has which endpoint and which logical neighbors.
#[derive(Debug, Clone)]
pub struct Topology {
    pub nodes: Vec<TopologyNode>,
}

impl View for Topology {
    type V = Seq<NodeModel>;

    open spec fn view(&self) -> Seq<NodeModel> {
        self.nodes@.map_values(|n: TopologyNode| n@)
    }
}

/// The first node of `nodes` whose id is `id`.
pub open spec fn node_of(nodes: Seq<NodeModel>, id: u32) -> Option<NodeModel>
    decreases nodes.len(),
{
    if nodes.len() == 0 {
        None
    } else if nodes[0].node_id == id {
        Some(nodes[0])
    } else {
        node_of(nodes.drop_first(), id)
    }
}

/// Node id to endpoint, where a later node with the same id overrides an earlier one.
pub open spec fn endpoint_map(nodes: Seq<NodeModel>) -> Map<u32, Seq<char>>
    decreases nodes.len(),
{
    if nodes.len() == 0 {
        Map::empty()
    } else {
        endpoint_map(nodes.drop_last()).insert(nodes.last().node_id, nodes.last().endpoint)
    }
}

/// Node `idx` of a chain of `n` nodes whose ports start at `base_port`.
pub open spec fn chain_node(idx: int, n: int, base_port: int) -> NodeModel {
    NodeModel {
        node_id: idx as u32,
        endpoint: loopback_text((base_port + idx % 65536) as nat),
        neighbors: (if idx > 0 {
            seq![(idx - 1) as u32]
        } else {
            Seq::empty()
        }) + (if idx + 1 < n {
            seq![(idx + 1) as u32]
        } else {
            Seq::empty()
        }),
    }
}

/// Stepping over a node that does not match keeps the first match.
proof fn lemma_node_of_skip(nodes: Seq<NodeModel>, id: u32, i: int)
    requires
        0 <= i < nodes.len(),
        nodes[i].node_id != id,
    ensures
        node_of(nodes.skip(i), id) == node_of(nodes.skip(i + 1), id),
{
    assert(nodes.skip(i).drop_first() =~= nodes.skip(i + 1));
}

/// A match at position `i` is the first match of the suffix from `i`.
proof fn lemma_node_of_hit(nodes: Seq<NodeModel>, id: u32, i: int)
    requires
        0 <= i < nodes.len(),
        nodes[i].node_id == id,
    ensures
        node_of(nodes.skip(i), id) == Some(nodes[i]),
{
}

impl Topology {
    /// A chain `0 - 1 - ... - (nodes-1)` on loopback ports `base_port, base_port + 1, ...`.
    pub fn chain(nodes: usize, base_port: u16) -> (t: Topology)
        requires
            nodes == 0 || base_port + (if nodes - 1 < 65536 { nodes - 1 } else { 65535 })
                <= u16::MAX,
        ensures
            t@ == Seq::new(nodes as nat, |i: int| chain_node(i, nodes as int, base_port as int)),
    {
        let mut out: Vec<TopologyNode> = Vec::new();
        let mut idx: usize = 0;
        while idx < nodes
            invariant
                idx <= nodes,
                nodes == 0 || base_port + (if nodes - 1 < 65536 { nodes - 1 } else { 65535 })
                    <= u16::MAX,
                out@.len() == idx,
                forall|i: int|
                    0 <= i < idx ==> #[trigger] out@[i]@ == chain_node(i, nodes as int, base_port as int),
            decreases nodes - idx,
        {
            let mut neighbors: Vec<u32> = Vec::new();
            if idx > 0 {
                neighbors.push((idx - 1) as u32);
            }
            if idx + 1 < nodes {
                neighbors.push((idx + 1) as u32);
            }
            let low = (idx % 65536) as u16;
            assert(base_port + low <= u16::MAX);
            let port: u16 = base_port + low;
            let node = TopologyNode { node_id: idx as u32, endpoint: Endpoint::loopback(port), neighbors };
            assert(node@.neighbors =~= chain_node(idx as int, nodes as int, base_port as int).neighbors);
            out.push(node);
            idx = idx + 1;
        }
        let t = Topology { nodes: out };
        assert(t@ =~= Seq::new(nodes as nat, |i: int| chain_node(i, nodes as int, base_port as int)));
        t
    }

    /// The first node whose id is `node_id`.
    pub fn node(&self, node_id: u32) -> (res: Option<&TopologyNode>)
        ensures
            match res {
                Some(n) => node_of(self@, node_id) == Some(n@),
                None => node_of(self@, node_id) is None,
            },
    {
        let mut i: usize = 0;
        assert(self@.skip(0) =~= self@);
        while i < self.nodes.len()
            invariant
                i <= self.nodes@.len(),
                node_of(self@, node_id) == node_of(self@.skip(i as int), node_id),
            decreases self.nodes@.len() - i,
        {
            if self.nodes[i].node_id == node_id {
                proof {
                    lemma_node_of_hit(self@, node_id, i as int);
                }
                return Some(&self.nodes[i]);
            }
            proof {
                lemma_node_of_skip(self@, node_id, i as int);
            }
            i = i + 1;
        }
        assert(self@.skip(i as int).len() == 0);
        None
    }

    /// Each node id with its endpoint; a later node with the same id overrides an earlier one.
    pub fn endpoints(&self) -> (res: HashMap<u32, Endpoint>)
        ensures
            res@.dom() == endpoint_map(self@).dom(),
            forall|id: u32| #[trigger] res@.contains_key(id) ==> res@[id]@ == endpoint_map(self@)[id],
    {
        let mut map: HashMap<u32, Endpoint> = HashMap::new();
        let mut i: usize = 0;
        while i < self.nodes.len()
            invariant
                i <= self.nodes@.len(),
                map@.dom() == endpoint_map(self@.take(i as int)).dom(),
                forall|id: u32|
                    #[trigger] map@.contains_key(id) ==> map@[id]@ == endpoint_map(
                        self@.take(i as int),
                    )[id],
            decreases self.nodes@.len() - i,
        {
            assert(self@.take(i + 1).drop_last() =~= self@.take(i as int));
            let node = &self.nodes[i];
            map.insert(node.node_id, node.endpoint.clone());
            i = i + 1;
        }
        assert(self@.take(i as int) =~= self@);
        map
    }
}

/// An automatic send performed once after start-up.
#[derive(Debug, Clone)]
pub struct DemoSendConfig {
    pub dst_node_id: u32,
    pub payload: String,
    pub start_after_ms: u64,
}

/// The configuration of one node.
#[derive(Debug, Clone)]
pub struct NodeConfig {
    pub node_id: u32,
    pub bind_addr: Endpoint,
    pub protocol_mode: ProtocolMode,
    pub hello_interval_ms: u64,
    pub route_cache_ttl_ms: u64,
    pub neighbor_ttl_ms: u64,
    pub log_level: String,
    pub topology: Topology,
    pub demo_send: Option<DemoSendConfig>,
    pub route_discovery_timeout_ms: u64,
    pub route_discovery_max_retries: u32,
    pub max_rreq_hops: u8,
    pub seen_request_ttl_ms: u64,
    pub seen_request_max_entries: usize,
    /// Where periodic metrics snapshots are written.
    pub metrics_output_path: Option<PathBuf>,
    pub control_bind_addr: Option<Endpoint>,
    pub strict_protocol_mode: bool,
}

pub fn default_hello_interval_ms() -> (v: u64)
    ensures
        v == 800,
{
    800
}

pub fn default_route_cache_ttl_ms() -> (v: u64)
    ensures
        v == 30_000,
{
    30_000
}

pub fn default_neighbor_ttl_ms() -> (v: u64)
    ensures
        v == 5_000,
{
    5_000
}

pub fn default_log_level() -> (s: String)
    ensures
        s@ == "info"@,
{
    String::from_str("info")
}

pub fn default_route_discovery_timeout_ms() -> (v: u64)
    ensures
        v == 2_000,
{
    2_000
}

pub fn default_route_discovery_max_retries() -> (v: u32)
    ensures
        v == 3,
{
    3
}

pub fn default_max_rreq_hops() -> (v: u8)
    ensures
        v == 64,
{
    64
}

pub fn default_seen_request_ttl_ms() -> (v: u64)
    ensures
        v == 60_000,
{
    60_000
}

pub fn default_seen_request_max_entries() -> (v: usize)
    ensures
        v == 10_000,
{
    10_000
}

pub fn default_strict_protocol_mode() -> (v: bool)
    ensures
        v == true,
{
    true
}

} // verus!
