//! Building a node's configuration from command-line values and a
//! parsed topology (reading and parsing the files is the caller's part).
use vstd::prelude::*;
use crate::packet::ProtocolMode;
use crate::topology::{
    default_hello_interval_ms, default_max_rreq_hops, default_neighbor_ttl_ms,
    default_route_cache_ttl_ms, default_route_discovery_max_retries,
    default_route_discovery_timeout_ms, default_seen_request_max_entries,
    default_seen_request_ttl_ms, default_strict_protocol_mode, node_of, DemoSendConfig, Endpoint,
    NodeConfig, Topology,
};

verus! {

/// Why a configuration cannot be built from command-line values.
#[derive(Debug, Clone, Copy, PartialEq, Eq, Structural)]
pub enum ConfigError {
    /// No node id was given.
    MissingNodeId,
    /// No bind address was given and the node is not in the topology.
    UnknownBindAddress,
}

impl ConfigError {
    /// The human-readable text of this error.
    pub fn message(&self) -> (s: String)
        ensures
            s@ == (match *self {
                ConfigError::MissingNodeId => "--node-id is required when --config is omitted"@,
                ConfigError::UnknownBindAddress => "bind address not supplied and node id not found in topology"@,
            }),
    {
        match self {
            ConfigError::MissingNodeId => String::from_str(
                "--node-id is required when --config is omitted",
            ),
            ConfigError::UnknownBindAddress => String::from_str(
                "bind address not supplied and node id not found in topology",
            ),
        }
    }
}

/// The payload a demo send uses when none is given.
pub open spec fn default_demo_payload() -> Seq<char> {
    "hello from dl-dsr-rs"@
}

/// The configuration of node `node_id` in `topology`: bound to `bind`, or
/// else to the node's endpoint in the topology; in `mode`, or else DL-DSR;
/// with a demo send to `send_dst` (of `payload`, or else the default
/// text, after `send_after_ms`) where one is asked for; every other
/// setting at its default, without metrics output or control socket.
pub fn node_config_from_args(
    topology: Topology,
    node_id: Option<u32>,
    bind: Option<Endpoint>,
    mode: Option<ProtocolMode>,
    send_dst: Option<u32>,
    payload: Option<String>,
    send_after_ms: u64,
) -> (res: Result<NodeConfig, ConfigError>)
    ensures
        match node_id {
            None => res == Err::<NodeConfig, ConfigError>(ConfigError::MissingNodeId),
            Some(id) => {
                let endpoint = match bind {
                    Some(b) => Some(b@),
                    None => match node_of(topology@, id) {
                        Some(n) => Some(n.endpoint),
                        None => None,
                    },
                };
                match endpoint {
                    None => res == Err::<NodeConfig, ConfigError>(ConfigError::UnknownBindAddress),
                    Some(ep) => res matches Ok(cfg) && {
                        &&& cfg.node_id == id
                        &&& cfg.bind_addr@ == ep
                        &&& cfg.protocol_mode == (match mode {
                            Some(m) => m,
                            None => ProtocolMode::DlDsr,
                        })
                        &&& cfg.topology@ == topology@
                        &&& cfg.hello_interval_ms == 800
                        &&& cfg.route_cache_ttl_ms == 30_000
                        &&& cfg.neighbor_ttl_ms == 5_000
                        &&& cfg.log_level@ == "info"@
                        &&& cfg.route_discovery_timeout_ms == 2_000
                        &&& cfg.route_discovery_max_retries == 3
                        &&& cfg.max_rreq_hops == 64
                        &&& cfg.seen_request_ttl_ms == 60_000
                        &&& cfg.seen_request_max_entries == 10_000
                        &&& cfg.metrics_output_path is None
                        &&& cfg.control_bind_addr is None
                        &&& cfg.strict_protocol_mode
                        &&& match send_dst {
                            None => cfg.demo_send is None,
                            Some(dst) => cfg.demo_send matches Some(d) && d.dst_node_id == dst
                                && d.start_after_ms == send_after_ms && d.payload@ == (match payload {
                                Some(p) => p@,
                                None => default_demo_payload(),
                            }),
                        }
                    },
                }
            },
        },
{
    let id = match node_id {
        Some(id) => id,
        None => return Err(ConfigError::MissingNodeId),
    };
    let bind_addr = match bind {
        Some(b) => b,
        None => match topology.node(id) {
            Some(n) => n.endpoint.clone(),
            None => return Err(ConfigError::UnknownBindAddress),
        },
    };
    let demo_send = match send_dst {
        Some(dst_node_id) => Some(
            DemoSendConfig {
                dst_node_id,
                payload: match payload {
                    Some(p) => p,
                    None => String::from_str("hello from dl-dsr-rs"),
                },
                start_after_ms: send_after_ms,
            },
        ),
        None => None,
    };
    Ok(
        NodeConfig {
            node_id: id,
            bind_addr,
            protocol_mode: match mode {
                Some(m) => m,
                None => ProtocolMode::DlDsr,
            },
            hello_interval_ms: default_hello_interval_ms(),
            route_cache_ttl_ms: default_route_cache_ttl_ms(),
            neighbor_ttl_ms: default_neighbor_ttl_ms(),
            log_level: String::from_str("info"),
            topology,
            demo_send,
            route_discovery_timeout_ms: default_route_discovery_timeout_ms(),
            route_discovery_max_retries: default_route_discovery_max_retries(),
            max_rreq_hops: default_max_rreq_hops(),
            seen_request_ttl_ms: default_seen_request_ttl_ms(),
            seen_request_max_entries: default_seen_request_max_entries(),
            metrics_output_path: None,
            control_bind_addr: None,
            strict_protocol_mode: default_strict_protocol_mode(),
        },
    )
}

} // verus!
