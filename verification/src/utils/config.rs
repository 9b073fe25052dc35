//! Node configuration and its defaults.

use vstd::prelude::*;
use vstd::string::StringExecFns;
use crate::clock::format_uuid;
use crate::clock::new_uuid;
use crate::clock::uuid_text;

verus! {

/// Complete configuration of a node.
#[derive(Debug, Clone)]
pub struct Config {
    pub node: NodeConfig,
    pub network: NetworkConfig,
    pub storage: StorageConfig,
    pub sharding: ShardingConfig,
}

/// Identity and address of the node.
#[derive(Debug, Clone)]
pub struct NodeConfig {
    pub id: String,
    pub host: String,
    pub port: u16,
    pub data_dir: String,
}

/// How the node reaches its peers.
#[derive(Debug, Clone)]
pub struct NetworkConfig {
    pub peers: Vec<String>,
    pub timeout_ms: u64,
    pub retry_interval_ms: u64,
    pub max_retries: u32,
}

/// Where vectors are stored.
#[derive(Debug, Clone)]
pub struct StorageConfig {
    pub engine: String,
    pub path: String,
    pub cache_size_mb: u64,
}

/// How the data is divided into shards.
#[derive(Debug, Clone)]
pub struct ShardingConfig {
    pub num_shards: u32,
    pub replication_factor: u32,
    pub auto_rebalance: bool,
}

/// The configuration of [`Config::default`], with node identifier `id`.
pub open spec fn default_config_with(c: Config, id: Seq<char>) -> bool {
    &&& c.node.id@ == id
    &&& c.node.host@ == "127.0.0.1"@
    &&& c.node.port == 9000
    &&& c.node.data_dir@ == "./data"@
    &&& c.network.peers@.len() == 0
    &&& c.network.timeout_ms == 5000
    &&& c.network.retry_interval_ms == 1000
    &&& c.network.max_retries == 3
    &&& c.storage.engine@ == "memory"@
    &&& c.storage.path@ == "./data/vectors"@
    &&& c.storage.cache_size_mb == 1024
    &&& c.sharding.num_shards == 16
    &&& c.sharding.replication_factor == 3
    &&& c.sharding.auto_rebalance
}

impl Config {
    /// The default configuration for a node whose identifier is "node-"
    /// followed by the text of the UUID `node_uuid`.
    pub fn default_with(node_uuid: u128) -> (c: Self)
        ensures
            default_config_with(c, "node-"@ + uuid_text(node_uuid)),
    {
        let mut id = "node-".to_owned();
        let text = format_uuid(node_uuid);
        id.append(text.as_str());
        Config {
            node: NodeConfig {
                id,
                host: "127.0.0.1".to_owned(),
                port: 9000,
                data_dir: "./data".to_owned(),
            },
            network: NetworkConfig { peers: Vec::new(), timeout_ms: 5000, retry_interval_ms: 1000, max_retries: 3 },
            storage: StorageConfig {
                engine: "memory".to_owned(),
                path: "./data/vectors".to_owned(),
                cache_size_mb: 1024,
            },
            sharding: ShardingConfig { num_shards: 16, replication_factor: 3, auto_rebalance: true },
        }
    }

    /// The default configuration, for a node with a fresh random identifier.
    pub fn default() -> (c: Self)
        ensures
            exists|u: u128| default_config_with(c, "node-"@ + uuid_text(u)),
    {
        let u = new_uuid();
        Self::default_with(u)
    }
}

} // verus!
