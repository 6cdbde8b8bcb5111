use vstd::prelude::*;

verus! {

/// Which backend serves the key-value interface.
#[derive(Debug, Clone, Copy, PartialEq, Eq, Structural)]
pub enum StorageType {
    Mem,
    TiKV,
    Local,
}

/// Connection settings for the remote key-value cluster.
#[derive(Debug)]
pub struct TiKVConfig {
    pub pd_address: Vec<String>,
    pub grpc_pool_size: usize,
    pub grpc_connect_timeout: usize,
}

impl TiKVConfig {
    /// One local placement driver, four client connections, a four
    /// minute connect timeout.
    pub fn default_config() -> (r: TiKVConfig)
        ensures
            r.grpc_pool_size == 4,
            r.grpc_connect_timeout == 240000,
            r.pd_address@.len() == 1,
    {
        let mut pd_address: Vec<String> = Vec::new();
        pd_address.push("127.0.0.1:2379".to_owned());
        TiKVConfig { pd_address, grpc_pool_size: 4, grpc_connect_timeout: 240000 }
    }
}

/// The server's configuration: backend choice, connection pool size, and
/// the remote cluster settings.
#[derive(Debug)]
pub struct Config {
    pub tikv: TiKVConfig,
    pub storage: StorageType,
    pub connection_pool_size: usize,
}

impl Config {
    /// The in-memory backend with a pool of four.
    pub fn default_config() -> (r: Config)
        ensures
            r.storage is Mem,
            r.connection_pool_size == 4,
    {
        Config {
            tikv: TiKVConfig::default_config(),
            storage: StorageType::Mem,
            connection_pool_size: 4,
        }
    }
}

} // verus!
