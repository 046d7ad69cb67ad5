//! Settings of the relay node and of the directory service, with their
//! defaults. Reading them from files is the caller's part.

use vstd::prelude::*;

verus! {

/// Settings of a relay node.
#[derive(Clone, Debug)]
pub struct BridgeConfig {
    pub server_name: String,
    pub bind_address: String,
    pub matrix_homeserver_url: String,
    pub mycelium_api_url: String,
    pub signing_key_path: String,
    pub max_users: u32,
}

impl BridgeConfig {
    /// The settings of a node that runs beside a local homeserver.
    pub fn default() -> (r: Self)
        ensures
            r.server_name@ == "matrix.localhost"@,
            r.bind_address@ == "127.0.0.1:8080"@,
            r.matrix_homeserver_url@ == "http://localhost:8008"@,
            r.mycelium_api_url@ == "http://localhost:8989"@,
            r.signing_key_path@ == "./data/signing.key"@,
            r.max_users == 1000,
    {
        BridgeConfig {
            server_name: "matrix.localhost".to_owned(),
            bind_address: "127.0.0.1:8080".to_owned(),
            matrix_homeserver_url: "http://localhost:8008".to_owned(),
            mycelium_api_url: "http://localhost:8989".to_owned(),
            signing_key_path: "./data/signing.key".to_owned(),
            max_users: 1000,
        }
    }
}

/// Listening address and directory bound of the directory service.
#[derive(Clone, Debug)]
pub struct ServerConfig {
    pub bind_address: String,
    pub port: u16,
    pub cors_origins: Vec<String>,
    pub max_servers: usize,
}

/// Staleness eviction: how often it runs and the age past which a record
/// goes; `max_offline_duration_hours` is the separate load-time window.
#[derive(Clone, Debug)]
pub struct CleanupConfig {
    pub interval_seconds: u64,
    pub stale_threshold_minutes: i64,
    pub max_offline_duration_hours: i64,
}

/// Snapshot settings; `file_path` is the snapshot file.
#[derive(Clone, Debug)]
pub struct PersistenceConfig {
    pub enabled: bool,
    pub file_path: Option<String>,
    pub save_interval_seconds: u64,
}

/// Signature policy and trusted keys (base64).
#[derive(Clone, Debug)]
pub struct SecurityConfig {
    pub require_signature: bool,
    pub trusted_keys: Vec<String>,
    pub rate_limit_per_minute: u32,
}

/// All settings of the directory service.
#[derive(Clone, Debug)]
pub struct DiscoveryConfig {
    pub server: ServerConfig,
    pub cleanup: CleanupConfig,
    pub persistence: PersistenceConfig,
    pub security: SecurityConfig,
}

impl Default for DiscoveryConfig {
    fn default() -> (r: Self)
        ensures
            r.server.bind_address@ == "0.0.0.0"@,
            r.server.port == 3000,
            r.server.cors_origins@.len() == 1,
            r.server.cors_origins@[0]@ == "*"@,
            r.server.max_servers == 1000,
            r.cleanup.interval_seconds == 300,
            r.cleanup.stale_threshold_minutes == 10,
            r.cleanup.max_offline_duration_hours == 24,
            r.persistence.enabled,
            r.persistence.file_path matches Some(p) && p@ == "servers.json"@,
            r.persistence.save_interval_seconds == 60,
            !r.security.require_signature,
            r.security.trusted_keys@.len() == 0,
            r.security.rate_limit_per_minute == 60,
    {
        let mut cors_origins: Vec<String> = Vec::new();
        cors_origins.push("*".to_owned());
        DiscoveryConfig {
            server: ServerConfig {
                bind_address: "0.0.0.0".to_owned(),
                port: 3000,
                cors_origins,
                max_servers: 1000,
            },
            cleanup: CleanupConfig {
                interval_seconds: 300,
                stale_threshold_minutes: 10,
                max_offline_duration_hours: 24,
            },
            persistence: PersistenceConfig {
                enabled: true,
                file_path: Some("servers.json".to_owned()),
                save_interval_seconds: 60,
            },
            security: SecurityConfig {
                require_signature: false,
                trusted_keys: Vec::new(),
                rate_limit_per_minute: 60,
            },
        }
    }
}

} // verus!
