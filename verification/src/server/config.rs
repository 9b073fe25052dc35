//! Settings of the HTTP server.

use vstd::prelude::*;

verus! {

/// Where the server listens and which endpoints it serves.
#[derive(Debug, Clone)]
pub struct ServerConfig {
    /// Address to bind the server to.
    pub address: String,
    /// Port of the HTTP server.
    pub port: u16,
    /// Whether the metrics endpoint is served.
    pub enable_metrics: bool,
    /// Path of the metrics endpoint.
    pub metrics_path: String,
    /// Whether the API endpoint is served.
    pub enable_api: bool,
    /// Path of the API endpoint.
    pub api_path: String,
}

impl Default for ServerConfig {
    /// Listens on 127.0.0.1:9000 and serves metrics at `/metrics` and the API
    /// at `/api`.
    fn default() -> (c: Self)
        ensures
            c.address@ == "127.0.0.1"@,
            c.port == 9000,
            c.enable_metrics,
            c.metrics_path@ == "/metrics"@,
            c.enable_api,
            c.api_path@ == "/api"@,
    {
        ServerConfig {
            address: "127.0.0.1".to_owned(),
            port: 9000,
            enable_metrics: true,
            metrics_path: "/metrics".to_owned(),
            enable_api: true,
            api_path: "/api".to_owned(),
        }
    }
}

} // verus!
