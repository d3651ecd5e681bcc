//! Server configuration.
use vstd::prelude::*;

verus! {

/// Configuration of the API server.
#[derive(Debug, Clone)]
pub struct ApiConfig {
    pub host: String,
    pub port: u16,
    pub enable_graphql: bool,
    pub enable_grpc: bool,
    pub rate_limit_rpm: u32,
}

impl Default for ApiConfig {
    /// Listens on all interfaces, port 8080, with GraphQL and gRPC on and
    /// 600 requests per minute.
    fn default() -> (r: Self)
        ensures
            r.host@ == "0.0.0.0"@,
            r.port == 8080,
            r.enable_graphql,
            r.enable_grpc,
            r.rate_limit_rpm == 600,
    {
        ApiConfig {
            host: "0.0.0.0".to_owned(),
            port: 8080,
            enable_graphql: true,
            enable_grpc: true,
            rate_limit_rpm: 600,
        }
    }
}

/// Configuration of the embedded Nostr relay.
#[derive(Debug, Clone)]
pub struct NostrConfig {
    pub port: u16,
    pub max_events: usize,
    pub max_subscriptions_per_client: usize,
}

impl Default for NostrConfig {
    /// Port 9735, room for 100 000 events, 20 subscriptions per client.
    fn default() -> (r: Self)
        ensures
            r.port == 9735,
            r.max_events == 100_000,
            r.max_subscriptions_per_client == 20,
    {
        NostrConfig { port: 9735, max_events: 100_000, max_subscriptions_per_client: 20 }
    }
}

} // verus!
