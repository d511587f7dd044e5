//! Service configuration: immutable settings loaded once at startup.
//!
//! The settings themselves are plain data. Reading them from a file is an
//! I/O concern that lives outside this library; `Settings::new` returns the
//! built-in defaults, and a caller that loads values from elsewhere fills the
//! fields itself.

use vstd::prelude::*;

verus! {

/// Why a configuration could not be produced.
#[derive(Debug, PartialEq, Eq, Structural)]
pub enum ConfigError {
    /// A settings source was malformed or incomplete.
    Invalid,
}

/// Identity of the service and the secret that signs access tokens.
#[derive(Clone, Debug)]
pub struct App {
    pub name: String,
    pub port: u16,
    pub secret_key: String,
}

/// Where requests are forwarded.
#[derive(Clone, Debug)]
pub struct Backend {
    pub rpc_url: String,
}

/// Connection-pool and timeout knobs for the outbound HTTP client.
#[derive(Clone, Debug)]
pub struct HttpClient {
    pub pool_max_idle_per_host: usize,
    pub timeout_secs: u64,
    pub connect_timeout_secs: u64,
    pub pool_idle_timeout_secs: u64,
}

/// Log sink and the per-user statistics flush interval, in seconds.
#[derive(Clone, Debug)]
pub struct Log {
    pub file: String,
    pub level: String,
    pub user_rpc_log_interval: u64,
}

/// All settings of the gateway, grouped by concern.
#[derive(Clone, Debug)]
pub struct Settings {
    pub app: App,
    pub backend: Backend,
    pub http_client: HttpClient,
    pub log: Log,
}

impl Settings {
    /// An equal copy, made field by field.
    pub fn duplicate(&self) -> (r: Settings)
        ensures
            r == *self,
    {
        Settings {
            app: App {
                name: self.app.name.clone(),
                port: self.app.port,
                secret_key: self.app.secret_key.clone(),
            },
            backend: Backend { rpc_url: self.backend.rpc_url.clone() },
            http_client: HttpClient {
                pool_max_idle_per_host: self.http_client.pool_max_idle_per_host,
                timeout_secs: self.http_client.timeout_secs,
                connect_timeout_secs: self.http_client.connect_timeout_secs,
                pool_idle_timeout_secs: self.http_client.pool_idle_timeout_secs,
            },
            log: Log {
                file: self.log.file.clone(),
                level: self.log.level.clone(),
                user_rpc_log_interval: self.log.user_rpc_log_interval,
            },
        }
    }

    /// The built-in default configuration.
    pub fn new() -> (r: Result<Settings, ConfigError>)
        ensures
            r is Ok,
            ({
                let s = r->Ok_0;
                &&& s.app.name@ == "rpc-gateway"@
                &&& s.app.port == 8080u16
                &&& s.app.secret_key@ == "change-me"@
                &&& s.backend.rpc_url@ == "http://127.0.0.1:8899"@
                &&& s.http_client.pool_max_idle_per_host == 16usize
                &&& s.http_client.timeout_secs == 30u64
                &&& s.http_client.connect_timeout_secs == 5u64
                &&& s.http_client.pool_idle_timeout_secs == 90u64
                &&& s.log.file@ == "gateway.log"@
                &&& s.log.level@ == "info"@
                &&& s.log.user_rpc_log_interval == 60u64
            }),
    {
        Ok(Settings {
            app: App {
                name: String::from_str("rpc-gateway"),
                port: 8080,
                secret_key: String::from_str("change-me"),
            },
            backend: Backend { rpc_url: String::from_str("http://127.0.0.1:8899") },
            http_client: HttpClient {
                pool_max_idle_per_host: 16,
                timeout_secs: 30,
                connect_timeout_secs: 5,
                pool_idle_timeout_secs: 90,
            },
            log: Log {
                file: String::from_str("gateway.log"),
                level: String::from_str("info"),
                user_rpc_log_interval: 60,
            },
        })
    }
}

} // verus!
