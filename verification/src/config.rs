//! The configuration of the server, its built-in defaults, and the checks
//! that reject values which parse but make no sense. Reading the TOML file
//! is done by the caller.

use vstd::prelude::*;
use vstd::string::StringExecFns;

use crate::proto::error::joined;
use crate::resolver::io_error_text;

verus! {

/// `toml::de::Error`, carried by [`ConfigError::Parse`].
#[verifier::external_type_specification]
#[verifier::external_body]
pub struct ExTomlError(toml::de::Error);

/// Default UDP/TCP port the server listens on.
pub const DEFAULT_PORT: u16 = 1053;

/// An IP address, by its network-order bytes.
#[derive(Debug, Clone, Copy, PartialEq, Eq)]
pub enum IpAddress {
    V4([u8; 4]),
    V6([u8; 16]),
}

/// An IP address and a port.
#[derive(Debug, Clone, Copy, PartialEq, Eq)]
pub struct SocketAddress {
    pub ip: IpAddress,
    pub port: u16,
}

/// Network, threading and limits of the server. TOML section `[server]`.
#[derive(Debug)]
pub struct ServerConfig {
    /// Address bound for UDP and TCP. Defaults to `0.0.0.0:1053`.
    pub listen: SocketAddress,
    /// Number of UDP worker sockets. Defaults to 4.
    pub workers: usize,
    /// Runtime threads; 0 means one per CPU. Defaults to 0.
    pub tokio_threads: usize,
    /// Longest wait for in-flight queries at shutdown. Defaults to 5.
    pub shutdown_drain_secs: u64,
    /// Idle time after which a TCP connection is closed. Defaults to 10.
    pub tcp_idle_timeout_secs: u64,
    /// Most simultaneous TCP connections. Defaults to 1000.
    pub tcp_max_connections: usize,
    /// Most UDP queries in flight across all workers. Defaults to 1000.
    pub udp_max_inflight: usize,
}

/// Forwarding settings. TOML section `[resolver]`.
#[derive(Debug)]
pub struct ResolverConfig {
    /// Upstreams queried at once; the first valid reply wins. Defaults to
    /// 8.8.8.8:53 and 1.1.1.1:53.
    pub upstreams: Vec<SocketAddress>,
    /// Per-upstream timeout in milliseconds. Defaults to 2000.
    pub timeout_ms: u64,
}

/// Cache settings. TOML section `[cache]`.
#[derive(Debug)]
pub struct CacheConfig {
    /// Most cached responses; when full one is evicted. Defaults to 10000.
    pub max_entries: usize,
    /// Seconds between sweeps for expired entries. Defaults to 30.
    pub reaper_interval_secs: u64,
    /// Clamp on negative (NXDOMAIN / NODATA) TTLs, in seconds. Defaults to
    /// 3600 (RFC 2308 §5).
    pub max_negative_ttl_secs: u64,
}

/// Log severity filter.
#[derive(Debug, Clone, Copy, PartialEq, Eq, Structural)]
pub enum LogLevel {
    Trace,
    Debug,
    Info,
    Warn,
    Error,
}

/// Log output format.
#[derive(Debug, Clone, Copy, PartialEq, Eq, Structural)]
pub enum LogFormat {
    /// Human-readable output.
    Pretty,
    /// Structured JSON output.
    Json,
}

/// Logging settings. TOML section `[logging]`.
#[derive(Debug)]
pub struct LoggingConfig {
    /// Minimum severity emitted. Defaults to `Info`.
    pub level: LogLevel,
    /// Output format. Defaults to `Pretty`.
    pub format: LogFormat,
}

/// The whole configuration; every section defaults when absent.
#[derive(Debug)]
pub struct Config {
    pub server: ServerConfig,
    pub resolver: ResolverConfig,
    pub cache: CacheConfig,
    pub logging: LoggingConfig,
}

/// Why a configuration was refused.
#[derive(Debug)]
pub enum ConfigError {
    /// The file could not be read: its path, and the error.
    Io(String, std::io::Error),
    /// The file is not valid TOML for this configuration.
    Parse(toml::de::Error),
    /// `[cache] max_entries` is zero.
    ZeroCacheCapacity,
    /// `[cache] reaper_interval_secs` is zero.
    ZeroReaperInterval,
    /// `[server] workers` is zero.
    ZeroWorkers,
    /// `[server] tcp_idle_timeout_secs` is zero.
    ZeroTcpIdleTimeout,
    /// `[server] tcp_max_connections` is zero.
    ZeroTcpMaxConnections,
    /// `[cache] max_negative_ttl_secs` is zero.
    ZeroMaxNegativeTtl,
}

/// `<toml::de::Error as ToString>::to_string`: the error's description.
/// Nothing is stated of the text.
#[verifier::external_body]
fn toml_error_text(e: &toml::de::Error) -> String {
    e.to_string()
}

impl ConfigError {
    /// A description of the error.
    pub fn message(&self) -> (r: String)
        ensures
            match self {
                ConfigError::Io(path, _) => exists|d: Seq<char>|
                    r@ == "cannot read config file "@ + path@ + ": "@ + d,
                ConfigError::Parse(_) => exists|d: Seq<char>| r@ == "failed to parse config: "@ + d,
                ConfigError::ZeroCacheCapacity => r@ == "[cache] max_entries must be >= 1"@,
                ConfigError::ZeroReaperInterval => r@ == "[cache] reaper_interval_secs must be >= 1"@,
                ConfigError::ZeroWorkers => r@ == "[server] workers must be >= 1"@,
                ConfigError::ZeroTcpIdleTimeout => r@ == "[server] tcp_idle_timeout_secs must be >= 1"@,
                ConfigError::ZeroTcpMaxConnections => r@ == "[server] tcp_max_connections must be >= 1"@,
                ConfigError::ZeroMaxNegativeTtl => r@ == "[cache] max_negative_ttl_secs must be >= 1"@,
            },
    {
        match self {
            ConfigError::Io(path, e) => {
                let head = joined("cannot read config file ", path.as_str()).concat(": ");
                head.concat(io_error_text(e).as_str())
            },
            ConfigError::Parse(e) => joined("failed to parse config: ", toml_error_text(e).as_str()),
            ConfigError::ZeroCacheCapacity => String::from_str("[cache] max_entries must be >= 1"),
            ConfigError::ZeroReaperInterval => String::from_str("[cache] reaper_interval_secs must be >= 1"),
            ConfigError::ZeroWorkers => String::from_str("[server] workers must be >= 1"),
            ConfigError::ZeroTcpIdleTimeout => String::from_str("[server] tcp_idle_timeout_secs must be >= 1"),
            ConfigError::ZeroTcpMaxConnections => String::from_str("[server] tcp_max_connections must be >= 1"),
            ConfigError::ZeroMaxNegativeTtl => String::from_str("[cache] max_negative_ttl_secs must be >= 1"),
        }
    }
}

impl Default for ServerConfig {
    fn default() -> (r: Self)
        ensures
            r.listen == (SocketAddress { ip: IpAddress::V4([0u8, 0u8, 0u8, 0u8]), port: DEFAULT_PORT }),
            r.workers == 4,
            r.tokio_threads == 0,
            r.shutdown_drain_secs == 5,
            r.tcp_idle_timeout_secs == 10,
            r.tcp_max_connections == 1000,
            r.udp_max_inflight == 1000,
    {
        ServerConfig {
            listen: SocketAddress { ip: IpAddress::V4([0u8, 0u8, 0u8, 0u8]), port: DEFAULT_PORT },
            workers: 4,
            tokio_threads: 0,
            shutdown_drain_secs: 5,
            tcp_idle_timeout_secs: 10,
            tcp_max_connections: 1000,
            udp_max_inflight: 1000,
        }
    }
}

impl Default for ResolverConfig {
    fn default() -> (r: Self)
        ensures
            r.upstreams@ == seq![
                SocketAddress { ip: IpAddress::V4([8u8, 8u8, 8u8, 8u8]), port: 53u16 },
                SocketAddress { ip: IpAddress::V4([1u8, 1u8, 1u8, 1u8]), port: 53u16 },
            ],
            r.timeout_ms == 2000,
    {
        let mut upstreams: Vec<SocketAddress> = Vec::new();
        upstreams.push(SocketAddress { ip: IpAddress::V4([8u8, 8u8, 8u8, 8u8]), port: 53 });
        upstreams.push(SocketAddress { ip: IpAddress::V4([1u8, 1u8, 1u8, 1u8]), port: 53 });
        ResolverConfig { upstreams, timeout_ms: 2000 }
    }
}

impl Default for CacheConfig {
    fn default() -> (r: Self)
        ensures
            r.max_entries == 10_000,
            r.reaper_interval_secs == 30,
            r.max_negative_ttl_secs == 3600,
    {
        CacheConfig { max_entries: 10_000, reaper_interval_secs: 30, max_negative_ttl_secs: 3600 }
    }
}

impl Default for LoggingConfig {
    fn default() -> (r: Self)
        ensures
            r.level == LogLevel::Info,
            r.format == LogFormat::Pretty,
    {
        LoggingConfig { level: LogLevel::Info, format: LogFormat::Pretty }
    }
}

impl Default for Config {
    fn default() -> (r: Self)
        ensures
            r.server.workers == 4,
            r.server.tcp_idle_timeout_secs == 10,
            r.server.tcp_max_connections == 1000,
            r.cache.max_entries == 10_000,
            r.cache.reaper_interval_secs == 30,
            r.cache.max_negative_ttl_secs == 3600,
            r.resolver.timeout_ms == 2000,
            r.logging.level == LogLevel::Info,
            r.logging.format == LogFormat::Pretty,
    {
        Config {
            server: ServerConfig::default(),
            resolver: ResolverConfig::default(),
            cache: CacheConfig::default(),
            logging: LoggingConfig::default(),
        }
    }
}

/// The first rule that `c` breaks, checked in the order the errors are
/// listed, or `None` when it breaks none.
pub open spec fn first_violation(c: &Config) -> Option<ConfigError> {
    if c.cache.max_entries == 0 {
        Some(ConfigError::ZeroCacheCapacity)
    } else if c.cache.reaper_interval_secs == 0 {
        Some(ConfigError::ZeroReaperInterval)
    } else if c.server.workers == 0 {
        Some(ConfigError::ZeroWorkers)
    } else if c.server.tcp_idle_timeout_secs == 0 {
        Some(ConfigError::ZeroTcpIdleTimeout)
    } else if c.server.tcp_max_connections == 0 {
        Some(ConfigError::ZeroTcpMaxConnections)
    } else if c.cache.max_negative_ttl_secs == 0 {
        Some(ConfigError::ZeroMaxNegativeTtl)
    } else {
        None
    }
}

impl Config {
    /// Refuses a configuration that parses but makes no sense: a zero
    /// capacity, interval, worker count, idle timeout, connection limit or
    /// negative-TTL clamp.
    pub fn validate(&self) -> (r: Result<(), ConfigError>)
        ensures
            match first_violation(self) {
                None => r is Ok,
                Some(e) => r == Err::<(), ConfigError>(e),
            },
    {
        if self.cache.max_entries == 0 {
            Err(ConfigError::ZeroCacheCapacity)
        } else if self.cache.reaper_interval_secs == 0 {
            Err(ConfigError::ZeroReaperInterval)
        } else if self.server.workers == 0 {
            Err(ConfigError::ZeroWorkers)
        } else if self.server.tcp_idle_timeout_secs == 0 {
            Err(ConfigError::ZeroTcpIdleTimeout)
        } else if self.server.tcp_max_connections == 0 {
            Err(ConfigError::ZeroTcpMaxConnections)
        } else if self.cache.max_negative_ttl_secs == 0 {
            Err(ConfigError::ZeroMaxNegativeTtl)
        } else {
            Ok(())
        }
    }
}

/// The built-in defaults pass the checks.
pub proof fn lemma_defaults_valid(c: &Config)
    requires
        c.server.workers == 4,
        c.server.tcp_idle_timeout_secs == 10,
        c.server.tcp_max_connections == 1000,
        c.cache.max_entries == 10_000,
        c.cache.reaper_interval_secs == 30,
        c.cache.max_negative_ttl_secs == 3600,
    ensures
        first_violation(c) is None,
{
}

} // verus!
