use dnser::{CacheConfig, Config, ConfigError, IpAddress, LogFormat, LogLevel, LoggingConfig, DEFAULT_PORT};

#[test]
fn defaults_match_the_documented_file() {
    let c = Config::default();
    assert_eq!(c.server.listen.ip, IpAddress::V4([0, 0, 0, 0]));
    assert_eq!(c.server.listen.port, DEFAULT_PORT);
    assert_eq!(c.server.workers, 4);
    assert_eq!(c.server.tokio_threads, 0);
    assert_eq!(c.server.shutdown_drain_secs, 5);
    assert_eq!(c.server.tcp_idle_timeout_secs, 10);
    assert_eq!(c.server.tcp_max_connections, 1000);
    assert_eq!(c.server.udp_max_inflight, 1000);
    assert_eq!(c.resolver.upstreams.len(), 2);
    assert_eq!(c.resolver.upstreams[0].ip, IpAddress::V4([8, 8, 8, 8]));
    assert_eq!(c.resolver.upstreams[1].ip, IpAddress::V4([1, 1, 1, 1]));
    assert_eq!(c.resolver.timeout_ms, 2000);
    assert_eq!(c.cache.max_entries, 10_000);
    assert_eq!(c.cache.reaper_interval_secs, 30);
    assert_eq!(c.cache.max_negative_ttl_secs, 3600);
    assert_eq!(c.logging.level, LogLevel::Info);
    assert_eq!(c.logging.format, LogFormat::Pretty);
    assert!(c.validate().is_ok());
}

#[test]
fn zero_values_are_rejected_in_order() {
    let mut c = Config::default();
    c.server.workers = 0;
    assert!(matches!(c.validate(), Err(ConfigError::ZeroWorkers)));
    c.cache.max_entries = 0;
    assert!(matches!(c.validate(), Err(ConfigError::ZeroCacheCapacity)));

    let mut c = Config::default();
    c.cache.reaper_interval_secs = 0;
    assert!(matches!(c.validate(), Err(ConfigError::ZeroReaperInterval)));

    let mut c = Config::default();
    c.server.tcp_idle_timeout_secs = 0;
    assert!(matches!(c.validate(), Err(ConfigError::ZeroTcpIdleTimeout)));

    let mut c = Config::default();
    c.server.tcp_max_connections = 0;
    assert!(matches!(c.validate(), Err(ConfigError::ZeroTcpMaxConnections)));

    let mut c = Config::default();
    c.cache.max_negative_ttl_secs = 0;
    assert!(matches!(c.validate(), Err(ConfigError::ZeroMaxNegativeTtl)));
}

#[test]
fn section_defaults() {
    let cache = CacheConfig::default();
    assert_eq!(cache.max_entries, 10_000);
    let logging = LoggingConfig::default();
    assert_eq!(logging.level, LogLevel::Info);
}
