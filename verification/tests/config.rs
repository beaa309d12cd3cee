use gungho::addr::{AddrParseError, SocketAddr};
use gungho::config::{
    default_weight, Algorithm, BackendConfig, Config, ConfigValidationError, HealthCheckConfig,
    TimeoutConfig,
};

/// Reads a dotted IPv4 socket address such as `10.0.0.1:80`, the only form
/// these tests write; anything else is refused, as the standard parser would.
fn parse_addr(text: &str) -> Result<SocketAddr, AddrParseError> {
    let (ip, port) = text.rsplit_once(':').ok_or(AddrParseError)?;
    let port: u16 = port.parse().map_err(|_| AddrParseError)?;
    let octets: Vec<&str> = ip.split('.').collect();
    if octets.len() != 4 {
        return Err(AddrParseError);
    }
    let mut bytes = [0u8; 4];
    for (k, o) in octets.iter().enumerate() {
        if o.is_empty() || o.len() > 3 || (o.len() > 1 && o.starts_with('0')) {
            return Err(AddrParseError);
        }
        bytes[k] = o.parse().map_err(|_| AddrParseError)?;
    }
    Ok(SocketAddr::V4 { ip: u32::from_be_bytes(bytes), port })
}

fn validate(config: &Config) -> Result<(), ConfigValidationError> {
    let parsed: Vec<_> = config.backends.iter().map(|b| parse_addr(&b.addr)).collect();
    config.validate(&parsed)
}

fn with_backends(addrs: &[&str]) -> Config {
    Config {
        backends: addrs
            .iter()
            .map(|a| BackendConfig { addr: a.to_string(), weight: default_weight() })
            .collect(),
        ..Config::default()
    }
}

#[test]
fn test_reject_zero_backends() {
    // The configuration an empty file gives: all defaults.
    let config = Config::default();

    let result = validate(&config);

    assert_eq!(result.err(), Some(ConfigValidationError::ZeroBackends));
}

#[test]
fn test_reject_duplicate_backend_addrs() {
    let config = with_backends(&["0.0.0.0:3000", "0.0.0.0:3000"]);

    let result = validate(&config);

    assert_eq!(result.err(), Some(ConfigValidationError::DuplicateBackendAddrs));
}

#[test]
fn test_reject_invalid_backend_addrs() {
    let config = with_backends(&["invalid_addr"]);

    let result = validate(&config);

    assert_eq!(result.err(), Some(ConfigValidationError::InvalidAddrs));
}

#[test]
fn valid_config_passes() {
    let config = with_backends(&["127.0.0.1:3000", "127.0.0.1:3001"]);
    assert_eq!(validate(&config), Ok(()));
}

#[test]
fn duplicates_are_reported_before_invalid_addresses() {
    let config = with_backends(&["nope", "nope"]);
    assert_eq!(validate(&config).err(), Some(ConfigValidationError::DuplicateBackendAddrs));
}

#[test]
fn duplicate_texts_only_count_when_equal_as_text() {
    // Same socket address written two ways is not a duplicate.
    let config = with_backends(&["127.0.0.1:3000", "127.000.0.1:3000"]);
    assert_eq!(validate(&config).err(), Some(ConfigValidationError::InvalidAddrs));
    let config = with_backends(&["127.0.0.1:3000", "127.0.0.2:3000"]);
    assert_eq!(validate(&config), Ok(()));
}

#[test]
fn defaults() {
    let config = Config::default();
    assert_eq!(config.listen_addr, "0.0.0.0:8080");
    assert_eq!(config.admin_addr, "0.0.0.0:9090");
    assert!(config.backends.is_empty());
    assert_eq!(config.algorithm, Algorithm::RoundRobin);
    assert_eq!(config.max_connections, 0);
    assert_eq!(
        config.health_check,
        HealthCheckConfig {
            path: String::from("/health"),
            interval: 5,
            timeout: 3,
            healthy_threshold: 3,
            unhealthy_threshold: 3,
        }
    );
    assert_eq!(config.timeouts, TimeoutConfig { connect: 5, read: 30, write: 30 });
    assert_eq!(default_weight(), 1);
    assert_eq!(Algorithm::default(), Algorithm::RoundRobin);
}
