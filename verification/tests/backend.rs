use gungho::addr::{AddrParseError, SocketAddr};
use gungho::backend::{Backend, BackendPool, BackendPoolError};
use gungho::config::BackendConfig;

/// Reads a dotted IPv4 socket address such as `10.0.0.1:80`, the only form
/// these tests write; anything else is refused, as the standard parser would.
fn parse_addr(text: &str) -> Result<SocketAddr, AddrParseError> {
    let (ip, port) = text.rsplit_once(':').ok_or(AddrParseError)?;
    let port: u16 = port.parse().map_err(|_| AddrParseError)?;
    let octets: Vec<&str> = ip.split('.').collect();
    if octets.len() != 4 {
        return Err(AddrParseError);
    }
    let mut bytes = [0u8; 4];
    for (k, o) in octets.iter().enumerate() {
        if o.is_empty() || o.len() > 3 || (o.len() > 1 && o.starts_with('0')) {
            return Err(AddrParseError);
        }
        bytes[k] = o.parse().map_err(|_| AddrParseError)?;
    }
    Ok(SocketAddr::V4 { ip: u32::from_be_bytes(bytes), port })
}

fn pool_from_config(configs: &[BackendConfig]) -> Result<BackendPool, BackendPoolError> {
    let parsed: Vec<_> = configs.iter().map(|c| parse_addr(&c.addr)).collect();
    BackendPool::from_config(configs, &parsed)
}

fn two_backends() -> [BackendConfig; 2] {
    [
        BackendConfig { addr: "0.0.0.0:8080".to_string(), weight: 1 },
        BackendConfig { addr: "0.0.0.1:8080".to_string(), weight: 2 },
    ]
}

#[test]
fn test_pool_from_config() {
    let backends = two_backends();

    let pool = pool_from_config(&backends).expect("BackendPool ");

    assert_eq!(pool.all_backends().len(), 2);
    assert_eq!(
        pool.all_backends()[0].addr,
        parse_addr("0.0.0.0:8080").expect("Could not parse address")
    );
}

#[test]
fn test_healthy_filter() {
    let backends = two_backends();

    let pool = pool_from_config(&backends).expect("could not read backendpool from config");

    assert_eq!(pool.healthy_backends().len(), 2);
}

#[test]
fn test_mark_unhealthy() {
    let backends = two_backends();

    let mut pool = pool_from_config(&backends).expect("Could not read backendpool from config");

    pool.mark_unhealthy(0);

    assert_eq!(pool.healthy_backends().len(), 1);
}

#[test]
fn test_mark_healthy_recovery() {
    let backends = two_backends();

    let mut pool = pool_from_config(&backends).expect("Could not read backendpool from config");

    pool.mark_unhealthy(1);

    assert_eq!(pool.all_backends()[1].healthy, false);

    pool.mark_healthy(1);

    assert_eq!(pool.all_backends()[1].healthy, true);
}

#[test]
fn test_connection_counting() {
    let backends = two_backends();

    let mut pool = pool_from_config(&backends).expect("BackendPool ");

    assert_eq!(pool.all_backends()[0].active_connections, 0);
    assert_eq!(pool.all_backends()[1].active_connections, 0);

    for _ in 1..=13 {
        pool.increment_connections(1);
    }

    assert_eq!(pool.all_backends()[1].active_connections, 13);

    for _ in 1..=7 {
        pool.decrement_connections(1);
    }

    assert_eq!(pool.all_backends()[1].active_connections, 6);
}

#[test]
fn test_empty_config_errors() {
    let backends: &[BackendConfig] = &[];

    let pool = pool_from_config(backends);

    assert_eq!(pool.err(), Some(BackendPoolError::NoBackends));
}

#[test]
fn invalid_address_is_refused() {
    let backends = [
        BackendConfig { addr: "0.0.0.0:8080".to_string(), weight: 1 },
        BackendConfig { addr: "not an address".to_string(), weight: 1 },
    ];

    let pool = pool_from_config(&backends);

    assert_eq!(pool.err(), Some(BackendPoolError::AddrParseError(AddrParseError)));
}

#[test]
fn pool_from_config_keeps_weights_and_starts_healthy() {
    let pool = pool_from_config(&two_backends()).expect("pool");
    let bs = pool.all_backends();
    assert_eq!(bs[1].get_weight(), 2);
    assert!(bs.iter().all(|b| b.get_health() && b.get_active_connections() == 0));
}

#[test]
fn healthy_backends_keep_pool_order() {
    let mut pool = pool_from_config(&[
        BackendConfig { addr: "10.0.0.1:1".to_string(), weight: 1 },
        BackendConfig { addr: "10.0.0.2:1".to_string(), weight: 1 },
        BackendConfig { addr: "10.0.0.3:1".to_string(), weight: 1 },
    ])
    .expect("pool");
    pool.mark_unhealthy(1);
    let healthy = pool.healthy_backends();
    assert_eq!(healthy.len(), 2);
    assert_eq!(healthy[0].addr, parse_addr("10.0.0.1:1").unwrap());
    assert_eq!(healthy[1].addr, parse_addr("10.0.0.3:1").unwrap());
    assert_eq!(pool.healthy_position(1), 2);
}

#[test]
fn marking_out_of_range_changes_nothing() {
    let mut pool = pool_from_config(&two_backends()).expect("pool");
    assert_eq!(pool.mark_unhealthy(5), None);
    assert_eq!(pool.mark_healthy(2), None);
    assert_eq!(pool.increment_connections(9), None);
    assert_eq!(pool.decrement_connections(2), None);
    assert_eq!(pool.healthy_backends().len(), 2);
}

#[test]
fn health_by_address() {
    let mut pool = pool_from_config(&two_backends()).expect("pool");
    let a = parse_addr("0.0.0.1:8080").unwrap();
    let missing = parse_addr("9.9.9.9:9").unwrap();
    assert_eq!(pool.get_health_by_addr(a), Some(true));
    assert_eq!(pool.mark_unhealthy_by_addr(a), Some(()));
    assert_eq!(pool.get_health_by_addr(a), Some(false));
    assert_eq!(pool.healthy_backends().len(), 1);
    assert_eq!(pool.mark_healthy_by_addr(a), Some(()));
    assert_eq!(pool.get_health_by_addr(a), Some(true));
    assert_eq!(pool.get_health_by_addr(missing), None);
    assert_eq!(pool.mark_unhealthy_by_addr(missing), None);
}

#[test]
fn connection_count_wraps_below_zero() {
    let mut b = Backend::new(parse_addr("127.0.0.1:1").unwrap());
    b.decrement_connections();
    assert_eq!(b.get_active_connections(), usize::MAX);
    b.increment_connections();
    assert_eq!(b.get_active_connections(), 0);
}

#[test]
fn open_then_close_leaves_count() {
    let mut pool = pool_from_config(&two_backends()).expect("pool");
    pool.increment_connections(0);
    pool.decrement_connections(0);
    assert_eq!(pool.all_backends()[0].active_connections, 0);
}

#[test]
fn default_backend_and_pool() {
    let b = Backend::default();
    assert_eq!(b.get_addr(), parse_addr("127.0.0.1:0").unwrap());
    assert_eq!(b.get_weight(), 1);
    assert!(b.get_health());
    let pool = BackendPool::default();
    assert!(pool.all_backends().is_empty());
    assert!(pool.healthy_backends().is_empty());
}

#[test]
fn pool_new_builds_cache_from_health() {
    let mut down = Backend::new(parse_addr("127.0.0.1:0").unwrap());
    down.set_health(false);
    let pool = BackendPool::new(vec![down, Backend::new(parse_addr("127.0.0.1:1").unwrap())]);
    assert_eq!(pool.healthy_backends().len(), 1);
    assert_eq!(pool.healthy_position(0), 1);
}

#[test]
fn ipv6_octets_are_big_endian() {
    // [2001:db8::1428:7ab]:1234
    let a = SocketAddr::V6 {
        ip: 0x2001_0db8_0000_0000_0000_0000_1428_07ab,
        port: 1234,
        flowinfo: 0,
        scope_id: 0,
    };
    assert_eq!(
        a.ip_octets(),
        vec![0x20, 0x01, 0x0d, 0xb8, 0, 0, 0, 0, 0, 0, 0, 0, 0x14, 0x28, 0x07, 0xab]
    );
    assert_eq!(parse_addr("192.168.1.2:80").unwrap().ip_octets(), vec![192, 168, 1, 2]);
}
