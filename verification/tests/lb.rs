use std::collections::HashSet;

use gungho::addr::{AddrParseError, SocketAddr};
use gungho::backend::{Backend, BackendPool};
use gungho::config::{Algorithm, BackendConfig};
use gungho::lb::{
    create_strategy, IpHash, LeastConnections, LoadBalancingStrategy, Random, RoundRobin,
    WeightedRoundRobin,
};

/// Reads a dotted IPv4 socket address such as `10.0.0.1:80`, the only form
/// these tests write; anything else is refused, as the standard parser would.
fn parse_addr(text: &str) -> Result<SocketAddr, AddrParseError> {
    let (ip, port) = text.rsplit_once(':').ok_or(AddrParseError)?;
    let port: u16 = port.parse().map_err(|_| AddrParseError)?;
    let octets: Vec<&str> = ip.split('.').collect();
    if octets.len() != 4 {
        return Err(AddrParseError);
    }
    let mut bytes = [0u8; 4];
    for (k, o) in octets.iter().enumerate() {
        if o.is_empty() || o.len() > 3 || (o.len() > 1 && o.starts_with('0')) {
            return Err(AddrParseError);
        }
        bytes[k] = o.parse().map_err(|_| AddrParseError)?;
    }
    Ok(SocketAddr::V4 { ip: u32::from_be_bytes(bytes), port })
}

fn setup_pool(configs: &[BackendConfig]) -> BackendPool {
    let parsed: Vec<_> = configs.iter().map(|c| parse_addr(&c.addr)).collect();
    BackendPool::from_config(configs, &parsed).expect("Failed to create BackendPool")
}

fn three_backends() -> Vec<BackendConfig> {
    vec![
        BackendConfig { addr: "0.0.0.0:8080".into(), weight: 1 },
        BackendConfig { addr: "0.0.0.1:8080".into(), weight: 1 },
        BackendConfig { addr: "0.0.0.2:8080".into(), weight: 1 },
    ]
}

// --- ip hash ---

#[test]
fn test_deterministic_ipv4() {
    let pool = setup_pool(&three_backends());
    let mut strategy = IpHash::new();
    let addr = parse_addr("192.168.1.1:1234").expect("Failed to parse SocketAddr");

    let first = strategy.select(&pool.healthy_backends(), Some(&addr));

    assert!(first.is_some());
    for _ in 0..100 {
        assert_eq!(strategy.select(&pool.healthy_backends(), Some(&addr)), first);
    }
}

#[test]
fn test_deterministic_ipv6() {
    let pool = setup_pool(&three_backends());
    let mut strategy = IpHash::new();
    // [2001:db8::1428:7ab]:1234
    let addr = SocketAddr::V6 {
        ip: 0x2001_0db8_0000_0000_0000_0000_1428_07ab,
        port: 1234,
        flowinfo: 0,
        scope_id: 0,
    };

    let first = strategy.select(&pool.healthy_backends(), Some(&addr));

    assert!(first.is_some());
    for _ in 0..100 {
        assert_eq!(strategy.select(&pool.healthy_backends(), Some(&addr)), first);
    }
}

#[test]
fn test_different_ips_distribute() {
    let pool = setup_pool(&three_backends());
    let mut strategy = IpHash::new();
    let ips: Vec<SocketAddr> = (1..=100)
        .map(|i| parse_addr(&format!("11.0.0.{i}:5678")).expect("Failed to parse SocketAddr"))
        .collect();

    let unique_indices: HashSet<usize> = ips
        .iter()
        .map(|addr| {
            strategy
                .select(&pool.healthy_backends(), Some(addr))
                .expect("Failed to select backend")
        })
        .collect();

    assert!(unique_indices.len() > 1, "all IPs mapped to the same backend");
}

#[test]
fn test_none_addr_returns_zero() {
    let pool = setup_pool(&three_backends());
    let mut strategy = IpHash::new();

    assert_eq!(strategy.select(&pool.healthy_backends(), None), Some(0));
}

#[test]
fn ip_hash_test_empty_returns_none() {
    let mut strategy = IpHash::new();
    let empty: Vec<Backend> = Vec::new();

    assert!(strategy.select(&empty, None).is_none());
}

#[test]
fn ip_hash_matches_nginx_hash() {
    // 89 -> (89*113+192)%6271 = 3978 -> (3978*113+168)%6271 = 4441
    // -> (4441*113+1)%6271 = 154 -> (154*113+1)%6271 = 4861
    let pool = setup_pool(&three_backends());
    let mut strategy = IpHash::new();
    let addr = parse_addr("192.168.1.1:1234").unwrap();
    assert_eq!(strategy.select(&pool.healthy_backends(), Some(&addr)), Some(4861 % 3));
    let addr = parse_addr("192.168.1.1:9999").unwrap();
    assert_eq!(strategy.select(&pool.healthy_backends()[..2], Some(&addr)), Some(4861 % 2));
}

// --- least connections ---

#[test]
fn test_distributes_evenly() {
    let mut pool = setup_pool(&three_backends());
    let mut strategy = LeastConnections::new();

    for _ in 0..10 {
        let index = strategy
            .select(&pool.healthy_backends(), None)
            .expect("Failed to select backend");
        let position = pool.healthy_position(index);
        pool.increment_connections(position);
    }

    assert_eq!(pool.healthy_backends()[0].get_active_connections(), 4);
    assert_eq!(pool.healthy_backends()[1].get_active_connections(), 3);
    assert_eq!(pool.healthy_backends()[2].get_active_connections(), 3);
}

#[test]
fn test_selects_lowest_connections() {
    let mut pool = setup_pool(&three_backends());
    let mut strategy = LeastConnections::new();
    for _ in 0..5 {
        pool.increment_connections(0);
    }
    for _ in 0..2 {
        pool.increment_connections(1);
    }
    for _ in 0..8 {
        pool.increment_connections(2);
    }

    let selected = strategy.select(pool.all_backends(), None);

    assert_eq!(selected, Some(1));
}

#[test]
fn test_tie_picks_first() {
    let mut pool = setup_pool(&three_backends());
    let mut strategy = LeastConnections::new();
    for _ in 0..3 {
        pool.increment_connections(0);
    }
    for _ in 0..3 {
        pool.increment_connections(1);
    }
    for _ in 0..3 {
        pool.increment_connections(2);
    }

    let selected = strategy.select(pool.all_backends(), None);

    assert_eq!(selected, Some(0));
}

#[test]
fn test_all_zero() {
    let pool = setup_pool(&three_backends());
    let mut strategy = LeastConnections::new();

    let selected = strategy.select(pool.all_backends(), None);

    assert_eq!(selected, Some(0));
}

#[test]
fn least_connections_test_empty_returns_none() {
    let mut strategy = LeastConnections::new();
    let empty: Vec<Backend> = Vec::new();

    assert!(strategy.select(&empty, None).is_none());
}

#[test]
fn least_connections_all_at_maximum_picks_first() {
    let mut b = Backend::new(parse_addr("127.0.0.1:1").unwrap());
    b.decrement_connections();
    let mut strategy = LeastConnections::default();
    assert_eq!(strategy.select(&[b, b, b], None), Some(0));
}

// --- factory ---

#[test]
fn test_factory_creates_round_robin() {
    let strategy = create_strategy(&Algorithm::RoundRobin);
    assert_eq!(strategy.algorithm(), Algorithm::RoundRobin);
}

#[test]
fn test_factory_creates_weighted_round_robin() {
    let strategy = create_strategy(&Algorithm::WeightedRoundRobin);
    assert_eq!(strategy.algorithm(), Algorithm::WeightedRoundRobin);
}

#[test]
fn test_factory_creates_least_connections() {
    let strategy = create_strategy(&Algorithm::LeastConnections);
    assert_eq!(strategy.algorithm(), Algorithm::LeastConnections);
}

// --- random ---

#[test]
fn test_returns_valid_index() {
    let mut strategy = Random::new();
    let pool = setup_pool(&three_backends());

    for _ in 0..=1000 {
        assert!(
            matches!(strategy.select(&pool.healthy_backends(), None), Some(index) if index < pool.healthy_backends().len())
        );
    }
}

#[test]
fn random_test_empty_returns_none() {
    let mut strategy = Random::new();
    let empty: Vec<Backend> = Vec::new();

    assert!(strategy.select(&empty, None).is_none());
}

// --- round robin ---

#[test]
fn test_even_distribution() {
    let pool = setup_pool(&three_backends());
    let mut strategy = RoundRobin::new();
    let healthy = pool.healthy_backends();

    for i in 0..300 {
        let selected = strategy.select(&healthy, None).expect("Should select a backend");

        assert_eq!(selected, i % healthy.len());
    }
}

#[test]
fn test_wraps_around() {
    let pool = setup_pool(&three_backends());
    let mut strategy = RoundRobin::new();
    let healthy = pool.healthy_backends();

    assert_eq!(strategy.select(&healthy, None), Some(0));
    assert_eq!(strategy.select(&healthy, None), Some(1));
    assert_eq!(strategy.select(&healthy, None), Some(2));
    assert_eq!(strategy.select(&healthy, None), Some(0));
}

#[test]
fn round_robin_test_single_backend() {
    let pool = setup_pool(&[BackendConfig { addr: "0.0.0.0:8080".into(), weight: 1 }]);
    let mut strategy = RoundRobin::new();
    let healthy = pool.healthy_backends();

    assert_eq!(strategy.select(&healthy, None), Some(0));
    assert_eq!(strategy.select(&healthy, None), Some(0));
    assert_eq!(strategy.select(&healthy, None), Some(0));
}

#[test]
fn round_robin_test_empty_returns_none() {
    let mut strategy = RoundRobin::new();
    let empty: Vec<Backend> = Vec::new();

    assert!(strategy.select(&empty, None).is_none());
}

#[test]
fn round_robin_empty_list_does_not_advance() {
    let pool = setup_pool(&three_backends());
    let mut strategy = RoundRobin::new();
    let healthy = pool.healthy_backends();
    assert_eq!(strategy.select(&healthy, None), Some(0));
    assert_eq!(strategy.select(&[], None), None);
    assert_eq!(strategy.select(&healthy, None), Some(1));
}

#[test]
fn round_robin_cycle_covers_every_backend() {
    let pool = setup_pool(&three_backends());
    let mut strategy = RoundRobin::new();
    let healthy = pool.healthy_backends();
    strategy.select(&healthy, None);
    let picks: HashSet<usize> = (0..3).map(|_| strategy.select(&healthy, None).unwrap()).collect();
    assert_eq!(picks.len(), 3);
}

// --- weighted round robin ---

#[test]
fn test_weighted_distribution() {
    let pool = setup_pool(&[
        BackendConfig { addr: "0.0.0.0:8080".into(), weight: 5 },
        BackendConfig { addr: "0.0.0.1:8080".into(), weight: 1 },
        BackendConfig { addr: "0.0.0.2:8080".into(), weight: 1 },
    ]);
    let mut strategy = WeightedRoundRobin::new();

    let mut counts = [0u32; 3];
    for _ in 0..700 {
        let idx = strategy.select(&pool.healthy_backends(), None).expect("No backend selected");
        counts[idx] += 1;
    }

    assert_eq!(counts[0], 500);
    assert_eq!(counts[1], 100);
    assert_eq!(counts[2], 100);
}

#[test]
fn test_equal_weights() {
    let pool = setup_pool(&three_backends());
    let mut strategy = WeightedRoundRobin::new();

    let mut counts = [0u32; 3];
    for _ in 0..300 {
        let idx = strategy.select(&pool.healthy_backends(), None).expect("No backend selected");
        counts[idx] += 1;
    }

    assert_eq!(counts[0], 100);
    assert_eq!(counts[1], 100);
    assert_eq!(counts[2], 100);
}

#[test]
fn weighted_round_robin_test_single_backend() {
    let pool = setup_pool(&[BackendConfig { addr: "0.0.0.0:8080".into(), weight: 1 }]);
    let mut strategy = WeightedRoundRobin::new();

    let mut counts = [0u32; 1];
    for _ in 0..100 {
        let idx = strategy.select(&pool.healthy_backends(), None).expect("No backend selected");
        counts[idx] += 1;
    }

    assert_eq!(counts[0], 100);
}

#[test]
fn weighted_round_robin_test_empty_returns_none() {
    let mut strategy = WeightedRoundRobin::new();
    let empty: Vec<Backend> = Vec::new();

    assert!(strategy.select(&empty, None).is_none());
}

#[test]
fn weighted_round_robin_is_smooth() {
    // nginx's example: weights 5, 1, 1 give a, a, b, a, c, a, a.
    let pool = setup_pool(&[
        BackendConfig { addr: "0.0.0.0:8080".into(), weight: 5 },
        BackendConfig { addr: "0.0.0.1:8080".into(), weight: 1 },
        BackendConfig { addr: "0.0.0.2:8080".into(), weight: 1 },
    ]);
    let mut strategy = WeightedRoundRobin::new();
    let picks: Vec<usize> =
        (0..7).map(|_| strategy.select(&pool.healthy_backends(), None).unwrap()).collect();
    assert_eq!(picks, vec![0, 0, 1, 0, 2, 0, 0]);
}

#[test]
fn ip_hash_ignores_client_port() {
    let pool = setup_pool(&three_backends());
    let mut strategy = IpHash::new();
    let a = parse_addr("10.1.2.3:1000").unwrap();
    let b = parse_addr("10.1.2.3:2000").unwrap();
    assert_eq!(
        strategy.select(&pool.healthy_backends(), Some(&a)),
        strategy.select(&pool.healthy_backends(), Some(&b))
    );
}

#[test]
fn weighted_round_robin_gives_new_positions_zero_credit() {
    let pool = setup_pool(&three_backends());
    let mut strategy = WeightedRoundRobin::new();
    let healthy = pool.healthy_backends();
    // Two backends: credits (1, 1) -> pick 0 -> (-1, 1).
    assert_eq!(strategy.select(&healthy[..2], None), Some(0));
    // A third appears with credit 0: (0, 2, 1) -> pick 1 -> (0, -1, 1).
    assert!(strategy.can_select(&healthy));
    assert_eq!(strategy.select(&healthy, None), Some(1));
    // (1, 0, 2) -> pick 2.
    assert_eq!(strategy.select(&healthy, None), Some(2));
}

#[test]
fn weighted_round_robin_heavy_weights_cycle() {
    let mut b0 = Backend::new(parse_addr("10.0.0.1:1").unwrap());
    b0.weight = 3_000_000_000;
    let mut b1 = Backend::new(parse_addr("10.0.0.2:1").unwrap());
    b1.weight = 1_000_000_000;
    let bs = [b0, b1];
    let mut strategy = WeightedRoundRobin::new();
    let picks: Vec<usize> = (0..8).map(|_| strategy.select(&bs, None).unwrap()).collect();
    assert_eq!(picks, vec![0, 0, 1, 0, 0, 0, 1, 0]);
}

#[test]
fn weighted_round_robin_zero_weight_never_chosen() {
    let mut b0 = Backend::new(parse_addr("10.0.0.1:1").unwrap());
    b0.weight = 2;
    let mut b1 = Backend::new(parse_addr("10.0.0.2:1").unwrap());
    b1.weight = 0;
    let mut b2 = Backend::new(parse_addr("10.0.0.3:1").unwrap());
    b2.weight = 1;
    let bs = [b0, b1, b2];
    let mut strategy = WeightedRoundRobin::new();
    // (2, 0, 1) -> 0 -> (-1, 0, 1); (1, 0, 2) -> 2 -> (1, 0, -1); (3, 0, 0) -> 0 -> (0, 0, 0).
    let picks: Vec<usize> = (0..6).map(|_| strategy.select(&bs, None).unwrap()).collect();
    assert_eq!(picks, vec![0, 2, 0, 0, 2, 0]);
}

#[test]
fn round_robin_empty_calls_do_not_advance() {
    let pool = setup_pool(&three_backends());
    let mut strategy = RoundRobin::new();
    let healthy = pool.healthy_backends();
    let empty: Vec<Backend> = Vec::new();
    assert_eq!(strategy.select(&healthy, None), Some(0));
    assert_eq!(strategy.select(&empty, None), None);
    assert_eq!(strategy.select(&healthy, None), Some(1));
    assert_eq!(strategy.select(&empty, None), None);
    assert_eq!(strategy.select(&empty, None), None);
    assert_eq!(strategy.select(&healthy, None), Some(2));
    assert_eq!(strategy.select(&healthy, None), Some(0));
}
