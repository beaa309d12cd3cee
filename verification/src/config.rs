use vstd::prelude::*;

use crate::addr::{AddrParseError, SocketAddr};

verus! {

/// Why a configuration was refused.
#[derive(Clone, Copy, Debug, PartialEq, Eq, Structural)]
pub enum ConfigValidationError {
    /// The configuration names no backend.
    ZeroBackends,
    /// Two backends are named by the same address text.
    DuplicateBackendAddrs,
    /// A backend's address is no socket address.
    InvalidAddrs,
}

/// The load-balancing algorithm a configuration asks for.
#[derive(Clone, Copy, Debug, PartialEq, Eq, Structural)]
pub enum Algorithm {
    RoundRobin,
    WeightedRoundRobin,
    LeastConnections,
    IpHash,
    Random,
}

impl Default for Algorithm {
    fn default() -> (r: Algorithm)
        ensures
            r == Algorithm::RoundRobin,
    {
        Algorithm::RoundRobin
    }
}

/// One backend as the configuration names it.
#[derive(Clone, Debug, PartialEq, Eq)]
pub struct BackendConfig {
    pub addr: String,
    pub weight: u32,
}

/// The weight of a backend whose configuration names none.
pub fn default_weight() -> (r: u32)
    ensures
        r == 1,
{
    1
}

/// How backends are checked for health.
#[derive(Debug, PartialEq, Eq)]
pub struct HealthCheckConfig {
    pub path: String,
    /// Interval between health checks in seconds
    pub interval: u64,
    /// Timeout for each health check request in seconds
    pub timeout: u64,
    pub healthy_threshold: u32,
    pub unhealthy_threshold: u32,
}

impl Default for HealthCheckConfig {
    fn default() -> (r: HealthCheckConfig)
        ensures
            r.path@ == "/health"@,
            r.interval == 5,
            r.timeout == 3,
            r.healthy_threshold == 3,
            r.unhealthy_threshold == 3,
    {
        HealthCheckConfig {
            path: String::from_str("/health"),
            interval: 5,
            timeout: 3,
            healthy_threshold: 3,
            unhealthy_threshold: 3,
        }
    }
}

/// Timeouts for backend connections in seconds
#[derive(Debug, PartialEq, Eq)]
pub struct TimeoutConfig {
    pub connect: u64,
    pub read: u64,
    pub write: u64,
}

impl Default for TimeoutConfig {
    fn default() -> (r: TimeoutConfig)
        ensures
            r.connect == 5,
            r.read == 30,
            r.write == 30,
    {
        TimeoutConfig { connect: 5, read: 30, write: 30 }
    }
}

/// The whole configuration of the load balancer.
#[derive(Debug, PartialEq, Eq)]
pub struct Config {
    pub listen_addr: String,
    pub admin_addr: String,
    pub backends: Vec<BackendConfig>,
    pub algorithm: Algorithm,
    pub health_check: HealthCheckConfig,
    pub timeouts: TimeoutConfig,
    /// The most connections served at once; 0 means no limit.
    pub max_connections: u32,
}

impl Default for Config {
    fn default() -> (r: Config)
        ensures
            r.listen_addr@ == "0.0.0.0:8080"@,
            r.admin_addr@ == "0.0.0.0:9090"@,
            r.backends@.len() == 0,
            r.algorithm == Algorithm::RoundRobin,
            r.health_check.path@ == "/health"@,
            r.health_check.interval == 5,
            r.health_check.timeout == 3,
            r.health_check.healthy_threshold == 3,
            r.health_check.unhealthy_threshold == 3,
            r.timeouts.connect == 5,
            r.timeouts.read == 30,
            r.timeouts.write == 30,
            r.max_connections == 0,
    {
        Config {
            listen_addr: String::from_str("0.0.0.0:8080"),
            admin_addr: String::from_str("0.0.0.0:9090"),
            backends: Vec::new(),
            algorithm: Algorithm::default(),
            health_check: HealthCheckConfig::default(),
            timeouts: TimeoutConfig::default(),
            max_connections: 0,
        }
    }
}

/// Two backends of the list are named by the same address text.
pub open spec fn has_duplicate_addrs(backends: Seq<BackendConfig>) -> bool {
    exists|i: int, j: int|
        0 <= i < j < backends.len() && #[trigger] backends[i].addr@ == #[trigger] backends[j].addr@
}

/// Some address of the list is no socket address.
pub open spec fn has_invalid_addr(parsed: Seq<Result<SocketAddr, AddrParseError>>) -> bool {
    exists|i: int| 0 <= i < parsed.len() && #[trigger] parsed[i] is Err
}

/// What checking a configuration gives, where `parsed[i]` is what reading the
/// address text of backend `i` as a socket address gave.
pub open spec fn validation_outcome(
    backends: Seq<BackendConfig>,
    parsed: Seq<Result<SocketAddr, AddrParseError>>,
) -> Result<(), ConfigValidationError> {
    if backends.len() == 0 {
        Err(ConfigValidationError::ZeroBackends)
    } else if has_duplicate_addrs(backends) {
        Err(ConfigValidationError::DuplicateBackendAddrs)
    } else if has_invalid_addr(parsed) {
        Err(ConfigValidationError::InvalidAddrs)
    } else {
        Ok(())
    }
}

impl Config {
    /// Checks the configuration: it needs a backend, no address text twice,
    /// and every address a socket address. `parsed[i]` is what reading the
    /// address text of `self.backends[i]` as a socket address gave.
    pub fn validate(&self, parsed: &[Result<SocketAddr, AddrParseError>]) -> (r: Result<
        (),
        ConfigValidationError,
    >)
        requires
            parsed@.len() == self.backends@.len(),
        ensures
            r == validation_outcome(self.backends@, parsed@),
    {
        let n = self.backends.len();
        if n == 0 {
            return Err(ConfigValidationError::ZeroBackends);
        }
        let mut i: usize = 0;
        while i < n
            invariant
                n == self.backends@.len(),
                i <= n,
                forall|a: int, b: int|
                    0 <= a < i && a < b < n ==> #[trigger] self.backends@[a].addr@
                        != #[trigger] self.backends@[b].addr@,
            decreases n - i,
        {
            let mut j: usize = i + 1;
            while j < n
                invariant
                    n == self.backends@.len(),
                    i < n,
                    i < j <= n,
                    forall|a: int, b: int|
                        0 <= a < i && a < b < n ==> #[trigger] self.backends@[a].addr@
                            != #[trigger] self.backends@[b].addr@,
                    forall|b: int|
                        i < b < j ==> self.backends@[i as int].addr@
                            != #[trigger] self.backends@[b].addr@,
                decreases n - j,
            {
                if self.backends[i].addr == self.backends[j].addr {
                    assert(has_duplicate_addrs(self.backends@)) by {
                        assert(self.backends@[i as int].addr@ == self.backends@[j as int].addr@);
                    }
                    return Err(ConfigValidationError::DuplicateBackendAddrs);
                }
                j = j + 1;
            }
            i = i + 1;
        }
        let mut k: usize = 0;
        while k < n
            invariant
                n == self.backends@.len(),
                n == parsed@.len(),
                k <= n,
                !has_duplicate_addrs(self.backends@),
                forall|a: int| 0 <= a < k ==> #[trigger] parsed@[a] is Ok,
            decreases n - k,
        {
            if parsed[k].is_err() {
                assert(has_invalid_addr(parsed@)) by {
                    assert(parsed@[k as int] is Err);
                }
                return Err(ConfigValidationError::InvalidAddrs);
            }
            k = k + 1;
        }
        Ok(())
    }
}


/// A configuration is accepted exactly when it has a backend, no two of its
/// backends (at any two positions) are named by the same address text, and
/// every address text reads as a socket address; where two backends, at
/// any positions, share an address text, it is refused as holding
/// duplicates, whatever the addresses read as.
pub proof fn law_validation_outcome(
    backends: Seq<BackendConfig>,
    parsed: Seq<Result<SocketAddr, AddrParseError>>,
)
    requires
        parsed.len() == backends.len(),
    ensures
        validation_outcome(backends, parsed) is Ok <==> {
            &&& backends.len() > 0
            &&& forall|i: int, j: int|
                0 <= i < j < backends.len() ==> #[trigger] backends[i].addr@
                    != #[trigger] backends[j].addr@
            &&& forall|i: int| 0 <= i < parsed.len() ==> #[trigger] parsed[i] is Ok
        },
        backends.len() == 0 ==> validation_outcome(backends, parsed) == Err::<
            (),
            ConfigValidationError,
        >(ConfigValidationError::ZeroBackends),
        forall|i: int, j: int|
            0 <= i < j < backends.len() && #[trigger] backends[i].addr@ == #[trigger] backends[j].addr@
                ==> validation_outcome(backends, parsed) == Err::<(), ConfigValidationError>(
                ConfigValidationError::DuplicateBackendAddrs,
            ),
        (forall|i: int, j: int|
            0 <= i < j < backends.len() ==> #[trigger] backends[i].addr@
                != #[trigger] backends[j].addr@) && backends.len() > 0 && (exists|i: int|
            0 <= i < parsed.len() && #[trigger] parsed[i] is Err) ==> validation_outcome(
            backends,
            parsed,
        ) == Err::<(), ConfigValidationError>(ConfigValidationError::InvalidAddrs),
{
}

} // verus!
