//! A small HTTP load balancer: backend pool bookkeeping, load-balancing
//! strategies, health tracking and request/response decisions, with the
//! behaviour of each piece stated as a contract and proved.

pub mod addr;
pub mod config;
pub mod backend;
pub mod lb;
pub mod health;
pub mod admin;
pub mod text;
pub mod headers;
pub mod proxy;
pub mod metrics;

pub use addr::{AddrParseError, SocketAddr};
