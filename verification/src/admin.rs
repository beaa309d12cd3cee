use vstd::prelude::*;

use crate::text::{decimal, push_decimal};

verus! {

/// The endpoints of the admin server.
#[derive(Clone, Copy, Debug, PartialEq, Eq, Structural)]
pub enum AdminRoute {
    Metrics,
    Livez,
    Readyz,
    NotFound,
}

/// A response of the admin server: status code, content type where one is
/// set, and body.
#[derive(Debug)]
pub struct AdminResponse {
    pub status: u16,
    pub content_type: Option<String>,
    pub body: String,
}

/// The endpoint a request path goes to.
pub fn route(path: &str) -> (r: AdminRoute)
    ensures
        r == (if path@ == "/metrics"@ {
            AdminRoute::Metrics
        } else if path@ == "/livez"@ {
            AdminRoute::Livez
        } else if path@ == "/readyz"@ {
            AdminRoute::Readyz
        } else {
            AdminRoute::NotFound
        }),
{
    let p = path.to_owned();
    if p == String::from_str("/metrics") {
        AdminRoute::Metrics
    } else if p == String::from_str("/livez") {
        AdminRoute::Livez
    } else if p == String::from_str("/readyz") {
        AdminRoute::Readyz
    } else {
        AdminRoute::NotFound
    }
}

/// The metrics, in the Prometheus text format that `metrics_text` holds.
pub fn handle_metrics(metrics_text: String) -> (r: AdminResponse)
    ensures
        r.status == 200,
        r.content_type matches Some(t) && t@ == "text/plain; version=0.0.4; charset=utf-8"@,
        r.body@ == metrics_text@,
{
    AdminResponse {
        status: 200,
        content_type: Some(String::from_str("text/plain; version=0.0.4; charset=utf-8")),
        body: metrics_text,
    }
}

/// The server is alive: always 200 OK.
pub fn handle_livez() -> (r: AdminResponse)
    ensures
        r.status == 200,
        r.content_type is None,
        r.body@ == "{\"status\": \"ok\"}"@,
{
    AdminResponse { status: 200, content_type: None, body: String::from_str("{\"status\": \"ok\"}") }
}

/// The server is ready when some backend is healthy: 200 OK with the count
/// of healthy backends, else 503 Service Unavailable.
pub fn handle_readyz(healthy_count: usize) -> (r: AdminResponse)
    ensures
        r.content_type is None,
        healthy_count == 0 ==> r.status == 503 && r.body@
            == "{\"status\": \"not ready\", \"healthy_backends\": 0}"@,
        healthy_count > 0 ==> r.status == 200 && r.body@ == "{\"status\": \"ok\", \"healthy_backends\": "@
            + decimal(healthy_count as nat) + "}"@,
{
    if healthy_count == 0 {
        AdminResponse {
            status: 503,
            content_type: None,
            body: String::from_str("{\"status\": \"not ready\", \"healthy_backends\": 0}"),
        }
    } else {
        let mut body = String::from_str("{\"status\": \"ok\", \"healthy_backends\": ");
        push_decimal(&mut body, healthy_count);
        body.append("}");
        AdminResponse { status: 200, content_type: None, body }
    }
}

/// Any other path: 404 Not Found.
pub fn handle_default() -> (r: AdminResponse)
    ensures
        r.status == 404,
        r.content_type is None,
        r.body@ == "{\"status\": \"could not be found\"}"@,
{
    AdminResponse {
        status: 404,
        content_type: None,
        body: String::from_str("{\"status\": \"could not be found\"}"),
    }
}

} // verus!
