use hyper::header::HeaderMap;
use vstd::prelude::*;
use vstd::string::StringSliceAdditionalSpecFns;

use crate::addr::SocketAddr;
use crate::backend::{
    connection_opened, healthy_indices, healthy_view, BackendPool,
};
use crate::headers::{
    header_fields, header_get, header_insert, header_remove, header_value_from_str,
    is_header_value, HEADER_NAMES_LIMIT,
};
use crate::lb::{LoadBalancingStrategy, Strategy};
use crate::text::http_uri;

verus! {

/// What a header map holds, by lower-case name: the values of that name.
pub type HeaderFields = Map<Seq<char>, Seq<Seq<u8>>>;

/// The hop-by-hop headers (RFC 2616, section 13.5.1), which a proxy must not
/// pass on, by their lower-case names.
pub open spec fn hop_by_hop_names() -> Set<Seq<char>> {
    set![
        "connection"@,
        "keep-alive"@,
        "proxy-authenticate"@,
        "proxy-authorization"@,
        "te"@,
        "trailers"@,
        "transfer-encoding"@,
        "upgrade"@,
    ]
}

/// The headers of `s` whose name is not among `names`.
pub open spec fn without_names(s: HeaderFields, names: Set<Seq<char>>) -> HeaderFields {
    s.remove_keys(names)
}

/// Takes out the hop-by-hop headers, each of them, with all their values.
pub fn strip_hop_by_hop_headers(headers: &mut HeaderMap)
    ensures
        header_fields(*final(headers)) == without_names(
            header_fields(*old(headers)),
            hop_by_hop_names(),
        ),
{
    proof {
        reveal_strlit("connection");
        reveal_strlit("keep-alive");
        reveal_strlit("proxy-authenticate");
        reveal_strlit("proxy-authorization");
        reveal_strlit("te");
        reveal_strlit("trailers");
        reveal_strlit("transfer-encoding");
        reveal_strlit("upgrade");
    }
    header_remove(headers, "connection");
    header_remove(headers, "keep-alive");
    header_remove(headers, "proxy-authenticate");
    header_remove(headers, "proxy-authorization");
    header_remove(headers, "te");
    header_remove(headers, "trailers");
    header_remove(headers, "transfer-encoding");
    header_remove(headers, "upgrade");
    assert(header_fields(*headers) =~= without_names(
        header_fields(*old(headers)),
        hop_by_hop_names(),
    ));
}

/// The headers after the forwarding headers are set, each to one value:
/// X-Forwarded-For to the client's IP address, X-Forwarded-Proto to `http`,
/// Host to the backend's address, and X-Forwarded-Host to the (first) Host
/// the client sent, where it sent one.
pub open spec fn forwarded(s: HeaderFields, client_ip: Seq<u8>, backend: Seq<u8>) -> HeaderFields {
    let s1 = s.insert("x-forwarded-for"@, seq![client_ip]);
    let s2 = s1.insert("x-forwarded-proto"@, seq!["http".spec_bytes()]);
    let s3 = s2.insert("host"@, seq![backend]);
    if s2.contains_key("host"@) {
        s3.insert("x-forwarded-host"@, seq![s2["host"@][0]])
    } else {
        s3
    }
}

/// Sets X-Forwarded-For to the client's IP address (as text), X-Forwarded-
/// Proto to `http`, Host to the backend's address (as text), and
/// X-Forwarded-Host to the Host the request came with, if it came with one.
/// Both texts must be bytes a header value may hold, and the map must have
/// room for four more names.
pub fn insert_x_forwarded_headers(headers: &mut HeaderMap, client_ip_text: &str, backend_addr_text: &str)
    requires
        is_header_value(client_ip_text.spec_bytes()),
        is_header_value(backend_addr_text.spec_bytes()),
        header_fields(*old(headers)).dom().finite(),
        header_fields(*old(headers)).dom().len() + 4 <= HEADER_NAMES_LIMIT,
    ensures
        header_fields(*final(headers)) == forwarded(
            header_fields(*old(headers)),
            client_ip_text.spec_bytes(),
            backend_addr_text.spec_bytes(),
        ),
{
    proof {
        reveal_strlit("x-forwarded-for");
        reveal_strlit("x-forwarded-proto");
        reveal_strlit("host");
        reveal_strlit("x-forwarded-host");
        reveal_strlit("http");
        lemma_http_is_header_value();
    }
    let ghost s = header_fields(*headers);
    let client = header_value_from_str(client_ip_text).unwrap();
    header_insert(headers, "x-forwarded-for", client);
    let scheme = header_value_from_str("http").unwrap();
    header_insert(headers, "x-forwarded-proto", scheme);
    let sent_host = header_get(headers, "host");
    let backend = header_value_from_str(backend_addr_text).unwrap();
    header_insert(headers, "host", backend);
    if let Some(host) = sent_host {
        header_insert(headers, "x-forwarded-host", host);
    }
    assert(header_fields(*headers) =~= forwarded(
        s,
        client_ip_text.spec_bytes(),
        backend_addr_text.spec_bytes(),
    ));
}

/// `http` is bytes a header value may hold.
proof fn lemma_http_is_header_value()
    ensures
        is_header_value("http".spec_bytes()),
{
    reveal_strlit("http");
    assert(vstd::string::is_ascii("http"));
    vstd::string::is_ascii_spec_bytes("http");
}

/// What forwarding a request to a backend came to.
#[derive(Clone, Copy, Debug, PartialEq, Eq, Structural)]
pub enum ForwardOutcome {
    /// The backend answered, with this status code.
    Responded(u16),
    /// The request to the backend failed.
    BackendError,
    /// The backend did not answer in time.
    TimedOut,
}

/// What the proxy answers a request with.
#[derive(Debug)]
pub enum ProxyReply {
    /// The backend's response, with this status code, is passed on.
    Relay { status: u16 },
    /// An error response of the proxy's own.
    Error { status: u16, body: String },
}

impl ProxyReply {
    /// The status code the client gets.
    pub fn status(&self) -> (r: u16)
        ensures
            r == match self {
                ProxyReply::Relay { status } => *status,
                ProxyReply::Error { status, .. } => *status,
            },
    {
        match self {
            ProxyReply::Relay { status } => *status,
            ProxyReply::Error { status, .. } => *status,
        }
    }
}

/// An error response with status `status` and body `body`.
pub fn build_error_response(status: u16, body: &str) -> (r: ProxyReply)
    ensures
        r matches ProxyReply::Error { status: s, body: b } && s == status && b@ == body@,
{
    ProxyReply::Error { status, body: body.to_owned() }
}

/// The answer when no backend is healthy: 503 Service Unavailable.
pub fn no_backend_reply() -> (r: ProxyReply)
    ensures
        r matches ProxyReply::Error { status: s, body: b } && s == 503 && b@
            == "No healthy backends available"@,
{
    build_error_response(503, "No healthy backends available")
}

/// Chooses, with `strategy`, among the healthy backends of `pool` for a
/// client at `client_addr`, and gives the chosen backend's position in the
/// pool; `None` exactly where no backend is healthy.
pub fn choose_backend(pool: &BackendPool, strategy: &mut Strategy, client_addr: &SocketAddr) -> (r:
    Option<usize>)
    requires
        pool.wf(),
        old(strategy).accepts(healthy_view(pool@)),
    ensures
        exists|k: Option<usize>|
            #![trigger old(strategy).select_post(healthy_view(pool@), Some(client_addr), *final(strategy), k)]
            old(strategy).select_post(healthy_view(pool@), Some(client_addr), *final(strategy), k)
                && match k {
                Some(k) => r == Some(healthy_indices(pool@)[k as int]),
                None => r is None,
            },
        r is Some <==> healthy_view(pool@).len() > 0,
        r matches Some(i) ==> i < pool@.len() && pool@[i as int].healthy,
{
    let healthy = pool.healthy_backends();
    let choice = strategy.select(healthy.as_slice(), Some(client_addr));
    proof {
        pool.lemma_len_fits();
        crate::backend::lemma_healthy_indices(pool@);
    }
    match choice {
        Some(k) => {
            let i = pool.healthy_position(k);
            Some(i)
        },
        None => None,
    }
}

/// Readies a request for the backend at position `index` of `pool`: counts
/// a connection to it opened, sets the forwarding headers, takes out the
/// hop-by-hop headers, and gives the address to send the request to
/// (`http://`, the backend's address as text, the request's path).
pub fn begin_forward(
    pool: &mut BackendPool,
    index: usize,
    headers: &mut HeaderMap,
    client_ip_text: &str,
    backend_addr_text: &str,
    path: &str,
) -> (r: String)
    requires
        old(pool).wf(),
        index < old(pool)@.len(),
        is_header_value(client_ip_text.spec_bytes()),
        is_header_value(backend_addr_text.spec_bytes()),
        header_fields(*old(headers)).dom().finite(),
        header_fields(*old(headers)).dom().len() + 4 <= HEADER_NAMES_LIMIT,
    ensures
        final(pool).wf(),
        final(pool)@ == connection_opened(old(pool)@, index as int),
        header_fields(*final(headers)) == without_names(
            forwarded(
                header_fields(*old(headers)),
                client_ip_text.spec_bytes(),
                backend_addr_text.spec_bytes(),
            ),
            hop_by_hop_names(),
        ),
        r@ == "http://"@ + backend_addr_text@ + path@,
{
    let uri = http_uri(backend_addr_text, path);
    insert_x_forwarded_headers(headers, client_ip_text, backend_addr_text);
    strip_hop_by_hop_headers(headers);
    pool.increment_connections(index);
    uri
}

/// The answer to a forwarded request: the backend's response, 502 Bad
/// Gateway where the request failed, or 504 Gateway Timeout where the backend
/// took too long.
pub fn reply_for_outcome(outcome: ForwardOutcome) -> (r: ProxyReply)
    ensures
        match outcome {
            ForwardOutcome::Responded(status) => r == ProxyReply::Relay { status },
            ForwardOutcome::BackendError => r matches ProxyReply::Error { status: s, body: b } && s
                == 502 && b@ == "Backend error"@,
            ForwardOutcome::TimedOut => r matches ProxyReply::Error { status: s, body: b } && s
                == 504 && b@ == "Gateway Timeout"@,
        },
{
    match outcome {
        ForwardOutcome::Responded(status) => ProxyReply::Relay { status },
        ForwardOutcome::BackendError => build_error_response(502, "Backend error"),
        ForwardOutcome::TimedOut => build_error_response(504, "Gateway Timeout"),
    }
}

/// A request readied for a backend carries no hop-by-hop header; it
/// carries X-Forwarded-For with the client's IP address alone,
/// X-Forwarded-Proto `http`, Host the backend's address, and X-Forwarded-Host
/// the (first) Host the client sent (where it sent none, X-Forwarded-Host is
/// left as it came); every other header is left as it came.
pub proof fn law_forwarded_headers(s: HeaderFields, client_ip: Seq<u8>, backend: Seq<u8>)
    ensures
        ({
            let out = without_names(forwarded(s, client_ip, backend), hop_by_hop_names());
            &&& forall|k: Seq<char>| #[trigger] hop_by_hop_names().contains(k) ==> !out.contains_key(k)
            &&& out.index_opt("x-forwarded-for"@) == Some(seq![client_ip])
            &&& out.index_opt("x-forwarded-proto"@) == Some(seq!["http".spec_bytes()])
            &&& out.index_opt("host"@) == Some(seq![backend])
            &&& out.index_opt("x-forwarded-host"@) == if s.contains_key("host"@) {
                Some(seq![s["host"@][0]])
            } else {
                s.index_opt("x-forwarded-host"@)
            }
            &&& forall|k: Seq<char>|
                !hop_by_hop_names().contains(k) && k != "x-forwarded-for"@ && k
                    != "x-forwarded-proto"@ && k != "host"@ && k != "x-forwarded-host"@
                    ==> #[trigger] out.index_opt(k) == s.index_opt(k)
        }),
{
    reveal_strlit("x-forwarded-for");
    reveal_strlit("x-forwarded-proto");
    reveal_strlit("host");
    reveal_strlit("x-forwarded-host");
    reveal_strlit("connection");
    reveal_strlit("keep-alive");
    reveal_strlit("proxy-authenticate");
    reveal_strlit("proxy-authorization");
    reveal_strlit("te");
    reveal_strlit("trailers");
    reveal_strlit("transfer-encoding");
    reveal_strlit("upgrade");
    let xff = "x-forwarded-for"@;
    let xfp = "x-forwarded-proto"@;
    let host = "host"@;
    let xfh = "x-forwarded-host"@;
    let hop = hop_by_hop_names();
    assert(xff.len() == 15 && xfp.len() == 17 && host.len() == 4 && xfh.len() == 16);
    assert(!hop.contains(xff) && !hop.contains(xfp) && !hop.contains(host) && !hop.contains(xfh))
        by {
        assert("transfer-encoding"@[0] != xfp[0]);
    }
}

} // verus!
