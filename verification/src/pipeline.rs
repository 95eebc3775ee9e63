//! The per-request pipeline: derive the routing host from the request,
//! apply the admission gate, consult the override policy, select a peer,
//! and fix the outbound headers.
//!
//! Stages run strictly in order for one request; the pool is the only shared
//! state touched, and only through its selection contract.  A rejected
//! request never reaches selection.

use vstd::prelude::*;
use crate::bytes::copy_bytes;
use crate::bytes::is_prefix_of;
use crate::bytes::is_visible_ascii;
use crate::bytes::starts_with;
use crate::bytes::visible_ascii;
use crate::policy::RoutingPolicy;
use crate::pool::BackendPool;
use crate::pool::SelectError;
use crate::pool::selected_index;

verus! {

/// What the forwarding collaborator needs to reach the chosen backend:
/// its address, whether to speak TLS to it, and the SNI value to present.
pub struct PeerDescriptor {
    pub address: Vec<u8>,
    pub use_tls: bool,
    pub sni: Vec<u8>,
}

/// A request cleared for forwarding: the peer, and the `Host` header value
/// the outbound request must carry.
pub struct ForwardPlan {
    pub peer: PeerDescriptor,
    pub host_header: Vec<u8>,
}

/// The terminal outcome of the pipeline for one request.
pub enum RequestOutcome {
    /// The admission gate rejected the path: respond 403, contact no backend.
    Forbidden,
    /// No healthy backend exists: respond with a gateway-unavailable 5xx.
    BadGateway,
    /// Forward the request as planned.
    Forward(ForwardPlan),
}

/// Static per-proxy configuration: the path prefix the admission gate
/// requires, and whether upstream connections speak TLS.
pub struct ProxyConfig {
    pub allowed_prefix: Vec<u8>,
    pub upstream_tls: bool,
}

/// Per-request scratch state, created at request start and dropped at
/// response completion.  The counter is a diagnostic extension slot; no
/// routing decision reads it.
pub struct RequestContext {
    pub counter: usize,
}

impl RequestContext {
    /// A fresh context, its counter at zero.
    pub fn new() -> (c: RequestContext)
        ensures
            c.counter == 0,
    {
        RequestContext { counter: 0 }
    }

    /// Bumps the diagnostic counter, saturating at the top.
    pub fn tick(&mut self)
        ensures
            final(self).counter == (if old(self).counter < usize::MAX {
                old(self).counter + 1
            } else {
                old(self).counter as int
            }),
    {
        if self.counter < usize::MAX {
            self.counter = self.counter + 1;
        }
    }
}

impl ProxyConfig {
    /// The admission gate: a request passes exactly when its path starts
    /// with the configured allowed prefix.
    pub fn allows(&self, path: &Vec<u8>) -> (r: bool)
        ensures
            r == is_prefix_of(self.allowed_prefix@, path@),
    {
        starts_with(path, &self.allowed_prefix)
    }
}

/// The view of an optional byte string.
pub open spec fn opt_view(o: Option<Vec<u8>>) -> Option<Seq<u8>> {
    match o {
        Option::Some(v) => Option::Some(v@),
        Option::None => Option::None,
    }
}

/// The routing host when the `Host` header is absent or undecodable: the
/// request URI's authority host if present, else the empty string.
pub open spec fn host_fallback(authority: Option<Seq<u8>>) -> Seq<u8> {
    match authority {
        Option::Some(a) => a,
        Option::None => Seq::empty(),
    }
}

/// The routing host of a request: the `Host` header when present and
/// decodable as text, else the URI authority host, else empty.  The same
/// value serves as outbound SNI and outbound `Host` header.
pub open spec fn spec_derive_host(header: Option<Seq<u8>>, authority: Option<Seq<u8>>) -> Seq<
    u8,
> {
    match header {
        Option::Some(h) => if is_visible_ascii(h) {
            h
        } else {
            host_fallback(authority)
        },
        Option::None => host_fallback(authority),
    }
}

/// Derives the routing host from the request's `Host` header bytes and URI
/// authority host.  A header that does not decode as text is recovered from
/// locally by falling back; the request is never aborted here.
pub fn derive_host(header: &Option<Vec<u8>>, authority: &Option<Vec<u8>>) -> (h: Vec<u8>)
    ensures
        h@ == spec_derive_host(opt_view(*header), opt_view(*authority)),
{
    match header {
        Option::Some(hv) => {
            if visible_ascii(hv) {
                return copy_bytes(hv);
            }
        },
        Option::None => {},
    }
    match authority {
        Option::Some(a) => copy_bytes(a),
        Option::None => Vec::new(),
    }
}

/// Selects the peer for a request with the given routing host: a matching
/// override rule pins the request to that rule's candidates and leaves the
/// pool untouched; otherwise round-robin selection over the pool decides,
/// and with no healthy backend the error is handed back to the caller.
/// Whatever decided, the peer's SNI is the routing host itself.
pub fn select_peer(
    policy: &RoutingPolicy,
    pool: &mut BackendPool,
    host: &Vec<u8>,
    use_tls: bool,
) -> (r: Result<PeerDescriptor, SelectError>)
    requires
        policy.wf(),
        old(pool).wf(),
    ensures
        final(pool).wf(),
        final(pool).addrs_spec() == old(pool).addrs_spec(),
        final(pool).health_spec() == old(pool).health_spec(),
        policy.match_index(host@) is Some ==> *final(pool) == *old(pool),
        policy.match_index(host@) matches Some(m) ==> (r matches Ok(p)
            && policy.rules_spec()[m].candidates.contains(p.address@)),
        policy.match_index(host@) is None ==> ({
            &&& final(pool).cursor_spec() == (old(pool).cursor_spec() + 1) % old(
                pool,
            ).len_spec()
            &&& (r is Ok) == old(pool).some_healthy()
            &&& (r matches Ok(p) ==> (selected_index(
                old(pool).health_spec(),
                old(pool).cursor_spec(),
            ) matches Some(i) && p.address@ == old(pool).addrs_spec()[i]))
        }),
        r matches Ok(p) ==> p.sni@ == host@ && p.use_tls == use_tls,
        r is Err ==> policy.match_index(host@) is None && !old(pool).some_healthy(),
{
    match policy.resolve(host) {
        Option::Some(address) => Ok(
            PeerDescriptor { address, use_tls, sni: copy_bytes(host) },
        ),
        Option::None => match pool.select() {
            Result::Ok(address) => Ok(
                PeerDescriptor { address, use_tls, sni: copy_bytes(host) },
            ),
            Result::Err(e) => Err(e),
        },
    }
}

/// Runs the whole pipeline for one request, from its raw `Host` header
/// bytes, URI authority host and path down to a terminal outcome:
/// a path outside the allowed prefix is rejected with no backend contacted;
/// otherwise the routing host is derived once and used for the override
/// lookup, the outbound SNI and the outbound `Host` header alike; selection
/// failure surfaces as a gateway-unavailable outcome, never as a crash.
pub fn handle_request(
    cfg: &ProxyConfig,
    policy: &RoutingPolicy,
    pool: &mut BackendPool,
    host_header: Option<Vec<u8>>,
    authority: Option<Vec<u8>>,
    path: &Vec<u8>,
) -> (r: RequestOutcome)
    requires
        policy.wf(),
        old(pool).wf(),
    ensures
        final(pool).wf(),
        final(pool).addrs_spec() == old(pool).addrs_spec(),
        final(pool).health_spec() == old(pool).health_spec(),
        (r matches RequestOutcome::Forbidden) == !is_prefix_of(cfg.allowed_prefix@, path@),
        !is_prefix_of(cfg.allowed_prefix@, path@) ==> *final(pool) == *old(pool),
        is_prefix_of(cfg.allowed_prefix@, path@) ==> ({
            let host = spec_derive_host(opt_view(host_header), opt_view(authority));
            &&& (policy.match_index(host) matches Some(m) ==> (r matches RequestOutcome::Forward(f)
                && policy.rules_spec()[m].candidates.contains(f.peer.address@) && *final(pool)
                == *old(pool)))
            &&& (policy.match_index(host) is None ==> ({
                &&& final(pool).cursor_spec() == (old(pool).cursor_spec() + 1) % old(
                    pool,
                ).len_spec()
                &&& (old(pool).some_healthy() ==> (r matches RequestOutcome::Forward(f) && selected_index(
                    old(pool).health_spec(),
                    old(pool).cursor_spec(),
                ) matches Some(i) && f.peer.address@ == old(pool).addrs_spec()[i]))
                &&& (!old(pool).some_healthy() ==> r matches RequestOutcome::BadGateway)
            }))
        }),
        r matches RequestOutcome::Forward(f) ==> ({
            let host = spec_derive_host(opt_view(host_header), opt_view(authority));
            &&& f.peer.sni@ == host
            &&& f.host_header@ == host
            &&& f.peer.sni@ == f.host_header@
            &&& f.peer.use_tls == cfg.upstream_tls
        }),
{
    if !cfg.allows(path) {
        return RequestOutcome::Forbidden;
    }
    let host = derive_host(&host_header, &authority);
    match select_peer(policy, pool, &host, cfg.upstream_tls) {
        Result::Ok(peer) => RequestOutcome::Forward(
            ForwardPlan { peer, host_header: host },
        ),
        Result::Err(_) => RequestOutcome::BadGateway,
    }
}

} // verus!
