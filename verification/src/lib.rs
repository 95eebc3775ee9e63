//! A verified reverse-proxy core: a backend pool with round-robin selection,
//! health-state updates driven by probe results, a static host-override
//! routing policy, and the per-request pipeline that derives a routing host,
//! applies an admission gate, selects a peer and rewrites headers.
//!
//! Network values (addresses, hostnames, paths, header values) are carried as
//! byte strings, the form in which they travel on the wire; the surrounding
//! application converts at the boundary.

mod bytes;
mod health;
mod pipeline;
mod policy;
mod pool;

pub use bytes::bytes_eq;
pub use bytes::copy_bytes;
pub use bytes::starts_with;
pub use bytes::visible_ascii;
pub use health::apply_probe_results;
pub use health::probe_interval_ms;
pub use pipeline::ForwardPlan;
pub use pipeline::PeerDescriptor;
pub use pipeline::ProxyConfig;
pub use pipeline::RequestContext;
pub use pipeline::RequestOutcome;
pub use pipeline::derive_host;
pub use pipeline::handle_request;
pub use pipeline::select_peer;
pub use policy::RoutingPolicy;
pub use policy::RoutingRule;
pub use pool::BackendPool;
pub use pool::ConfigError;
pub use pool::SelectError;
pub use pool::cursor_after;
pub use pool::lemma_healthy_backend_reached;
pub use pool::lemma_probe_convergence;
pub use pool::lemma_round_robin_distinct;
pub use pool::lemma_round_robin_fairness;
pub use pool::lemma_select_total;
pub use pool::lemma_unhealthy_excluded;
pub use pool::selected_index;
