use load_balancer::BackendPool;
use load_balancer::ConfigError;
use load_balancer::ProxyConfig;
use load_balancer::RequestContext;
use load_balancer::RequestOutcome;
use load_balancer::RoutingPolicy;
use load_balancer::derive_host;
use load_balancer::handle_request;

fn cfg() -> ProxyConfig {
    ProxyConfig { allowed_prefix: b"/api/v1".to_vec(), upstream_tls: true }
}

fn pool2() -> BackendPool {
    BackendPool::new(vec![b"10.0.0.1:443".to_vec(), b"10.0.0.2:443".to_vec()]).unwrap()
}

fn policy1() -> RoutingPolicy {
    let mut policy = RoutingPolicy::new();
    policy
        .add_rule(
            b"service1.example.com".to_vec(),
            vec![b"1.1.1.1:443".to_vec(), b"1.0.0.1:443".to_vec()],
        )
        .unwrap();
    policy
}

#[test]
fn derive_host_prefers_decodable_host_header() {
    let h = derive_host(
        &Some(b"service1.example.com".to_vec()),
        &Some(b"authority.example.com".to_vec()),
    );
    assert_eq!(h, b"service1.example.com".to_vec());
}

#[test]
fn derive_host_falls_back_on_undecodable_header() {
    // A control byte cannot decode as header text.
    let h = derive_host(&Some(vec![0x07, 0x80]), &Some(b"authority.example.com".to_vec()));
    assert_eq!(h, b"authority.example.com".to_vec());
}

#[test]
fn derive_host_uses_authority_when_header_absent() {
    let h = derive_host(&None, &Some(b"authority.example.com".to_vec()));
    assert_eq!(h, b"authority.example.com".to_vec());
}

#[test]
fn derive_host_is_empty_when_nothing_is_present() {
    assert_eq!(derive_host(&None, &None), Vec::<u8>::new());
    assert_eq!(derive_host(&Some(vec![0x01]), &None), Vec::<u8>::new());
}

#[test]
fn admission_gate_rejects_before_any_selection() {
    let cfg = cfg();
    let policy = policy1();
    let mut pool = pool2();
    let r = handle_request(
        &cfg,
        &policy,
        &mut pool,
        Some(b"service9.example.com".to_vec()),
        None,
        &b"/other/path".to_vec(),
    );
    assert!(matches!(r, RequestOutcome::Forbidden));
    // The pool was never consulted: the cursor still points at the first
    // backend, so the next selection returns it.
    assert_eq!(pool.select().unwrap(), b"10.0.0.1:443".to_vec());
}

#[test]
fn admission_gate_admits_the_exact_prefix() {
    let cfg = cfg();
    assert!(cfg.allows(&b"/api/v1".to_vec()));
    assert!(cfg.allows(&b"/api/v1/users".to_vec()));
    assert!(!cfg.allows(&b"/api/v2/users".to_vec()));
    assert!(!cfg.allows(&b"/".to_vec()));
}

#[test]
fn host_override_pins_to_the_rule_candidates() {
    let cfg = cfg();
    let policy = policy1();
    let mut pool = pool2();
    for _ in 0..12 {
        let r = handle_request(
            &cfg,
            &policy,
            &mut pool,
            Some(b"service1.example.com".to_vec()),
            None,
            &b"/api/v1/users".to_vec(),
        );
        match r {
            RequestOutcome::Forward(f) => {
                let a = f.peer.address;
                assert!(a == b"1.1.1.1:443".to_vec() || a == b"1.0.0.1:443".to_vec());
            },
            _ => panic!("expected a forward"),
        }
    }
    // The generic pool was never consulted for any of those requests.
    assert_eq!(pool.select().unwrap(), b"10.0.0.1:443".to_vec());
}

#[test]
fn unmatched_host_falls_through_to_round_robin() {
    let cfg = cfg();
    let policy = policy1();
    let mut pool = pool2();
    let mut got: Vec<Vec<u8>> = Vec::new();
    for _ in 0..2 {
        let r = handle_request(
            &cfg,
            &policy,
            &mut pool,
            Some(b"service9.example.com".to_vec()),
            None,
            &b"/api/v1/users".to_vec(),
        );
        match r {
            RequestOutcome::Forward(f) => got.push(f.peer.address),
            _ => panic!("expected a forward"),
        }
    }
    assert_eq!(got, vec![b"10.0.0.1:443".to_vec(), b"10.0.0.2:443".to_vec()]);
}

#[test]
fn outbound_host_header_and_sni_are_identical() {
    let cfg = cfg();
    let policy = policy1();
    let mut pool = pool2();
    for host in [b"service1.example.com".to_vec(), b"service9.example.com".to_vec()] {
        let r = handle_request(
            &cfg,
            &policy,
            &mut pool,
            Some(host.clone()),
            None,
            &b"/api/v1/users".to_vec(),
        );
        match r {
            RequestOutcome::Forward(f) => {
                assert_eq!(f.peer.sni, host);
                assert_eq!(f.host_header, host);
                assert!(f.peer.use_tls);
            },
            _ => panic!("expected a forward"),
        }
    }
}

#[test]
fn upstream_tls_flag_is_configuration_not_hardcoded() {
    let cfg = ProxyConfig { allowed_prefix: b"/api/v1".to_vec(), upstream_tls: false };
    let policy = RoutingPolicy::new();
    let mut pool = pool2();
    let r = handle_request(&cfg, &policy, &mut pool, None, None, &b"/api/v1".to_vec());
    match r {
        RequestOutcome::Forward(f) => assert!(!f.peer.use_tls),
        _ => panic!("expected a forward"),
    }
}

#[test]
fn no_healthy_backend_maps_to_gateway_unavailable() {
    let cfg = cfg();
    let policy = RoutingPolicy::new();
    let mut pool = pool2();
    pool.set_health(&b"10.0.0.1:443".to_vec(), false);
    pool.set_health(&b"10.0.0.2:443".to_vec(), false);
    let r = handle_request(
        &cfg,
        &policy,
        &mut pool,
        Some(b"anything.example.com".to_vec()),
        None,
        &b"/api/v1/users".to_vec(),
    );
    assert!(matches!(r, RequestOutcome::BadGateway));
}

#[test]
fn override_rule_needs_at_least_one_candidate() {
    let mut policy = RoutingPolicy::new();
    let r = policy.add_rule(b"service1.example.com".to_vec(), Vec::new());
    assert!(matches!(r, Err(ConfigError::EmptyBackendList)));
}

#[test]
fn resolve_falls_through_without_a_matching_rule() {
    let policy = policy1();
    assert!(policy.resolve(&b"service9.example.com".to_vec()).is_none());
    let got = policy.resolve(&b"service1.example.com".to_vec()).unwrap();
    assert!(got == b"1.1.1.1:443".to_vec() || got == b"1.0.0.1:443".to_vec());
}

#[test]
fn request_context_counts_from_zero() {
    let mut ctx = RequestContext::new();
    assert_eq!(ctx.counter, 0);
    ctx.tick();
    ctx.tick();
    assert_eq!(ctx.counter, 2);
}
