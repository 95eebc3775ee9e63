use load_balancer::BackendPool;
use load_balancer::ConfigError;
use load_balancer::SelectError;
use load_balancer::apply_probe_results;
use load_balancer::probe_interval_ms;

fn addrs3() -> Vec<Vec<u8>> {
    vec![b"10.0.0.1:443".to_vec(), b"10.0.0.2:443".to_vec(), b"10.0.0.3:443".to_vec()]
}

fn pool3() -> BackendPool {
    BackendPool::new(addrs3()).unwrap()
}

#[test]
fn empty_backend_list_is_fatal() {
    let r = BackendPool::new(Vec::new());
    assert!(matches!(r, Err(ConfigError::EmptyBackendList)));
}

#[test]
fn duplicate_addresses_collapse_to_first_occurrence() {
    let p = BackendPool::new(vec![
        b"10.0.0.1:443".to_vec(),
        b"10.0.0.2:443".to_vec(),
        b"10.0.0.1:443".to_vec(),
    ])
    .unwrap();
    assert_eq!(p.len(), 2);
    assert_eq!(p.address_at(0), b"10.0.0.1:443".to_vec());
    assert_eq!(p.address_at(1), b"10.0.0.2:443".to_vec());
}

#[test]
fn round_robin_fairness_each_backend_once_per_cycle() {
    let mut p = pool3();
    // Two full cycles: each address exactly once per cycle, in list order.
    for _cycle in 0..2 {
        assert_eq!(p.select().unwrap(), b"10.0.0.1:443".to_vec());
        assert_eq!(p.select().unwrap(), b"10.0.0.2:443".to_vec());
        assert_eq!(p.select().unwrap(), b"10.0.0.3:443".to_vec());
    }
}

#[test]
fn cursor_advances_once_per_call_whatever_is_skipped() {
    let mut p = pool3();
    p.set_health(&b"10.0.0.2:443".to_vec(), false);
    // start 0 -> addr1; start 1 skips unhealthy addr2 -> addr3; start 2 -> addr3; start 0 -> addr1
    assert_eq!(p.select().unwrap(), b"10.0.0.1:443".to_vec());
    assert_eq!(p.select().unwrap(), b"10.0.0.3:443".to_vec());
    assert_eq!(p.select().unwrap(), b"10.0.0.3:443".to_vec());
    assert_eq!(p.select().unwrap(), b"10.0.0.1:443".to_vec());
}

#[test]
fn unhealthy_backend_is_never_selected_until_healthy_again() {
    let mut p = pool3();
    let down = b"10.0.0.2:443".to_vec();
    p.set_health(&down, false);
    for _ in 0..12 {
        let got = p.select().unwrap();
        assert_ne!(got, down);
    }
    p.set_health(&down, true);
    let mut seen = false;
    for _ in 0..3 {
        if p.select().unwrap() == down {
            seen = true;
        }
    }
    assert!(seen);
}

#[test]
fn one_healthy_backend_never_starves() {
    let mut p = pool3();
    p.set_health(&b"10.0.0.1:443".to_vec(), false);
    p.set_health(&b"10.0.0.3:443".to_vec(), false);
    for _ in 0..9 {
        assert_eq!(p.select().unwrap(), b"10.0.0.2:443".to_vec());
    }
}

#[test]
fn total_failure_until_one_recovers() {
    let mut p = pool3();
    p.set_health(&b"10.0.0.1:443".to_vec(), false);
    p.set_health(&b"10.0.0.2:443".to_vec(), false);
    p.set_health(&b"10.0.0.3:443".to_vec(), false);
    for _ in 0..6 {
        assert!(matches!(p.select(), Err(SelectError::NoHealthyBackend)));
    }
    p.set_health(&b"10.0.0.3:443".to_vec(), true);
    assert_eq!(p.select().unwrap(), b"10.0.0.3:443".to_vec());
}

#[test]
fn set_health_ignores_unknown_address_and_is_idempotent() {
    let mut p = pool3();
    p.set_health(&b"192.168.0.9:80".to_vec(), false);
    for i in 0..3 {
        assert!(p.healthy_at(i));
    }
    p.set_health(&b"10.0.0.1:443".to_vec(), false);
    p.set_health(&b"10.0.0.1:443".to_vec(), false);
    assert!(!p.healthy_at(0));
    assert!(p.healthy_at(1));
}

#[test]
fn probe_cycle_flips_health_both_ways_within_one_interval() {
    let mut p = pool3();
    // addr2 starts failing probes: excluded from the very next selections.
    apply_probe_results(&mut p, &vec![true, false, true]);
    for _ in 0..9 {
        assert_ne!(p.select().unwrap(), b"10.0.0.2:443".to_vec());
    }
    // It recovers: eligible again right after the next cycle.
    apply_probe_results(&mut p, &vec![true, true, true]);
    let mut seen = false;
    for _ in 0..3 {
        if p.select().unwrap() == b"10.0.0.2:443".to_vec() {
            seen = true;
        }
    }
    assert!(seen);
    // A failing probe records an unhealthy flag immediately, no hysteresis.
    apply_probe_results(&mut p, &vec![false, false, false]);
    assert!(matches!(p.select(), Err(SelectError::NoHealthyBackend)));
}

#[test]
fn probe_interval_defaults_to_one_second() {
    assert_eq!(probe_interval_ms(None), 1000);
    assert_eq!(probe_interval_ms(Some(250)), 250);
}
