use yapf::Backend;
use yapf::HealthCheck;
use yapf::LoadBalancer;
use yapf::NoHealthCheck;
use yapf::RoundRobin;

/// A probe that fails for the listed addresses and passes everywhere else,
/// flipping health after one observation in either direction.
struct FailingCheck {
    failing: Vec<String>,
}

impl HealthCheck for FailingCheck {
    fn check(&self, target: &Backend) -> Result<(), String> {
        if self.failing.iter().any(|a| *a == target.addr) {
            Err("probe failed".to_string())
        } else {
            Ok(())
        }
    }

    fn health_threshold(&self, _success: bool) -> usize {
        1
    }
}

#[test]
fn test_lb_round_robin() {
    let backends = vec!["1.0.0.1", "1.0.0.2", "1.0.0.3"];
    let mut lb: LoadBalancer<RoundRobin, NoHealthCheck> =
        LoadBalancer::try_from_vec(&backends).unwrap();
    assert_eq!(lb.next().unwrap().addr, "1.0.0.1");
    assert_eq!(lb.next().unwrap().addr, "1.0.0.2");
    assert_eq!(lb.next().unwrap().addr, "1.0.0.3");
    assert_eq!(lb.next().unwrap().addr, "1.0.0.1");
    assert_eq!(lb.next().unwrap().addr, "1.0.0.2");
    assert_eq!(lb.next().unwrap().addr, "1.0.0.3");
}

#[test]
fn test_try_from_vec_canonicalizes_addresses() {
    let backends = vec!["HTTP://example.com/x"];
    let mut lb: LoadBalancer<RoundRobin, NoHealthCheck> =
        LoadBalancer::try_from_vec(&backends).unwrap();
    // The scheme is case-insensitive and prints in its canonical lower case.
    assert_eq!(lb.next().unwrap().addr, "http://example.com/x");
}

#[test]
fn test_try_from_vec_rejects_bad_address() {
    let backends = vec!["1.0.0.1", "not a uri"];
    let lb: Result<LoadBalancer<RoundRobin, NoHealthCheck>, _> =
        LoadBalancer::try_from_vec(&backends);
    assert!(lb.is_err());
}

#[test]
fn test_next_skips_unhealthy_backends() {
    let backend1 = Backend::new("1.0.0.1".to_string());
    let backend2 = Backend::new("1.0.0.2".to_string());
    let mut lb: LoadBalancer<RoundRobin, FailingCheck> =
        LoadBalancer::new(vec![backend1, backend2]);
    lb.set_health_check(FailingCheck {
        failing: vec!["1.0.0.2".to_string()],
    });

    // Healthy by default before any check has run.
    assert_eq!(lb.next().unwrap().addr, "1.0.0.1");
    assert_eq!(lb.next().unwrap().addr, "1.0.0.2");

    // After one check, the failing backend is skipped.
    lb.run_health_check();
    assert_eq!(lb.next().unwrap().addr, "1.0.0.1");
    assert_eq!(lb.next().unwrap().addr, "1.0.0.1");
    assert_eq!(lb.next().unwrap().addr, "1.0.0.1");
}

#[test]
fn test_next_returns_none_once_all_unhealthy() {
    let backend1 = Backend::new("1.0.0.1".to_string());
    let backend2 = Backend::new("1.0.0.2".to_string());
    let mut lb: LoadBalancer<RoundRobin, FailingCheck> =
        LoadBalancer::new(vec![backend1, backend2]);

    // The second backend starts failing its probe.
    lb.set_health_check(FailingCheck {
        failing: vec!["1.0.0.2".to_string()],
    });
    lb.run_health_check();
    assert_eq!(lb.next().unwrap().addr, "1.0.0.1");
    assert_eq!(lb.next().unwrap().addr, "1.0.0.1");

    // Now the first one starts failing too.
    lb.set_health_check(FailingCheck {
        failing: vec!["1.0.0.1".to_string(), "1.0.0.2".to_string()],
    });
    lb.run_health_check();
    assert!(lb.next().is_none());
}

#[test]
fn test_backend_recovers_after_passing_probe() {
    let backend1 = Backend::new("1.0.0.1".to_string());
    let backend2 = Backend::new("1.0.0.2".to_string());
    let mut lb: LoadBalancer<RoundRobin, FailingCheck> =
        LoadBalancer::new(vec![backend1, backend2]);
    lb.set_health_check(FailingCheck {
        failing: vec!["1.0.0.2".to_string()],
    });
    lb.run_health_check();
    assert_eq!(lb.next().unwrap().addr, "1.0.0.1");
    assert_eq!(lb.next().unwrap().addr, "1.0.0.1");

    // The probe passes again: one passing observation flips it back. The
    // strategy cursor kept advancing past the skipped backend, so the cycle
    // resumes at the recovered one.
    lb.set_health_check(FailingCheck { failing: vec![] });
    lb.run_health_check();
    assert_eq!(lb.next().unwrap().addr, "1.0.0.2");
    assert_eq!(lb.next().unwrap().addr, "1.0.0.1");
}

#[test]
fn test_run_health_check_without_check_is_a_no_op() {
    let backend1 = Backend::new("1.0.0.1".to_string());
    let backend2 = Backend::new("1.0.0.2".to_string());
    let mut lb: LoadBalancer<RoundRobin, NoHealthCheck> =
        LoadBalancer::new(vec![backend1, backend2]);
    lb.run_health_check();
    lb.run_health_check();
    assert_eq!(lb.next().unwrap().addr, "1.0.0.1");
    assert_eq!(lb.next().unwrap().addr, "1.0.0.2");
    assert_eq!(lb.next().unwrap().addr, "1.0.0.1");
}

#[test]
fn test_next_on_empty_pool() {
    let mut lb: LoadBalancer<RoundRobin, NoHealthCheck> = LoadBalancer::new(Vec::new());
    assert!(lb.next().is_none());
}

#[test]
fn test_backend_new_and_with_weight() {
    let b = Backend::new("1.0.0.1".to_string());
    assert_eq!(b.addr, "1.0.0.1");
    assert_eq!(b.weight, 100);
    let b = b.with_weight(250);
    assert_eq!(b.addr, "1.0.0.1");
    assert_eq!(b.weight, 250);
}

#[test]
fn test_hash_key_identity() {
    let a1 = Backend::new("1.0.0.1".to_string());
    let a2 = Backend::new("1.0.0.1".to_string());
    let b = Backend::new("1.0.0.2".to_string());
    let a_heavy = Backend::new("1.0.0.1".to_string()).with_weight(200);
    assert_eq!(a1.hash_key(), a2.hash_key());
    assert_ne!(a1.hash_key(), b.hash_key());
    assert_ne!(a1.hash_key(), a_heavy.hash_key());
}
