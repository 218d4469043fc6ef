use load_balancer::{
    after_probe, is_valid_endpoint, register_backend, start_dispatch, BackendPool,
    DispatchError, RegisterError, ScanStep,
};

fn pool_of(names: &[&str]) -> BackendPool {
    let mut pool = BackendPool::new();
    for n in names {
        assert!(pool.register(n.to_string()).is_ok());
    }
    pool
}

#[test]
fn unreachable_single_backend() {
    let mut pool = pool_of(&["A"]);
    let (mut scan, step) = start_dispatch(&mut pool);
    assert_eq!(step, ScanStep::Probe("A".to_string()));
    let step = after_probe(&mut pool, &mut scan, "A".to_string(), false);
    assert_eq!(step, ScanStep::Fail(DispatchError::NoHealthyBackend));
    assert_eq!(pool.size(), 1);
    assert_eq!(pool.snapshot(), vec!["A".to_string()]);
}

#[test]
fn dispatch_on_empty_pool() {
    let mut pool = BackendPool::new();
    let (_, step) = start_dispatch(&mut pool);
    assert_eq!(step, ScanStep::Fail(DispatchError::Empty));
}

#[test]
fn all_unhealthy_probes_each_once() {
    let mut pool = pool_of(&["A", "B", "C"]);
    let (mut scan, mut step) = start_dispatch(&mut pool);
    let mut probed = Vec::new();
    while let ScanStep::Probe(e) = step {
        probed.push(e.clone());
        assert!(probed.len() <= 3);
        step = after_probe(&mut pool, &mut scan, e, false);
    }
    assert_eq!(step, ScanStep::Fail(DispatchError::NoHealthyBackend));
    assert_eq!(probed, vec!["A".to_string(), "B".to_string(), "C".to_string()]);
    assert_eq!(scan.probed(), 3);
    assert_eq!(scan.limit(), 3);
    assert_eq!(
        pool.snapshot(),
        vec!["A".to_string(), "B".to_string(), "C".to_string()]
    );
}

#[test]
fn first_healthy_backend_is_served() {
    let mut pool = pool_of(&["A", "B", "C"]);
    let (mut scan, step) = start_dispatch(&mut pool);
    assert_eq!(step, ScanStep::Probe("A".to_string()));
    let step = after_probe(&mut pool, &mut scan, "A".to_string(), false);
    assert_eq!(step, ScanStep::Probe("B".to_string()));
    let step = after_probe(&mut pool, &mut scan, "B".to_string(), true);
    assert_eq!(step, ScanStep::Serve("B".to_string()));
    assert_eq!(scan.probed(), 2);
    assert_eq!(
        pool.snapshot(),
        vec!["C".to_string(), "A".to_string(), "B".to_string()]
    );
}

#[test]
fn next_request_starts_after_served_backend() {
    let mut pool = pool_of(&["A", "B"]);
    let (mut scan, step) = start_dispatch(&mut pool);
    assert_eq!(step, ScanStep::Probe("A".to_string()));
    let step = after_probe(&mut pool, &mut scan, "A".to_string(), true);
    assert_eq!(step, ScanStep::Serve("A".to_string()));
    let (_, step) = start_dispatch(&mut pool);
    assert_eq!(step, ScanStep::Probe("B".to_string()));
}

#[test]
fn endpoint_forms() {
    assert!(is_valid_endpoint("http://localhost:3000"));
    assert!(is_valid_endpoint("https://example.com"));
    assert!(!is_valid_endpoint(""));
    assert!(!is_valid_endpoint("localhost:3000"));
    assert!(!is_valid_endpoint("ftp://example.com"));
    assert!(!is_valid_endpoint("http://"));
    assert!(!is_valid_endpoint("https://"));
    assert!(!is_valid_endpoint("http:///path"));
    assert!(!is_valid_endpoint("HTTP://example.com"));
}

#[test]
fn register_backend_outcomes() {
    let mut pool = BackendPool::new();
    assert_eq!(
        register_backend(&mut pool, "".to_string()),
        Err(RegisterError::InvalidEndpoint)
    );
    assert_eq!(
        register_backend(&mut pool, "example.com".to_string()),
        Err(RegisterError::InvalidEndpoint)
    );
    assert_eq!(pool.size(), 0);
    assert_eq!(
        register_backend(&mut pool, "http://a:1".to_string()),
        Ok(vec!["http://a:1".to_string()])
    );
    assert_eq!(
        register_backend(&mut pool, "https://b".to_string()),
        Ok(vec!["http://a:1".to_string(), "https://b".to_string()])
    );
    assert_eq!(
        register_backend(&mut pool, "http://a:1".to_string()),
        Err(RegisterError::DuplicateEndpoint)
    );
    assert_eq!(pool.size(), 2);
}
