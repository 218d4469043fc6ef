use load_balancer::{BackendPool, PoolError};

fn pool_of(names: &[&str]) -> BackendPool {
    let mut pool = BackendPool::new();
    for n in names {
        assert!(pool.register(n.to_string()).is_ok());
    }
    pool
}

#[test]
fn three_selections_then_wrap() {
    let mut pool = pool_of(&["A", "B", "C"]);
    assert_eq!(pool.select_next(), Ok("A".to_string()));
    assert_eq!(pool.select_next(), Ok("B".to_string()));
    assert_eq!(pool.select_next(), Ok("C".to_string()));
    assert_eq!(pool.select_next(), Ok("A".to_string()));
}

#[test]
fn select_from_empty_pool() {
    let mut pool = BackendPool::new();
    assert_eq!(pool.select_next(), Err(PoolError::Empty));
    assert_eq!(pool.select_next(), Err(PoolError::Empty));
    assert_eq!(pool.size(), 0);
}

#[test]
fn register_same_endpoint_twice() {
    let mut pool = BackendPool::new();
    assert_eq!(pool.register("X".to_string()), Ok(vec!["X".to_string()]));
    assert_eq!(pool.register("X".to_string()), Err(PoolError::DuplicateEndpoint));
    assert_eq!(pool.size(), 1);
    assert_eq!(pool.snapshot(), vec!["X".to_string()]);
}

#[test]
fn register_returns_all_members() {
    let mut pool = pool_of(&["A", "B"]);
    assert_eq!(
        pool.register("C".to_string()),
        Ok(vec!["A".to_string(), "B".to_string(), "C".to_string()])
    );
    assert_eq!(pool.register("B".to_string()), Err(PoolError::DuplicateEndpoint));
    assert_eq!(pool.size(), 3);
}

#[test]
fn selections_share_out_evenly() {
    let mut pool = pool_of(&["A", "B", "C"]);
    let mut counts = [0usize; 3];
    for _ in 0..7 {
        match pool.select_next().unwrap().as_str() {
            "A" => counts[0] += 1,
            "B" => counts[1] += 1,
            "C" => counts[2] += 1,
            other => panic!("unexpected endpoint {}", other),
        }
    }
    assert_eq!(counts, [3, 2, 2]);
}

#[test]
fn selection_rotates_pool() {
    let mut pool = pool_of(&["A", "B", "C"]);
    pool.select_next().unwrap();
    assert_eq!(
        pool.snapshot(),
        vec!["B".to_string(), "C".to_string(), "A".to_string()]
    );
}

#[test]
fn requeue_moves_to_back() {
    let mut pool = pool_of(&["A", "B", "C"]);
    assert!(pool.requeue(&"A".to_string()));
    assert_eq!(
        pool.snapshot(),
        vec!["B".to_string(), "C".to_string(), "A".to_string()]
    );
    assert!(pool.requeue(&"C".to_string()));
    assert_eq!(
        pool.snapshot(),
        vec!["B".to_string(), "A".to_string(), "C".to_string()]
    );
}

#[test]
fn requeue_absent_endpoint() {
    let mut pool = pool_of(&["A", "B"]);
    assert!(!pool.requeue(&"Z".to_string()));
    assert_eq!(pool.snapshot(), vec!["A".to_string(), "B".to_string()]);
}

#[test]
fn contains_leaves_pool_alone() {
    let mut pool = pool_of(&["A", "B"]);
    assert!(pool.contains(&"B".to_string()));
    assert!(!pool.contains(&"C".to_string()));
    assert_eq!(pool.snapshot(), vec!["A".to_string(), "B".to_string()]);
}
