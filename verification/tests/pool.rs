use leader_broadcast::endpoint::Endpoint;
use leader_broadcast::pool::ConnectionPool;

fn ep(ip: u32) -> Endpoint {
    Endpoint { ip, port: 8000 }
}

#[test]
fn first_use_creates_a_connection() {
    let mut p = ConnectionPool::new();
    let (handle, created) = p.get_or_create(ep(1), 10);
    assert!(created);
    assert_eq!(handle, 0);
    assert_eq!(p.len(), 1);
}

#[test]
fn repeated_use_of_one_endpoint_creates_exactly_one_connection() {
    let mut p = ConnectionPool::new();
    let (h1, c1) = p.get_or_create(ep(1), 10);
    let (h2, c2) = p.get_or_create(ep(1), 11);
    let (h3, c3) = p.get_or_create(ep(1), 12);
    assert!(c1);
    assert!(!c2);
    assert!(!c3);
    assert_eq!(h1, h2);
    assert_eq!(h1, h3);
    assert_eq!(p.len(), 1);
}

#[test]
fn distinct_endpoints_get_distinct_connections() {
    let mut p = ConnectionPool::new();
    let (h1, _) = p.get_or_create(ep(1), 10);
    let (h2, _) = p.get_or_create(ep(2), 10);
    assert_ne!(h1, h2);
    assert_eq!(p.len(), 2);
}

#[test]
fn a_degraded_connection_is_replaced_on_next_use() {
    let mut p = ConnectionPool::new();
    let (h1, _) = p.get_or_create(ep(1), 10);
    assert!(p.mark_unhealthy(h1));
    let (h2, created) = p.get_or_create(ep(1), 20);
    assert!(created);
    assert_ne!(h1, h2);
    assert_eq!(p.len(), 1);
}

#[test]
fn a_dead_connection_is_replaced_on_next_use() {
    let mut p = ConnectionPool::new();
    let (h1, _) = p.get_or_create(ep(1), 10);
    assert!(p.mark_dead(h1));
    let (h2, created) = p.get_or_create(ep(1), 20);
    assert!(created);
    assert_ne!(h1, h2);
    assert_eq!(p.len(), 1);
}

#[test]
fn an_unknown_handle_changes_nothing() {
    let mut p = ConnectionPool::new();
    p.get_or_create(ep(1), 10);
    assert!(!p.mark_unhealthy(99));
    assert!(!p.mark_dead(99));
    let (_, created) = p.get_or_create(ep(1), 11);
    assert!(!created);
}

#[test]
fn evict_idle_removes_connections_unused_beyond_the_threshold() {
    let mut p = ConnectionPool::new();
    p.get_or_create(ep(1), 0);
    p.get_or_create(ep(2), 100);
    let removed = p.evict_idle(50, 120);
    assert_eq!(removed, 1);
    assert_eq!(p.len(), 1);
    let (_, created) = p.get_or_create(ep(2), 121);
    assert!(!created);
    let (_, recreated) = p.get_or_create(ep(1), 122);
    assert!(recreated);
}

#[test]
fn evict_idle_keeps_a_connection_exactly_at_the_threshold() {
    let mut p = ConnectionPool::new();
    p.get_or_create(ep(1), 70);
    let removed = p.evict_idle(50, 120);
    assert_eq!(removed, 0);
    assert_eq!(p.len(), 1);
}

#[test]
fn evict_idle_removes_dead_connections() {
    let mut p = ConnectionPool::new();
    let (h1, _) = p.get_or_create(ep(1), 100);
    p.get_or_create(ep(2), 100);
    assert!(p.mark_dead(h1));
    let removed = p.evict_idle(50, 110);
    assert_eq!(removed, 1);
    assert_eq!(p.len(), 1);
}

#[test]
fn evict_idle_keeps_degraded_connections_that_are_not_idle() {
    let mut p = ConnectionPool::new();
    let (h1, _) = p.get_or_create(ep(1), 100);
    assert!(p.mark_unhealthy(h1));
    let removed = p.evict_idle(50, 110);
    assert_eq!(removed, 0);
    assert_eq!(p.len(), 1);
}
