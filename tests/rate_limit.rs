use websocket_proxy::addr::IpAddress;
use websocket_proxy::rate_limit::{InMemoryRateLimit, RateLimitError};

fn reason(r: Result<websocket_proxy::rate_limit::Ticket, RateLimitError>) -> String {
    match r {
        Err(RateLimitError::Limit { reason }) => reason,
        Ok(_) => panic!("expected a refusal"),
    }
}

#[test]
fn global_and_per_ip_limits() {
    let a = IpAddress::V4(1, 1, 1, 1);
    let b = IpAddress::V4(2, 2, 2, 2);
    let c = IpAddress::V4(3, 3, 3, 3);
    let mut l = InMemoryRateLimit::new(2, 1);
    let ta = l.try_acquire(a).unwrap();
    assert_eq!(ta.ip, a);
    let _tb = l.try_acquire(b).unwrap();
    assert_eq!(reason(l.try_acquire(a)), "global connection limit reached");
    assert_eq!(reason(l.try_acquire(c)), "global connection limit reached");
    l.release(ta);
    assert_eq!(reason(l.try_acquire(b)), "per-IP connection limit reached");
    assert!(l.try_acquire(c).is_ok());
}

#[test]
fn per_ip_reason_below_global() {
    let a = IpAddress::V4(1, 1, 1, 1);
    let mut l = InMemoryRateLimit::new(3, 1);
    let _t = l.try_acquire(a).unwrap();
    assert_eq!(reason(l.try_acquire(a)), "per-IP connection limit reached");
    assert_eq!(l.connections(), 1);
}

#[test]
fn release_restores_counts() {
    let a = IpAddress::V4(1, 1, 1, 1);
    let b = IpAddress::V6(0, 0, 0, 0, 0, 0, 0, 1);
    let mut l = InMemoryRateLimit::new(10, 3);
    let _t1 = l.try_acquire(a).unwrap();
    let _t2 = l.try_acquire(b).unwrap();
    let (g, ca, cb) = (l.connections(), l.connections_of(a), l.connections_of(b));
    let t = l.try_acquire(a).unwrap();
    assert_eq!(l.connections(), g + 1);
    assert_eq!(l.connections_of(a), ca + 1);
    l.release(t);
    assert_eq!((l.connections(), l.connections_of(a), l.connections_of(b)), (g, ca, cb));
}

#[test]
fn zero_limits_refuse() {
    let a = IpAddress::V4(1, 1, 1, 1);
    let mut l = InMemoryRateLimit::new(0, 5);
    assert_eq!(reason(l.try_acquire(a)), "global connection limit reached");
    let mut l = InMemoryRateLimit::new(5, 0);
    assert_eq!(reason(l.try_acquire(a)), "per-IP connection limit reached");
    assert_eq!(l.connections_of(a), 0);
}

#[test]
fn checked_release_of_foreign_ticket() {
    let a = IpAddress::V4(1, 1, 1, 1);
    let mut other = InMemoryRateLimit::new(5, 5);
    let t = other.try_acquire(a).unwrap();
    let mut l = InMemoryRateLimit::new(5, 5);
    assert!(!l.release_checked(t));
    assert_eq!(l.connections(), 0);
    let t = l.try_acquire(a).unwrap();
    assert!(l.release_checked(t));
    assert_eq!(l.connections_of(a), 0);
}
