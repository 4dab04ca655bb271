use websocket_proxy::addr::IpAddress;
use websocket_proxy::admission::{authorize, client_ip, decide_upgrade, key_label};
use websocket_proxy::rate_limit::InMemoryRateLimit;

fn keys() -> Vec<String> {
    vec!["A".to_string(), "B".to_string()]
}

#[test]
fn auth_policy() {
    assert_eq!(authorize(&keys(), None), Err("API key required".to_string()));
    assert_eq!(authorize(&keys(), Some("A")), Ok(()));
    assert_eq!(authorize(&keys(), Some("C")), Err("Invalid API key".to_string()));
    assert_eq!(authorize(&Vec::new(), None), Ok(()));
    assert_eq!(authorize(&Vec::new(), Some("C")), Ok(()));
}

#[test]
fn key_labels() {
    assert_eq!(key_label(None), "none");
    assert_eq!(key_label(Some("12345678")), "12345678");
    assert_eq!(key_label(Some("123456789")), "12345678...");
    assert_eq!(key_label(Some("")), "");
}

#[test]
fn header_decides_client() {
    let peer = IpAddress::V4(9, 9, 9, 9);
    assert_eq!(client_ip(None, peer), peer);
    assert_eq!(client_ip(Some("1.2.3.4"), peer), IpAddress::V4(1, 2, 3, 4));
    assert_eq!(client_ip(Some("junk"), peer), peer);
}

#[test]
fn upgrade_decisions() {
    let peer = IpAddress::V4(9, 9, 9, 9);
    let mut l = InMemoryRateLimit::new(1, 1);
    let r = decide_upgrade(&mut l, &keys(), None, None, peer).unwrap_err();
    assert_eq!((r.status, r.message.as_str()), (401, "API key required"));
    let r = decide_upgrade(&mut l, &keys(), Some("C"), None, peer).unwrap_err();
    assert_eq!((r.status, r.message.as_str()), (401, "Invalid API key"));
    assert_eq!(l.connections(), 0);
    let a = decide_upgrade(&mut l, &keys(), Some("A"), Some("5.6.7.8"), peer).unwrap();
    assert_eq!(a.client, IpAddress::V4(5, 6, 7, 8));
    assert_eq!(a.key_label, "A");
    assert_eq!(l.connections_of(IpAddress::V4(5, 6, 7, 8)), 1);
    let r = decide_upgrade(&mut l, &keys(), Some("B"), None, peer).unwrap_err();
    assert_eq!((r.status, r.message.as_str()), (429, "global connection limit reached"));
    l.release(a.ticket);
    assert_eq!(l.connections(), 0);
}
