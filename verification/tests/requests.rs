//! The request each operation builds: verb, URL and body, checked against
//! the wire protocol's fixed URL scheme.

use hazelcast_rest::client::is_path_safe;
use hazelcast_rest::client::HazelcastRestClient;
use hazelcast_rest::client::Method;

#[test]
fn path_safety_of_identifiers() {
    assert!(is_path_safe("sample_queue"));
    assert!(is_path_safe("capital_map"));
    assert!(!is_path_safe(""));
    assert!(!is_path_safe("a/b"));
    assert!(!is_path_safe("a b"));
    assert!(!is_path_safe("a?x=1"));
    assert!(!is_path_safe("a#frag"));
}

#[test]
fn new_stores_address_verbatim() {
    let c = HazelcastRestClient::new("10.0.2.15", "5701");
    assert_eq!(c.ip_address, "10.0.2.15");
    assert_eq!(c.port, "5701");
}

#[test]
fn queue_offer_builds_post_to_queue_url() {
    let c = HazelcastRestClient::new("10.0.2.15", "5701");
    let r = c.queue_offer("sample_queue", "3");
    assert_eq!(r.method, Method::Post);
    assert_eq!(r.url, "http://10.0.2.15:5701/hazelcast/rest/queues/sample_queue");
    assert_eq!(r.body.as_deref(), Some("3"));
}

#[test]
fn queue_delete_builds_delete_with_timeout_segment() {
    let c = HazelcastRestClient::new("10.0.2.15", "5701");
    let r = c.queue_delete("sample_queue", 10);
    assert_eq!(r.method, Method::Delete);
    assert_eq!(r.url, "http://10.0.2.15:5701/hazelcast/rest/queues/sample_queue/10");
    assert!(r.body.is_none());
}

#[test]
fn queue_delete_renders_negative_timeout() {
    let c = HazelcastRestClient::new("host", "80");
    let r = c.queue_delete("q", -7);
    assert_eq!(r.url, "http://host:80/hazelcast/rest/queues/q/-7");
}

#[test]
fn queue_size_builds_get_on_size_url() {
    let c = HazelcastRestClient::new("10.0.2.15", "5701");
    let r = c.queue_size("sample_queue");
    assert_eq!(r.method, Method::Get);
    assert_eq!(r.url, "http://10.0.2.15:5701/hazelcast/rest/queues/sample_queue/size");
    assert!(r.body.is_none());
}

#[test]
fn map_put_builds_post_to_entry_url() {
    let c = HazelcastRestClient::new("10.0.2.15", "5701");
    let r = c.map_put("capital_map", "Turkey", "Ankara");
    assert_eq!(r.method, Method::Post);
    assert_eq!(r.url, "http://10.0.2.15:5701/hazelcast/rest/maps/capital_map/Turkey");
    assert_eq!(r.body.as_deref(), Some("Ankara"));
}

#[test]
fn map_get_builds_get_on_entry_url() {
    let c = HazelcastRestClient::new("10.0.2.15", "5701");
    let r = c.map_get("capital_map", "Turkey");
    assert_eq!(r.method, Method::Get);
    assert_eq!(r.url, "http://10.0.2.15:5701/hazelcast/rest/maps/capital_map/Turkey");
    assert!(r.body.is_none());
}

#[test]
fn map_remove_builds_delete_on_entry_url() {
    let c = HazelcastRestClient::new("10.0.2.15", "5701");
    let r = c.map_remove("capital_map", "Turkey");
    assert_eq!(r.method, Method::Delete);
    assert_eq!(r.url, "http://10.0.2.15:5701/hazelcast/rest/maps/capital_map/Turkey");
    assert!(r.body.is_none());
}

#[test]
fn map_remove_all_builds_delete_on_map_url() {
    let c = HazelcastRestClient::new("10.0.2.15", "5701");
    let r = c.map_remove_all("capital_map");
    assert_eq!(r.method, Method::Delete);
    assert_eq!(r.url, "http://10.0.2.15:5701/hazelcast/rest/maps/capital_map");
    assert!(r.body.is_none());
}
