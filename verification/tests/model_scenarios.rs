//! End-to-end scenarios against the reference model of the grid: the
//! behaviour a caller of the protocol observes, exercised on concrete values.

use hazelcast_rest::model::GridModel;

#[test]
fn queue_fifo_end_to_end() {
    let mut g = GridModel::new();
    g.queue_offer("sample_queue", "3");
    g.queue_offer("sample_queue", "4");
    let first = g.queue_poll("sample_queue");
    assert_eq!(first.parse::<i32>().unwrap(), 3);
    let second = g.queue_poll("sample_queue");
    assert_eq!(second, "4");
}

#[test]
fn queue_size_counts_offered_not_polled() {
    let mut g = GridModel::new();
    assert_eq!(g.queue_size_body("q"), "0");
    g.queue_offer("q", "a");
    g.queue_offer("q", "b");
    g.queue_offer("q", "c");
    assert_eq!(g.queue_size("q"), 3);
    assert_eq!(g.queue_size_body("q"), "3");
    g.queue_poll("q");
    assert_eq!(g.queue_size_body("q"), "2");
}

#[test]
fn poll_on_empty_queue_returns_empty() {
    let mut g = GridModel::new();
    assert_eq!(g.queue_poll("nothing_here"), "");
    g.queue_offer("q", "only");
    g.queue_poll("q");
    assert_eq!(g.queue_poll("q"), "");
}

#[test]
fn map_put_overwrites() {
    let mut g = GridModel::new();
    g.map_put("m", "k", "v1");
    g.map_put("m", "k", "v2");
    assert_eq!(g.map_get("m", "k"), "v2");
}

#[test]
fn map_remove_all_clears_previous_entries() {
    let mut g = GridModel::new();
    g.map_put("capital_map", "Turkey", "Ankara");
    g.map_put("capital_map", "France", "Paris");
    g.map_put("capital_map", "Turkey", "Istanbul");
    g.map_remove_all("capital_map");
    assert_eq!(g.map_get("capital_map", "Turkey"), "");
    assert_eq!(g.map_get("capital_map", "France"), "");
}

#[test]
fn map_get_twice_returns_same_value() {
    let mut g = GridModel::new();
    g.map_put("m", "k", "value");
    let first = g.map_get("m", "k");
    let second = g.map_get("m", "k");
    assert_eq!(first, second);
    assert_eq!(first, "value");
}

#[test]
fn map_remove_unbinds_one_key() {
    let mut g = GridModel::new();
    g.map_put("m", "k1", "a");
    g.map_put("m", "k2", "b");
    g.map_remove("m", "k1");
    assert_eq!(g.map_get("m", "k1"), "");
    assert_eq!(g.map_get("m", "k2"), "b");
}

#[test]
fn separate_queues_do_not_interfere() {
    let mut g = GridModel::new();
    g.queue_offer("q1", "x");
    g.queue_offer("q2", "y");
    assert_eq!(g.queue_poll("q1"), "x");
    assert_eq!(g.queue_poll("q2"), "y");
}

#[test]
fn empty_value_is_indistinguishable_from_absence() {
    let mut g = GridModel::new();
    g.map_put("m", "k", "");
    assert_eq!(g.map_get("m", "k"), "");
    assert_eq!(g.map_get("m", "missing"), "");
}
