use bevy_websocket_adapter::shared::{ConnectionHandle, Connections, Enveloppe};
use serde_json::Value;

fn item(n: u128, tp: &str) -> (ConnectionHandle, Enveloppe) {
    (ConnectionHandle { uuid: n }, Enveloppe { message_type: tp.to_string(), payload: Value::Null })
}

fn uuids(q: &Vec<(ConnectionHandle, Enveloppe)>) -> Vec<u128> {
    q.iter().map(|(h, _)| h.uuid).collect()
}

#[test]
fn new_map_is_empty() {
    let m = Connections::new();
    assert!(m.is_empty());
    assert_eq!(m.len(), 0);
    assert!(m.get(&"a".to_string()).is_none());
}

#[test]
fn insert_then_get_reads_back() {
    let mut m = Connections::new();
    assert!(m.insert("a".to_string(), vec![item(1, "a"), item(2, "a")]).is_none());
    assert!(m.contains_key(&"a".to_string()));
    assert_eq!(uuids(m.get(&"a".to_string()).unwrap()), vec![1, 2]);
    assert_eq!(m.len(), 1);
}

#[test]
fn insert_replaces_and_returns_the_old_queue() {
    let mut m = Connections::new();
    m.insert("a".to_string(), vec![item(1, "a")]);
    m.insert("b".to_string(), vec![item(5, "b")]);
    let old = m.insert("a".to_string(), vec![item(2, "a")]).unwrap();
    assert_eq!(uuids(&old), vec![1]);
    assert_eq!(uuids(m.get(&"a".to_string()).unwrap()), vec![2]);
    assert_eq!(uuids(m.get(&"b".to_string()).unwrap()), vec![5]);
    assert_eq!(m.len(), 2);
}

#[test]
fn remove_takes_the_queue_out() {
    let mut m = Connections::new();
    m.insert("a".to_string(), vec![item(1, "a")]);
    m.insert("b".to_string(), vec![item(2, "b")]);
    let q = m.remove(&"a".to_string()).unwrap();
    assert_eq!(uuids(&q), vec![1]);
    assert!(!m.contains_key(&"a".to_string()));
    assert!(m.remove(&"a".to_string()).is_none());
    assert_eq!(uuids(m.get(&"b".to_string()).unwrap()), vec![2]);
    assert_eq!(m.len(), 1);
}

#[test]
fn keys_lists_each_type_once() {
    let mut m = Connections::new();
    assert!(m.keys().is_empty());
    m.insert("a".to_string(), vec![item(1, "a")]);
    m.insert("b".to_string(), vec![]);
    m.insert("a".to_string(), vec![item(2, "a")]);
    let mut keys = m.keys();
    keys.sort();
    assert_eq!(keys, vec!["a".to_string(), "b".to_string()]);
    m.remove(&"a".to_string());
    assert_eq!(m.keys(), vec!["b".to_string()]);
}
