use bevy_websocket_adapter::shared::{ConnectionHandle, Connections, Enveloppe, NetworkEvent, NetworkEvents};
use bevy_websocket_adapter::systems::{
    add_message_consumer, consume_message, consume_messages, forward_decoded, handle_network_events,
};
use serde_json::Value;

fn handle(n: u128) -> ConnectionHandle {
    ConnectionHandle { uuid: n }
}

fn env(tp: &str, payload: u64) -> Enveloppe {
    Enveloppe { message_type: tp.to_string(), payload: Value::from(payload) }
}

fn payloads(q: &Vec<(ConnectionHandle, Enveloppe)>) -> Vec<(u128, u64)> {
    q.iter().map(|(h, e)| (h.uuid, e.payload.as_u64().unwrap())).collect()
}

fn decode_u64(e: &Enveloppe) -> Option<u64> {
    e.payload.as_u64()
}

#[test]
fn connection_events_go_to_the_event_buffer() {
    let mut hmap = Connections::new();
    let mut evs = NetworkEvents::new();
    consume_message(&mut hmap, &mut evs, NetworkEvent::Connected(handle(1)), None);
    consume_message(&mut hmap, &mut evs, NetworkEvent::Disconnected(handle(2)), None);
    consume_message(&mut hmap, &mut evs, NetworkEvent::Error(Some(handle(3)), anyhow::Error::msg("boom")), None);
    assert_eq!(evs.0.len(), 3);
    assert!(matches!(evs.0[0], NetworkEvent::Connected(h) if h.uuid == 1));
    assert!(matches!(evs.0[1], NetworkEvent::Disconnected(h) if h.uuid == 2));
    assert!(matches!(&evs.0[2], NetworkEvent::Error(Some(h), m) if h.uuid == 3 && m.to_string() == "boom"));
    assert!(hmap.is_empty());
}

#[test]
fn decoded_message_is_queued_under_its_type() {
    let mut hmap = Connections::new();
    let mut evs = NetworkEvents::new();
    consume_message(&mut hmap, &mut evs, NetworkEvent::Message(handle(4), vec![1, 2]), Some(env("dummy", 10)));
    assert!(evs.0.is_empty());
    assert_eq!(hmap.len(), 1);
    let q = hmap.get(&"dummy".to_string()).unwrap();
    assert_eq!(payloads(q), vec![(4, 10)]);
    assert_eq!(q[0].1.message_type, "dummy");
}

#[test]
fn undecodable_message_is_dropped() {
    let mut hmap = Connections::new();
    let mut evs = NetworkEvents::new();
    consume_message(&mut hmap, &mut evs, NetworkEvent::Message(handle(4), b"not json".to_vec()), None);
    assert!(evs.0.is_empty());
    assert!(hmap.is_empty());
}

#[test]
fn a_batch_keeps_arrival_order_per_type() {
    let mut hmap = Connections::new();
    let mut evs = NetworkEvents::new();
    let batch = vec![
        (NetworkEvent::Message(handle(1), vec![]), Some(env("a", 1))),
        (NetworkEvent::Connected(handle(9)), None),
        (NetworkEvent::Message(handle(2), vec![]), Some(env("b", 2))),
        (NetworkEvent::Message(handle(3), vec![]), None),
        (NetworkEvent::Message(handle(1), vec![]), Some(env("a", 3))),
        (NetworkEvent::Disconnected(handle(9)), None),
    ];
    consume_messages(&mut hmap, &mut evs, batch);
    assert_eq!(hmap.len(), 2);
    assert_eq!(payloads(hmap.get(&"a".to_string()).unwrap()), vec![(1, 1), (1, 3)]);
    assert_eq!(payloads(hmap.get(&"b".to_string()).unwrap()), vec![(2, 2)]);
    assert_eq!(evs.0.len(), 2);
    assert!(matches!(evs.0[0], NetworkEvent::Connected(h) if h.uuid == 9));
    assert!(matches!(evs.0[1], NetworkEvent::Disconnected(h) if h.uuid == 9));
}

#[test]
fn new_messages_go_after_those_already_queued() {
    let mut hmap = Connections::new();
    let mut evs = NetworkEvents::new();
    hmap.insert("a".to_string(), vec![(handle(7), env("a", 70))]);
    consume_messages(
        &mut hmap,
        &mut evs,
        vec![(NetworkEvent::Message(handle(8), vec![]), Some(env("a", 80)))],
    );
    assert_eq!(payloads(hmap.get(&"a".to_string()).unwrap()), vec![(7, 70), (8, 80)]);
}

#[test]
fn empty_batch_changes_nothing() {
    let mut hmap = Connections::new();
    let mut evs = NetworkEvents::new();
    consume_messages(&mut hmap, &mut evs, Vec::new());
    assert!(hmap.is_empty());
    assert!(evs.0.is_empty());
}

#[test]
fn handle_network_events_drains_in_order() {
    let mut evs = NetworkEvents(vec![
        NetworkEvent::Connected(handle(1)),
        NetworkEvent::Error(None, anyhow::Error::msg("x")),
        NetworkEvent::Disconnected(handle(1)),
    ]);
    let sent = handle_network_events(&mut evs);
    assert_eq!(sent.len(), 3);
    assert!(matches!(sent[0], NetworkEvent::Connected(h) if h.uuid == 1));
    assert!(matches!(&sent[1], NetworkEvent::Error(None, m) if m.to_string() == "x"));
    assert!(matches!(sent[2], NetworkEvent::Disconnected(h) if h.uuid == 1));
    assert!(evs.0.is_empty());
    assert!(handle_network_events(&mut evs).is_empty());
}

#[test]
fn consumer_gets_its_queue_in_order() {
    let mut hmap = Connections::new();
    let mut evs = NetworkEvents::new();
    consume_messages(
        &mut hmap,
        &mut evs,
        vec![
            (NetworkEvent::Message(handle(1), vec![]), Some(env("dummy", 5))),
            (NetworkEvent::Message(handle(2), vec![]), Some(env("other", 6))),
            (NetworkEvent::Message(handle(3), vec![]), Some(env("dummy", 7))),
        ],
    );
    let got = add_message_consumer(&"dummy".to_string(), &mut hmap, decode_u64);
    let got: Vec<(u128, u64)> = got.into_iter().map(|(h, t)| (h.uuid, t)).collect();
    assert_eq!(got, vec![(1, 5), (3, 7)]);
    assert!(!hmap.contains_key(&"dummy".to_string()));
    assert_eq!(payloads(hmap.get(&"other".to_string()).unwrap()), vec![(2, 6)]);
    let again = add_message_consumer(&"dummy".to_string(), &mut hmap, decode_u64);
    assert!(again.is_empty());
}

#[test]
fn consumer_drops_what_does_not_decode() {
    let mut hmap = Connections::new();
    hmap.insert(
        "dummy".to_string(),
        vec![
            (handle(1), env("dummy", 5)),
            (handle(2), Enveloppe { message_type: "dummy".to_string(), payload: Value::from("text") }),
            (handle(3), env("dummy", 7)),
        ],
    );
    let got = add_message_consumer(&"dummy".to_string(), &mut hmap, decode_u64);
    let got: Vec<(u128, u64)> = got.into_iter().map(|(h, t)| (h.uuid, t)).collect();
    assert_eq!(got, vec![(1, 5), (3, 7)]);
    assert!(hmap.is_empty());
}

#[test]
fn consumer_of_an_absent_type_gets_nothing() {
    let mut hmap = Connections::new();
    hmap.insert("a".to_string(), vec![(handle(1), env("a", 1))]);
    let got = add_message_consumer(&"b".to_string(), &mut hmap, decode_u64);
    assert!(got.is_empty());
    assert_eq!(hmap.len(), 1);
}

#[test]
fn forward_decoded_keeps_successes_in_order() {
    let items = vec![(handle(1), Some(10u8)), (handle(2), None), (handle(3), Some(30u8)), (handle(4), None)];
    let out: Vec<(u128, u8)> = forward_decoded(items).into_iter().map(|(h, t)| (h.uuid, t)).collect();
    assert_eq!(out, vec![(1, 10), (3, 30)]);
    let none: Vec<(ConnectionHandle, u8)> = forward_decoded(vec![(handle(1), None)]);
    assert!(none.is_empty());
}
