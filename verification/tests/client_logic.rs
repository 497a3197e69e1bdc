use bevy_websocket_adapter::client::{
    connect_target, connected_event, frame_event, received, server_handle, writer_step, ClientSession, Frame,
    Outgoing, WriterAction,
};
use bevy_websocket_adapter::shared::NetworkEvent;

#[test]
fn endpoint_that_parses_is_a_target() {
    let u = connect_target("ws://127.0.0.1:9023/").unwrap();
    assert_eq!(Some(u.clone()), url::Url::parse("ws://127.0.0.1:9023/").ok());
    assert_ne!(u.as_str(), "ws://elsewhere.example/");
    assert_eq!(u.as_str(), "ws://127.0.0.1:9023/");
    assert_eq!(u.port(), Some(9023));
}

#[test]
fn endpoint_that_does_not_parse_is_no_target() {
    assert!(connect_target("not a url").is_none());
    assert!(connect_target("").is_none());
}

#[test]
fn server_handle_is_nil() {
    assert_eq!(server_handle().uuid, 0);
    assert_eq!(server_handle().uuid, uuid::Uuid::nil().as_u128());
    assert!(matches!(connected_event(), NetworkEvent::Connected(h) if h.uuid == 0));
}

#[test]
fn binary_frame_becomes_a_message_from_the_server() {
    let ev = frame_event(Frame::Binary(vec![1, 2, 3])).unwrap();
    assert!(matches!(ev, NetworkEvent::Message(h, b) if h.uuid == 0 && b == vec![1, 2, 3]));
}

#[test]
fn other_frames_and_read_errors_become_nothing() {
    assert!(frame_event(Frame::Other).is_none());
    assert!(frame_event(Frame::ReadError).is_none());
}

#[test]
fn session_reports_connected_then_binary_frames_in_order() {
    let frames = vec![Frame::Binary(vec![1]), Frame::Other, Frame::ReadError, Frame::Binary(vec![2])];
    let mut evs = vec![connected_event()];
    for f in frames {
        if let Some(ev) = frame_event(f) {
            evs.push(ev);
        }
    }
    assert_eq!(evs.len(), 3);
    assert!(matches!(evs[0], NetworkEvent::Connected(_)));
    assert!(matches!(&evs[1], NetworkEvent::Message(_, b) if b == &vec![1u8]));
    assert!(matches!(&evs[2], NetworkEvent::Message(_, b) if b == &vec![2u8]));
}

#[test]
fn writer_decisions() {
    assert!(matches!(writer_step::<u8>(Outgoing::Empty), WriterAction::Retry));
    assert!(matches!(writer_step::<u8>(Outgoing::Closed), WriterAction::Stop));
    assert!(matches!(writer_step(Outgoing::Item(7u8)), WriterAction::Write(7)));
}

#[test]
fn session_runs_after_attach_until_detach() {
    let mut s: ClientSession<u32, u8, u16> = ClientSession::new();
    assert!(!s.is_running());
    assert!(s.receiver().is_none());
    assert!(s.sender().is_none());
    assert!(s.detach().is_none());
    s.attach(5, 6, 7);
    assert!(s.is_running());
    assert_eq!(s.receiver(), Some(&6));
    assert_eq!(s.sender(), Some(&7));
    assert_eq!(s.detach(), Some(5));
    assert!(!s.is_running());
    assert_eq!(s.receiver(), Some(&6));
    assert_eq!(s.sender(), Some(&7));
    assert_eq!(s.detach(), None);
    s.attach(8, 9, 10);
    assert!(s.is_running());
}

#[test]
fn receive_gives_the_item_or_nothing() {
    assert_eq!(received(Outgoing::Item(3u8)), Some(3));
    assert_eq!(received::<u8>(Outgoing::Empty), None);
    assert_eq!(received::<u8>(Outgoing::Closed), None);
}

#[test]
fn running_follows_the_last_connect_and_disconnect() {
    let mut s: ClientSession<u32, u8, u16> = ClientSession::new();
    s.attach(1, 1, 1);
    s.detach();
    assert!(!s.is_running());
    let _ = s.receiver();
    s.attach(2, 2, 2);
    let _ = s.sender();
    assert!(s.is_running());
    s.attach(3, 3, 3);
    assert!(s.is_running());
    s.detach();
    s.detach();
    assert!(!s.is_running());
}
