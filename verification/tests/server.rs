use bytes::Bytes;
use std::collections::HashSet;
use xanq::address::DeliveryMode;
use xanq::agent::Session;
use xanq::error::ErrorKind;
use xanq::frame::Frame;
use xanq::server::{mode_mismatch, ServerInner};

fn b(s: &str) -> Bytes {
    Bytes::from(s.as_bytes().to_vec())
}

fn subscribe(server: &mut ServerInner, session: &mut Session, addr: &[u8], mode: DeliveryMode) -> u64 {
    match session.handle(server, Frame::Subscribe { addr: addr.to_vec(), mode }) {
        Some(Frame::SubscribeOk { sub_id }) => sub_id,
        other => panic!("unexpected reply {:?}", other.map(|f| f.debug_text())),
    }
}

fn produce(server: &mut ServerInner, session: &mut Session, addr: &[u8], mode: DeliveryMode, text: &str) {
    match session.handle(
        server,
        Frame::Produce { addr: addr.to_vec(), mode, payload: text.as_bytes().to_vec() },
    ) {
        Some(Frame::ProduceOk) => {}
        other => panic!("unexpected reply {:?}", other.map(|f| f.debug_text())),
    }
}

fn consume(server: &mut ServerInner, session: &mut Session, sub_id: u64) -> Option<String> {
    match session.handle(server, Frame::Consume { sub_id }) {
        Some(Frame::ConsumeOk { payload }) => payload.map(|p| String::from_utf8(p).unwrap()),
        other => panic!("unexpected reply {:?}", other.map(|f| f.debug_text())),
    }
}

#[test]
fn anycast_one_server_two_clients_three_producers() {
    let mut server = ServerInner::new();
    let addr = b"topic-anycast";
    let mut c1 = Session::new();
    let mut c2 = Session::new();
    let cons1 = subscribe(&mut server, &mut c1, addr, DeliveryMode::Anycast);
    let cons2 = subscribe(&mut server, &mut c2, addr, DeliveryMode::Anycast);

    server.produce(addr, DeliveryMode::Anycast, b("from-server")).unwrap();
    produce(&mut server, &mut c1, addr, DeliveryMode::Anycast, "from-c1");
    produce(&mut server, &mut c2, addr, DeliveryMode::Anycast, "from-c2");

    let mut all: Vec<String> = Vec::new();
    loop {
        let m1 = consume(&mut server, &mut c1, cons1);
        let m2 = consume(&mut server, &mut c2, cons2);
        if m1.is_none() && m2.is_none() {
            break;
        }
        all.extend(m1);
        all.extend(m2);
    }
    assert_eq!(
        all.len(),
        3,
        "anycast: each message must be delivered exactly once across all consumers"
    );
    let unique: HashSet<_> = all.into_iter().collect();
    assert_eq!(
        unique,
        HashSet::from([
            "from-server".to_string(),
            "from-c1".to_string(),
            "from-c2".to_string(),
        ])
    );
}

#[test]
fn broadcast_one_server_two_clients_three_producers() {
    let mut server = ServerInner::new();
    let addr = b"topic-broadcast";
    let mut c1 = Session::new();
    let mut c2 = Session::new();
    let cons1 = subscribe(&mut server, &mut c1, addr, DeliveryMode::Broadcast);
    let cons2 = subscribe(&mut server, &mut c2, addr, DeliveryMode::Broadcast);

    server.produce(addr, DeliveryMode::Broadcast, b("from-server")).unwrap();
    produce(&mut server, &mut c1, addr, DeliveryMode::Broadcast, "from-c1");
    produce(&mut server, &mut c2, addr, DeliveryMode::Broadcast, "from-c2");

    let mut got1 = Vec::new();
    while let Some(m) = consume(&mut server, &mut c1, cons1) {
        got1.push(m);
    }
    let mut got2 = Vec::new();
    while let Some(m) = consume(&mut server, &mut c2, cons2) {
        got2.push(m);
    }
    let expected: HashSet<String> =
        HashSet::from(["from-server".into(), "from-c1".into(), "from-c2".into()]);
    assert_eq!(got1.len(), 3, "broadcast: cons1 should receive every message");
    assert_eq!(got2.len(), 3, "broadcast: cons2 should receive every message");
    let s1: HashSet<_> = got1.into_iter().collect();
    let s2: HashSet<_> = got2.into_iter().collect();
    assert_eq!(s1, expected);
    assert_eq!(s2, expected);
}

#[test]
fn anycast_messages_wait_for_a_subscriber_in_order() {
    let mut server = ServerInner::new();
    server.produce(b"q", DeliveryMode::Anycast, b("one")).unwrap();
    server.produce(b"q", DeliveryMode::Anycast, b("two")).unwrap();
    let id = server.subscribe(b"q", DeliveryMode::Anycast).unwrap();
    assert_eq!(server.consume(id).unwrap(), Some(b("one")));
    assert_eq!(server.consume(id).unwrap(), Some(b("two")));
    assert_eq!(server.consume(id).unwrap(), None);
}

#[test]
fn broadcast_without_subscribers_drops_messages() {
    let mut server = ServerInner::new();
    server.produce(b"t", DeliveryMode::Broadcast, b("lost")).unwrap();
    let id = server.subscribe(b"t", DeliveryMode::Broadcast).unwrap();
    assert_eq!(server.consume(id).unwrap(), None);
    server.produce(b"t", DeliveryMode::Broadcast, b("kept")).unwrap();
    assert_eq!(server.consume(id).unwrap(), Some(b("kept")));
}

#[test]
fn first_use_fixes_the_mode() {
    let mut server = ServerInner::new();
    server.produce(b"m", DeliveryMode::Anycast, b("x")).unwrap();
    let e = server.produce(b"m", DeliveryMode::Broadcast, b("y")).unwrap_err();
    assert_eq!(e.kind, ErrorKind::InvalidInput);
    assert_eq!(e.message, "delivery mode mismatch for address [109]");
    let e = server.subscribe(b"m", DeliveryMode::Broadcast).unwrap_err();
    assert_eq!(e.kind, ErrorKind::InvalidInput);
    // a refused subscribe still uses up an id
    let id = server.subscribe(b"m", DeliveryMode::Anycast).unwrap();
    assert_eq!(id, 2);
    assert_eq!(server.consume(id).unwrap(), Some(b("x")));
}

#[test]
fn subscriber_ids_start_at_one_and_increase() {
    let mut server = ServerInner::new();
    assert_eq!(server.subscribe(b"a", DeliveryMode::Anycast).unwrap(), 1);
    assert_eq!(server.subscribe(b"b", DeliveryMode::Broadcast).unwrap(), 2);
    assert_eq!(server.subscribe(b"a", DeliveryMode::Anycast).unwrap(), 3);
}

#[test]
fn unknown_subscriber_is_not_found() {
    let mut server = ServerInner::new();
    let e = server.consume(42).unwrap_err();
    assert_eq!(e.kind, ErrorKind::NotFound);
    assert_eq!(e.message, "unknown subscriber id 42");
}

#[test]
fn unsubscribe_ends_consumption_and_is_idempotent() {
    let mut server = ServerInner::new();
    let id = server.subscribe(b"t", DeliveryMode::Broadcast).unwrap();
    let other = server.subscribe(b"t", DeliveryMode::Broadcast).unwrap();
    server.unsubscribe(id);
    server.unsubscribe(id);
    assert_eq!(server.consume(id).unwrap_err().kind, ErrorKind::NotFound);
    server.produce(b"t", DeliveryMode::Broadcast, b("m")).unwrap();
    assert_eq!(server.consume(other).unwrap(), Some(b("m")));
}

#[test]
fn mode_mismatch_message_lists_the_address_bytes() {
    let e = mode_mismatch(&[1, 22, 255]);
    assert_eq!(e.kind, ErrorKind::InvalidInput);
    assert_eq!(e.message, "delivery mode mismatch for address [1, 22, 255]");
    assert_eq!(mode_mismatch(&[]).message, "delivery mode mismatch for address []");
}

#[test]
fn subscribe_then_unsubscribe_leaves_messages_in_place() {
    let mut server = ServerInner::new();
    server.produce(b"a", DeliveryMode::Anycast, b("m1")).unwrap();
    let passer = server.subscribe(b"a", DeliveryMode::Anycast).unwrap();
    server.unsubscribe(passer);
    let stayer = server.subscribe(b"a", DeliveryMode::Anycast).unwrap();
    assert_eq!(stayer, passer + 1);
    assert_eq!(server.consume(stayer).unwrap(), Some(b("m1")));
}

#[test]
fn broadcast_consumers_do_not_steal_from_each_other() {
    let mut server = ServerInner::new();
    let a = server.subscribe(b"t", DeliveryMode::Broadcast).unwrap();
    let c = server.subscribe(b"t", DeliveryMode::Broadcast).unwrap();
    server.produce(b"t", DeliveryMode::Broadcast, b("x")).unwrap();
    assert_eq!(server.consume(a).unwrap(), Some(b("x")));
    assert_eq!(server.consume(a).unwrap(), None);
    assert_eq!(server.consume(c).unwrap(), Some(b("x")));
}

#[test]
fn anycast_consumers_share_one_queue() {
    let mut server = ServerInner::new();
    let a = server.subscribe(b"q", DeliveryMode::Anycast).unwrap();
    let c = server.subscribe(b"q", DeliveryMode::Anycast).unwrap();
    server.produce(b"q", DeliveryMode::Anycast, b("x")).unwrap();
    server.produce(b"q", DeliveryMode::Anycast, b("y")).unwrap();
    assert_eq!(server.consume(c).unwrap(), Some(b("x")));
    assert_eq!(server.consume(a).unwrap(), Some(b("y")));
    assert_eq!(server.consume(c).unwrap(), None);
}

#[test]
fn producing_elsewhere_leaves_a_queue_alone() {
    let mut server = ServerInner::new();
    let a = server.subscribe(b"one", DeliveryMode::Broadcast).unwrap();
    server.produce(b"two", DeliveryMode::Broadcast, b("x")).unwrap();
    server.produce(b"three", DeliveryMode::Anycast, b("y")).unwrap();
    assert_eq!(server.consume(a).unwrap(), None);
}

#[test]
fn ids_are_never_reused() {
    let mut server = ServerInner::new();
    assert_eq!(server.next_sub_id(), 1);
    let a = server.subscribe(b"q", DeliveryMode::Anycast).unwrap();
    server.unsubscribe(a);
    let _ = server.subscribe(b"q", DeliveryMode::Broadcast).unwrap_err();
    let c = server.subscribe(b"q", DeliveryMode::Anycast).unwrap();
    assert!(c > a);
    assert_eq!(c, 3);
    assert_eq!(server.next_sub_id(), 4);
    server.produce(b"q", DeliveryMode::Anycast, b("x")).unwrap();
    server.consume(c).unwrap();
    assert_eq!(server.next_sub_id(), 4);
}

#[test]
fn consuming_an_empty_queue_changes_nothing() {
    let mut server = ServerInner::new();
    let a = server.subscribe(b"t", DeliveryMode::Broadcast).unwrap();
    assert_eq!(server.consume(a).unwrap(), None);
    assert_eq!(server.consume(a).unwrap(), None);
    server.produce(b"t", DeliveryMode::Broadcast, b("m")).unwrap();
    assert_eq!(server.consume(a).unwrap(), Some(b("m")));
}
