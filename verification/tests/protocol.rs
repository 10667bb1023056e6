use xanq::address::{Address, DeliveryMode};
use xanq::agent::Session;
use xanq::client::{consume_reply, produce_reply, subscribe_reply, unexpected};
use xanq::error::ErrorKind;
use xanq::frame::{frame_len, payload_len, Frame};
use xanq::server::ServerInner;

struct Plain;
impl Address for Plain {}

struct Fanout;
impl Address for Fanout {
    fn delivery_mode(&self) -> DeliveryMode {
        DeliveryMode::Broadcast
    }
}

#[test]
fn address_defaults() {
    assert_eq!(Plain.delivery_mode(), DeliveryMode::Anycast);
    assert_eq!(Plain.retention_time(), 0);
    assert_eq!(Plain.retention_size(), 0);
    assert_eq!(Fanout.delivery_mode(), DeliveryMode::Broadcast);
}

fn text(f: &Frame) -> String {
    unexpected(f.clone()).message
}

#[test]
fn unexpected_renders_frames_as_debug_does() {
    let cases = vec![
        (
            Frame::Produce { addr: vec![1, 2], mode: DeliveryMode::Anycast, payload: vec![] },
            "Produce { addr: [1, 2], mode: Anycast, payload: [] }",
        ),
        (
            Frame::Subscribe { addr: vec![200], mode: DeliveryMode::Broadcast },
            "Subscribe { addr: [200], mode: Broadcast }",
        ),
        (Frame::Consume { sub_id: 0 }, "Consume { sub_id: 0 }"),
        (Frame::Unsubscribe { sub_id: 1234567890 }, "Unsubscribe { sub_id: 1234567890 }"),
        (Frame::ProduceOk, "ProduceOk"),
        (Frame::SubscribeOk { sub_id: u64::MAX }, "SubscribeOk { sub_id: 18446744073709551615 }"),
        (Frame::ConsumeOk { payload: Some(vec![7, 8, 9]) }, "ConsumeOk { payload: Some([7, 8, 9]) }"),
        (Frame::ConsumeOk { payload: None }, "ConsumeOk { payload: None }"),
        (Frame::UnsubscribeOk, "UnsubscribeOk"),
        (Frame::Error { msg: "a".into() }, "Err { msg: \"a\" }"),
    ];
    for (f, expected) in &cases {
        assert_eq!(f.debug_text(), *expected);
        assert_eq!(text(f), format!("unexpected frame: {expected}"));
    }
    let e = unexpected(Frame::ProduceOk);
    assert_eq!(e.kind, ErrorKind::InvalidData);
    assert_eq!(e.message, "unexpected frame: ProduceOk");
}

#[test]
fn unexpected_quotes_error_messages() {
    let e = unexpected(Frame::Error { msg: "say \"hi\"\n".to_string() });
    assert_eq!(e.message, "unexpected frame: Err { msg: \"say \\\"hi\\\"\\n\" }");
}

#[test]
fn replies_are_interpreted() {
    assert!(produce_reply(Frame::ProduceOk).is_ok());
    let e = produce_reply(Frame::Error { msg: "boom".into() }).unwrap_err();
    assert_eq!(e.kind, ErrorKind::Other);
    assert_eq!(e.message, "boom");
    let e = produce_reply(Frame::UnsubscribeOk).unwrap_err();
    assert_eq!(e.kind, ErrorKind::InvalidData);
    assert_eq!(e.message, "unexpected frame: UnsubscribeOk");

    assert_eq!(subscribe_reply(Frame::SubscribeOk { sub_id: 9 }).unwrap(), 9);
    assert_eq!(subscribe_reply(Frame::Error { msg: "no".into() }).unwrap_err().message, "no");
    assert_eq!(
        subscribe_reply(Frame::ProduceOk).unwrap_err().message,
        "unexpected frame: ProduceOk"
    );

    assert_eq!(consume_reply(Frame::ConsumeOk { payload: None }).unwrap(), None);
    assert_eq!(consume_reply(Frame::ConsumeOk { payload: Some(vec![1]) }).unwrap(), Some(vec![1]));
    assert_eq!(consume_reply(Frame::Error { msg: "x".into() }).unwrap_err().kind, ErrorKind::Other);
    assert_eq!(
        consume_reply(Frame::SubscribeOk { sub_id: 3 }).unwrap_err().message,
        "unexpected frame: SubscribeOk { sub_id: 3 }"
    );
}

#[test]
fn header_gives_the_frame_length() {
    assert_eq!(payload_len([0, 0, 0, 0]), 0);
    assert_eq!(payload_len([0, 0, 1, 2]), 258);
    assert_eq!(payload_len([1, 2, 3, 4]), 0x01020304);
    assert_eq!(payload_len([255, 255, 255, 255]), u32::MAX);
    assert_eq!(frame_len([0, 0, 0, 5]), 9);
    assert_eq!(frame_len([255, 255, 255, 255]), 4 + u32::MAX as u64);
}

fn reply(session: &mut Session, server: &mut ServerInner, f: Frame) -> Frame {
    session.handle(server, f).expect("every request gets a reply")
}

fn err_msg(f: Frame) -> String {
    match f {
        Frame::Error { msg } => msg,
        other => panic!("expected an error frame, got {}", other.debug_text()),
    }
}

#[test]
fn session_refuses_foreign_subscriptions() {
    let mut server = ServerInner::new();
    let mut owner = Session::new();
    let mut other = Session::new();
    let id = match reply(&mut owner, &mut server, Frame::Subscribe { addr: vec![1], mode: DeliveryMode::Anycast }) {
        Frame::SubscribeOk { sub_id } => sub_id,
        f => panic!("{}", f.debug_text()),
    };
    let m = err_msg(reply(&mut other, &mut server, Frame::Consume { sub_id: id }));
    assert_eq!(m, format!("sub_id {id} not owned by this connection"));
    // unsubscribing someone else's id is answered but changes nothing
    assert!(matches!(reply(&mut other, &mut server, Frame::Unsubscribe { sub_id: id }), Frame::UnsubscribeOk));
    assert!(matches!(reply(&mut owner, &mut server, Frame::Consume { sub_id: id }), Frame::ConsumeOk { payload: None }));
}

#[test]
fn session_rejects_server_frames_and_reports_mismatch() {
    let mut server = ServerInner::new();
    let mut s = Session::new();
    for f in [
        Frame::ProduceOk,
        Frame::SubscribeOk { sub_id: 1 },
        Frame::ConsumeOk { payload: None },
        Frame::UnsubscribeOk,
        Frame::Error { msg: "x".into() },
    ] {
        assert_eq!(err_msg(reply(&mut s, &mut server, f)), "unexpected server-direction frame from client");
    }
    assert!(matches!(
        reply(&mut s, &mut server, Frame::Produce { addr: vec![5], mode: DeliveryMode::Broadcast, payload: vec![1] }),
        Frame::ProduceOk
    ));
    let m = err_msg(reply(&mut s, &mut server, Frame::Subscribe { addr: vec![5], mode: DeliveryMode::Anycast }));
    assert_eq!(m, "delivery mode mismatch for address [5]");
    let m = err_msg(reply(&mut s, &mut server, Frame::Produce { addr: vec![5], mode: DeliveryMode::Anycast, payload: vec![] }));
    assert_eq!(m, "delivery mode mismatch for address [5]");
}

#[test]
fn session_payloads_round_trip() {
    let mut server = ServerInner::new();
    let mut s = Session::new();
    let id = match reply(&mut s, &mut server, Frame::Subscribe { addr: vec![9], mode: DeliveryMode::Broadcast }) {
        Frame::SubscribeOk { sub_id } => sub_id,
        f => panic!("{}", f.debug_text()),
    };
    reply(&mut s, &mut server, Frame::Produce { addr: vec![9], mode: DeliveryMode::Broadcast, payload: vec![4, 5, 6] });
    match reply(&mut s, &mut server, Frame::Consume { sub_id: id }) {
        Frame::ConsumeOk { payload } => assert_eq!(payload, Some(vec![4, 5, 6])),
        f => panic!("{}", f.debug_text()),
    }
}

#[test]
fn closing_a_session_ends_its_subscriptions() {
    let mut server = ServerInner::new();
    let mut s = Session::new();
    let mut keep = Session::new();
    let mut ids = Vec::new();
    for a in [1u8, 2, 3] {
        match reply(&mut s, &mut server, Frame::Subscribe { addr: vec![a], mode: DeliveryMode::Broadcast }) {
            Frame::SubscribeOk { sub_id } => ids.push(sub_id),
            f => panic!("{}", f.debug_text()),
        }
    }
    let kept = match reply(&mut keep, &mut server, Frame::Subscribe { addr: vec![1], mode: DeliveryMode::Broadcast }) {
        Frame::SubscribeOk { sub_id } => sub_id,
        f => panic!("{}", f.debug_text()),
    };
    s.close(&mut server);
    for id in ids {
        assert_eq!(server.consume(id).unwrap_err().kind, ErrorKind::NotFound);
    }
    assert_eq!(server.consume(kept).unwrap(), None);
    // the closed session owns nothing any more
    let m = err_msg(reply(&mut s, &mut server, Frame::Consume { sub_id: 1 }));
    assert_eq!(m, "sub_id 1 not owned by this connection");
}
