use tray_bridge::client::{Action, BusError, Client};
use tray_bridge::msg::{Body, BusMessage, MatchRule, MsgHeader, MsgKind, PropValue};

fn header(kind: MsgKind) -> MsgHeader {
    MsgHeader {
        kind,
        serial: 900,
        sender: None,
        destination: None,
        path: None,
        interface: None,
        member: None,
        error_name: None,
        reply_serial: None,
        no_reply_expected: false,
    }
}

fn reply_to(serial: u32) -> BusMessage {
    let mut h = header(MsgKind::MethodReturn);
    h.reply_serial = Some(serial);
    BusMessage { header: h, body: Body::Unit }
}

fn call_three(client: &mut Client) -> (u32, u32, u32) {
    let (h1, a1) = client.call_async(
        "org.example.A".to_string(),
        "org.example.I".to_string(),
        "/a".to_string(),
        "MethodA".to_string(),
        Body::Unit,
        1,
    );
    let (h2, a2) = client.call_async(
        "org.example.B".to_string(),
        "org.example.I".to_string(),
        "/b".to_string(),
        "MethodB".to_string(),
        Body::Unit,
        2,
    );
    let (h3, a3) = client.call_async(
        "org.example.C".to_string(),
        "org.example.I".to_string(),
        "/c".to_string(),
        "MethodC".to_string(),
        Body::Unit,
        3,
    );
    assert!(a1.is_none() && a2.is_none() && a3.is_none());
    (h1.serial, h2.serial, h3.serial)
}

#[test]
fn pipelined_calls_leave_in_issuance_order() {
    let mut client = Client::new();
    let (s1, s2, s3) = call_three(&mut client);
    assert_eq!((s1, s2, s3), (1, 2, 3));
    assert_eq!(client.outgoing.len(), 3);
    assert_eq!(client.outgoing[0].header.serial, 1);
    assert_eq!(
        client.outgoing[0].header.member.as_deref(),
        Some("MethodA")
    );
    assert_eq!(
        client.outgoing[1].header.member.as_deref(),
        Some("MethodB")
    );
    assert_eq!(
        client.outgoing[2].header.member.as_deref(),
        Some("MethodC")
    );
    assert!(!client.outgoing[0].header.no_reply_expected);
}

#[test]
fn dropped_call_discards_late_reply() {
    let mut client = Client::new();
    let (h, _) = client.call_async(
        "org.example.A".to_string(),
        "org.example.I".to_string(),
        "/a".to_string(),
        "MethodA".to_string(),
        Body::Unit,
        7,
    );
    let serial = h.serial;
    client.drop_call(h);
    let acts = client.dispatch(reply_to(serial));
    assert!(acts.is_empty());
}

#[test]
fn detached_call_still_delivers_exactly_once() {
    let mut client = Client::new();
    let (mut h, _) = client.call_async(
        "org.example.A".to_string(),
        "org.example.I".to_string(),
        "/a".to_string(),
        "MethodA".to_string(),
        Body::Unit,
        7,
    );
    let serial = h.serial;
    h.detach();
    client.drop_call(h);
    let acts = client.dispatch(reply_to(serial));
    assert_eq!(acts.len(), 1);
    match &acts[0] {
        Action::InvokeReply { callback, result } => {
            assert_eq!(*callback, 7);
            assert!(result.is_ok());
        }
        other => panic!("unexpected action {:?}", other),
    }
    // A second reply carrying the same serial reaches nobody.
    let acts2 = client.dispatch(reply_to(serial));
    assert!(acts2.is_empty());
}

#[test]
fn kill_fails_every_pending_call_once() {
    let mut client = Client::new();
    let _ = call_three(&mut client);
    let sent_before = client.outgoing.len();
    let failed = client.kill();
    assert_eq!(failed.len(), 3);
    for (i, act) in failed.iter().enumerate() {
        match act {
            Action::InvokeReply { callback, result } => {
                assert_eq!(*callback, (i + 1) as u64);
                assert!(matches!(result, Err(BusError::Killed)));
            }
            other => panic!("unexpected action {:?}", other),
        }
    }
    // The writer is stopped: nothing further reaches the wire.
    client.send_signal(
        "org.example.I".to_string(),
        "/a".to_string(),
        "Sig".to_string(),
        Body::Unit,
    );
    assert_eq!(client.outgoing.len(), sent_before);
    // A call on the killed client owes its callback a Killed error.
    let (_h, act) = client.call_async(
        "org.example.A".to_string(),
        "org.example.I".to_string(),
        "/a".to_string(),
        "MethodA".to_string(),
        Body::Unit,
        9,
    );
    match act {
        Some(Action::InvokeReply { callback, result }) => {
            assert_eq!(callback, 9);
            assert!(matches!(result, Err(BusError::Killed)));
        }
        other => panic!("unexpected action {:?}", other),
    }
}

#[test]
fn signal_dispatch_preserves_registration_order() {
    let mut client = Client::new();
    let rule = MatchRule {
        kind: Some(MsgKind::Signal),
        sender: None,
        path: None,
        interface: Some("org.example.I".to_string()),
        member: Some("Sig".to_string()),
    };
    let narrower = MatchRule {
        kind: Some(MsgKind::Signal),
        sender: Some(":1.5".to_string()),
        path: None,
        interface: Some("org.example.I".to_string()),
        member: Some("Sig".to_string()),
    };
    let (_h1, _) = client.handle_signal(rule.dup(), 11, 100);
    let (_h2, _) = client.handle_signal(narrower, 12, 101);
    let (_h3, _) = client.handle_signal(rule, 13, 102);
    let mut h = header(MsgKind::Signal);
    h.interface = Some("org.example.I".to_string());
    h.member = Some("Sig".to_string());
    h.sender = Some(":1.9".to_string());
    let acts = client.dispatch(BusMessage { header: h, body: Body::Opaque });
    // The narrower rule does not match the sender; the two broad
    // handlers fire in registration order.
    assert_eq!(acts.len(), 2);
    assert!(matches!(acts[0], Action::InvokeSignal { callback: 11 }));
    assert!(matches!(acts[1], Action::InvokeSignal { callback: 13 }));
}

#[test]
fn uninstalled_handler_no_longer_fires() {
    let mut client = Client::new();
    let rule = MatchRule {
        kind: Some(MsgKind::Signal),
        sender: None,
        path: None,
        interface: Some("org.example.I".to_string()),
        member: Some("Sig".to_string()),
    };
    let (h1, _) = client.handle_signal(rule, 11, 100);
    client.drop_signal_handler(h1);
    // RemoveMatch left with the broker.
    assert_eq!(
        client.outgoing.last().unwrap().header.member.as_deref(),
        Some("RemoveMatch")
    );
    let mut h = header(MsgKind::Signal);
    h.interface = Some("org.example.I".to_string());
    h.member = Some("Sig".to_string());
    let acts = client.dispatch(BusMessage { header: h, body: Body::Opaque });
    assert!(acts.is_empty());
}

#[test]
fn exported_object_serves_properties() {
    let mut client = Client::new();
    let obj = client.add_object("/obj".to_string());
    client.add_method(&obj, "org.example.I".to_string(), "Do".to_string(), 21);
    client.set_property(
        &obj,
        "org.example.I".to_string(),
        "Answer".to_string(),
        PropValue::I32(42),
    );
    // Setting a property emits PropertiesChanged even before any Get.
    let last = client.outgoing.last().unwrap();
    assert_eq!(last.header.kind, MsgKind::Signal);
    assert_eq!(last.header.member.as_deref(), Some("PropertiesChanged"));

    let mut h = header(MsgKind::MethodCall);
    h.serial = 77;
    h.sender = Some(":1.2".to_string());
    h.path = Some("/obj".to_string());
    h.interface = Some("org.freedesktop.DBus.Properties".to_string());
    h.member = Some("Get".to_string());
    let get = BusMessage {
        header: h,
        body: Body::StrPair("org.example.I".to_string(), "Answer".to_string()),
    };
    let before = client.outgoing.len();
    let acts = client.dispatch(get);
    assert!(acts.is_empty());
    let reply = &client.outgoing[before];
    assert_eq!(reply.header.kind, MsgKind::MethodReturn);
    assert_eq!(reply.header.reply_serial, Some(77));
    assert_eq!(reply.header.destination.as_deref(), Some(":1.2"));
    assert_eq!(reply.body, Body::Value(PropValue::I32(42)));
}

#[test]
fn inbound_method_call_yields_reply_token() {
    let mut client = Client::new();
    let obj = client.add_object("/obj".to_string());
    client.add_method(&obj, "org.example.I".to_string(), "Do".to_string(), 21);
    let mut h = header(MsgKind::MethodCall);
    h.serial = 5;
    h.sender = Some(":1.4".to_string());
    h.path = Some("/obj".to_string());
    h.interface = Some("org.example.I".to_string());
    h.member = Some("Do".to_string());
    let acts = client.dispatch(BusMessage { header: h, body: Body::Opaque });
    assert_eq!(acts.len(), 1);
    match acts.into_iter().next().unwrap() {
        Action::InvokeMethod { callback, token } => {
            assert_eq!(callback, 21);
            assert_eq!(token.serial, 5);
            client.send_reply(token, Body::Unit);
            let reply = client.outgoing.last().unwrap();
            assert_eq!(reply.header.reply_serial, Some(5));
            assert_eq!(reply.header.destination.as_deref(), Some(":1.4"));
        }
        other => panic!("unexpected action {:?}", other),
    }
}

#[test]
fn missing_object_and_method_get_error_replies() {
    let mut client = Client::new();
    let obj = client.add_object("/obj".to_string());
    client.add_method(&obj, "org.example.I".to_string(), "Do".to_string(), 21);
    let mut h = header(MsgKind::MethodCall);
    h.serial = 6;
    h.path = Some("/absent".to_string());
    h.interface = Some("org.example.I".to_string());
    h.member = Some("Do".to_string());
    let acts = client.dispatch(BusMessage { header: h, body: Body::Opaque });
    assert!(acts.is_empty());
    let err = client.outgoing.last().unwrap();
    assert_eq!(err.header.kind, MsgKind::Error);
    assert_eq!(err.header.error_name.as_deref(), Some("Bussy.Unspecified"));
    assert_eq!(err.body, Body::Str("Object does not exist".to_string()));

    let mut h2 = header(MsgKind::MethodCall);
    h2.serial = 7;
    h2.path = Some("/obj".to_string());
    h2.interface = Some("org.example.I".to_string());
    h2.member = Some("Absent".to_string());
    let acts2 = client.dispatch(BusMessage { header: h2, body: Body::Opaque });
    assert!(acts2.is_empty());
    assert_eq!(
        client.outgoing.last().unwrap().body,
        Body::Str("Method does not exist".to_string())
    );
}

#[test]
fn error_replies_decode_into_the_error_taxonomy() {
    let mut client = Client::new();
    for cb in [31u64, 32, 33] {
        let _ = client.call_async(
            "org.example.A".to_string(),
            "org.example.I".to_string(),
            "/a".to_string(),
            "M".to_string(),
            Body::Unit,
            cb,
        );
    }
    // A well-formed bus error.
    let mut h1 = header(MsgKind::Error);
    h1.reply_serial = Some(1);
    h1.error_name = Some("org.example.Err".to_string());
    let acts = client.dispatch(BusMessage {
        header: h1,
        body: Body::Str("boom".to_string()),
    });
    match &acts[0] {
        Action::InvokeReply { callback: 31, result } => {
            assert!(matches!(
                result,
                Err(BusError::ErrorReply(name, text))
                    if name == "org.example.Err" && text == "boom"
            ));
        }
        other => panic!("unexpected action {:?}", other),
    }
    // An error without an error name.
    let mut h2 = header(MsgKind::Error);
    h2.reply_serial = Some(2);
    let acts2 = client.dispatch(BusMessage { header: h2, body: Body::Str("x".to_string()) });
    match &acts2[0] {
        Action::InvokeReply { callback: 32, result } => {
            assert!(matches!(result, Err(BusError::NoErrorName)));
        }
        other => panic!("unexpected action {:?}", other),
    }
    // An error whose body does not decode as a string.
    let mut h3 = header(MsgKind::Error);
    h3.reply_serial = Some(3);
    h3.error_name = Some("org.example.Err".to_string());
    let acts3 = client.dispatch(BusMessage { header: h3, body: Body::Unit });
    match &acts3[0] {
        Action::InvokeReply { callback: 33, result } => {
            assert!(matches!(result, Err(BusError::NoErrorBody)));
        }
        other => panic!("unexpected action {:?}", other),
    }
}

#[test]
fn dropped_reply_token_answers_automatically() {
    let mut client = Client::new();
    let obj = client.add_object("/obj".to_string());
    client.add_method(&obj, "org.example.I".to_string(), "Do".to_string(), 21);
    let mut h = header(MsgKind::MethodCall);
    h.serial = 8;
    h.sender = Some(":1.4".to_string());
    h.path = Some("/obj".to_string());
    h.interface = Some("org.example.I".to_string());
    h.member = Some("Do".to_string());
    let acts = client.dispatch(BusMessage { header: h, body: Body::Opaque });
    match acts.into_iter().next().unwrap() {
        Action::InvokeMethod { token, .. } => {
            client.drop_reply_token(token);
            let err = client.outgoing.last().unwrap();
            assert_eq!(err.header.kind, MsgKind::Error);
            assert_eq!(
                err.body,
                Body::Str("Application did not send a reply".to_string())
            );
        }
        other => panic!("unexpected action {:?}", other),
    }
}
