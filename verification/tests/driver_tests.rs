//! Tests for the host driver layer: the pipelined property fetches, the
//! scoped change-signal subscriptions, the snapshot application, the
//! menu-session wiring, the typed property extractors and the send
//! failure path.

use tray_bridge::client::{
    property_reply_value, prop_to_bool, prop_to_bytes, prop_to_object_path, prop_to_str,
    prop_to_str_list, Action, BusError, Client,
};
use tray_bridge::host::{
    apply_fetched, create_hosts, install_change_handlers, issue_initial_fetches, menu_path_of,
    FetchedProperty, HostCallbacks, HostState, IconPixmap, SniItemProperties,
};
use tray_bridge::menu::{
    about_to_show_decision, install_menu_handlers, session_from_reply, LayoutNode,
};
use tray_bridge::msg::{Body, MsgKind, PropValue};

#[test]
fn extractors_map_matching_values_and_fail_otherwise() {
    assert_eq!(prop_to_str(PropValue::Str("a".to_string())), Ok("a".to_string()));
    assert_eq!(prop_to_str(PropValue::Bool(true)), Err(BusError::MapProperty));
    assert_eq!(prop_to_bool(PropValue::Bool(true)), Ok(true));
    assert_eq!(prop_to_bool(PropValue::I32(1)), Err(BusError::MapProperty));
    assert_eq!(
        prop_to_object_path(PropValue::ObjPath("/MenuBar".to_string())),
        Ok("/MenuBar".to_string())
    );
    assert_eq!(
        prop_to_object_path(PropValue::Str("/MenuBar".to_string())),
        Err(BusError::MapProperty)
    );
    assert_eq!(
        prop_to_str_list(PropValue::StrList(vec!["x".to_string()])),
        Ok(vec!["x".to_string()])
    );
    assert_eq!(prop_to_str_list(PropValue::Other), Err(BusError::MapProperty));
    assert_eq!(prop_to_bytes(PropValue::Bytes(vec![7])), Ok(vec![7]));
    assert_eq!(prop_to_bytes(PropValue::Other), Err(BusError::MapProperty));
}

fn body_reply(body: Body) -> tray_bridge::msg::BusMessage {
    tray_bridge::msg::BusMessage {
        header: tray_bridge::msg::MsgHeader {
            kind: MsgKind::MethodReturn,
            serial: 9,
            sender: None,
            destination: None,
            path: None,
            interface: None,
            member: None,
            error_name: None,
            reply_serial: Some(1),
            no_reply_expected: false,
        },
        body,
    }
}

fn value_reply(v: PropValue) -> tray_bridge::msg::BusMessage {
    body_reply(Body::Value(v))
}

#[test]
fn property_reply_value_passes_errors_through() {
    assert_eq!(property_reply_value(Err(BusError::Killed)), Err(BusError::Killed));
    let m = value_reply(PropValue::Bool(true));
    assert_eq!(property_reply_value(Ok(m)), Ok(PropValue::Bool(true)));
    let bad = body_reply(Body::Unit);
    assert_eq!(property_reply_value(Ok(bad)), Err(BusError::Deserialize));
}

#[test]
fn fail_send_fails_the_one_serial_with_send_then_kills() {
    let mut client = Client::new();
    let (_h1, _) = client.call_async(
        "d".to_string(),
        "i".to_string(),
        "/p".to_string(),
        "A".to_string(),
        Body::Unit,
        71,
    );
    let (_h2, _) = client.call_async(
        "d".to_string(),
        "i".to_string(),
        "/p".to_string(),
        "B".to_string(),
        Body::Unit,
        72,
    );
    let outgoing_before = client.outgoing.len();
    let failed = client.fail_send(1);
    assert!(client.killed);
    assert_eq!(client.outgoing.len(), outgoing_before);
    assert_eq!(failed.len(), 2);
    match &failed[0] {
        Action::InvokeReply { callback, result } => {
            assert_eq!(*callback, 71);
            assert_eq!(*result, Err(BusError::Send));
        }
        _ => panic!("expected a reply action"),
    }
    match &failed[1] {
        Action::InvokeReply { callback, result } => {
            assert_eq!(*callback, 72);
            assert_eq!(*result, Err(BusError::Killed));
        }
        _ => panic!("expected a reply action"),
    }
}

#[test]
fn initial_fetches_pipeline_back_to_back() {
    let mut client = Client::new();
    let mut host = HostState::new(1);
    let plan = host.handle_new_item(true, "com.example.App").expect("a plan");
    let before = client.outgoing.len();
    let acts = issue_initial_fetches(&mut client, &plan, 500);
    assert!(acts.is_empty());
    assert_eq!(client.outgoing.len(), before + 15);
    assert_eq!(client.pending.len(), 15);
    // Every message is a Properties.Get at the item, in plan order.
    for (k, m) in client.outgoing[before..].iter().enumerate() {
        assert_eq!(m.header.kind, MsgKind::MethodCall);
        assert_eq!(m.header.destination.as_deref(), Some("com.example.App"));
        assert_eq!(m.header.interface.as_deref(), Some("org.freedesktop.DBus.Properties"));
        assert_eq!(m.header.path.as_deref(), Some("/StatusNotifierItem"));
        assert_eq!(m.header.member.as_deref(), Some("Get"));
        match &m.body {
            Body::StrPair(i, p) => {
                assert_eq!(i, "org.freedesktop.StatusNotifierItem");
                assert_eq!(p, &plan.initial_properties[k]);
            }
            other => panic!("unexpected body {other:?}"),
        }
        assert_eq!(client.pending[k].callback, 500 + k as u64);
    }
    assert_eq!(plan.initial_properties[0], "Menu");
}

#[test]
fn change_handlers_are_scoped_to_the_item() {
    let mut client = Client::new();
    let mut host = HostState::new(1);
    let plan = host.handle_new_item(false, "org.x.App/Custom/Path").expect("a plan");
    let hs = install_change_handlers(&mut client, &plan, 600, 9);
    assert_eq!(hs.len(), 6);
    assert_eq!(client.handlers.len(), 6);
    let members: Vec<&str> = client
        .handlers
        .iter()
        .map(|h| h.rule.member.as_deref().unwrap())
        .collect();
    assert_eq!(
        members,
        ["NewTitle", "NewIcon", "NewAttentionIcon", "NewOverlayIcon", "NewToolTip", "NewStatus"]
    );
    for h in &client.handlers {
        assert_eq!(h.rule.sender.as_deref(), Some("org.x.App"));
        assert_eq!(h.rule.path.as_deref(), Some("/Custom/Path"));
        assert_eq!(h.rule.interface.as_deref(), Some("org.kde.StatusNotifierItem"));
    }
}

#[test]
fn create_hosts_installs_handlers_names_and_greetings() {
    let mut client = Client::new();
    let host = HostState::new(1);
    let cbs = HostCallbacks {
        fdo_item_registered: 1,
        fdo_item_unregistered: 2,
        kde_item_registered: 3,
        kde_item_unregistered: 4,
        name_owner_changed: 5,
        add_match: 6,
        fdo_items: 7,
        kde_items: 8,
    };
    let acts = create_hosts(&mut client, &host, cbs);
    assert!(acts.is_empty());
    assert_eq!(client.handlers.len(), 5);
    assert_eq!(client.outgoing.len(), 11);
    let members: Vec<Option<&str>> =
        client.outgoing.iter().map(|m| m.header.member.as_deref()).collect();
    assert_eq!(
        members,
        [
            Some("AddMatch"),
            Some("AddMatch"),
            Some("AddMatch"),
            Some("AddMatch"),
            Some("RequestName"),
            Some("RequestName"),
            Some("AddMatch"),
            Some("RegisterStatusNotifierHost"),
            Some("Get"),
            Some("RegisterStatusNotifierHost"),
            Some("Get"),
        ]
    );
    // Both greetings carry the per-process host names.
    match &client.outgoing[7].body {
        Body::Str(s) => assert_eq!(s, "org.freedesktop.StatusNotifierHost-0000000000000001"),
        other => panic!("unexpected body {other:?}"),
    }
    match &client.outgoing[9].body {
        Body::Str(s) => assert_eq!(s, "org.kde.StatusNotifierHost-0000000000000001"),
        other => panic!("unexpected body {other:?}"),
    }
    // The two item-list reads await their replies.
    assert_eq!(client.pending.len(), 7);
    assert_eq!(client.pending[5].callback, 7);
    assert_eq!(client.pending[6].callback, 8);
}

#[test]
fn apply_fetched_updates_the_named_field_only() {
    let mut p = SniItemProperties::empty();
    let r = apply_fetched(
        &mut p,
        "Title",
        FetchedProperty::Value(PropValue::Str("Player".to_string())),
    );
    assert!(r.is_ok());
    assert_eq!(p.title.as_deref(), Some("Player"));
    assert_eq!(p.category, None);
    let r = apply_fetched(&mut p, "Title", FetchedProperty::Value(PropValue::Bool(true)));
    assert_eq!(r, Err(BusError::MapProperty));
    assert_eq!(p.title.as_deref(), Some("Player"));
    let r = apply_fetched(&mut p, "ItemIsMenu", FetchedProperty::Value(PropValue::Bool(true)));
    assert!(r.is_ok());
    assert!(p.is_menu);
    let r = apply_fetched(&mut p, "NoSuchProperty", FetchedProperty::Value(PropValue::I32(0)));
    assert_eq!(r, Err(BusError::MapProperty));
}

#[test]
fn apply_fetched_validates_pixmaps() {
    let mut p = SniItemProperties::empty();
    let good = IconPixmap { width: 1, height: 1, bytes: vec![1, 2, 3, 4] };
    let bad = IconPixmap { width: 2, height: 2, bytes: vec![0; 15] };
    let r = apply_fetched(&mut p, "IconPixmap", FetchedProperty::Pixmaps(vec![bad, good]));
    assert!(r.is_ok());
    let frames = &p.icon.as_ref().unwrap().frames;
    assert_eq!(frames.len(), 1);
    assert_eq!(frames[0].size, (1, 1));
    assert_eq!(frames[0].bytes, vec![1, 2, 3, 4]);
}

#[test]
fn menu_path_resolves_only_valid_object_paths() {
    assert_eq!(
        menu_path_of(&PropValue::ObjPath("/MenuBar".to_string())),
        Some("/MenuBar".to_string())
    );
    assert_eq!(menu_path_of(&PropValue::ObjPath("not-a-path".to_string())), None);
    assert_eq!(menu_path_of(&PropValue::Str("/MenuBar".to_string())), None);
}

#[test]
fn open_menu_needs_a_menu_session() {
    let mut client = Client::new();
    let mut host = HostState::new(1);
    host.handle_new_item(true, "com.example.App").expect("a plan");
    let item = &host.items[0];
    assert!(item.open_menu(&mut client, &"/MenuBar".to_string(), 0, 9).is_none());
    assert_eq!(client.outgoing.len(), 0);
}

#[test]
fn menu_handlers_are_scoped_to_the_menu() {
    let mut client = Client::new();
    let (h1, h2) = install_menu_handlers(
        &mut client,
        &"com.example.App".to_string(),
        &"/MenuBar".to_string(),
        41,
        42,
        9,
    );
    assert_eq!(h1.rule.member.as_deref(), Some("LayoutUpdated"));
    assert_eq!(h2.rule.member.as_deref(), Some("ItemsPropertiesUpdated"));
    assert_eq!(client.handlers.len(), 2);
    for h in &client.handlers {
        assert_eq!(h.rule.sender.as_deref(), Some("com.example.App"));
        assert_eq!(h.rule.path.as_deref(), Some("/MenuBar"));
        assert_eq!(h.rule.interface.as_deref(), Some("com.canonical.dbusmenu"));
    }
    assert_eq!(client.outgoing.len(), 2);
}

#[test]
fn failed_layout_reply_opens_no_session() {
    assert!(session_from_reply(None).is_none());
    let root = LayoutNode { menu_id: 0, properties: vec![], children: vec![] };
    let (session, _delta) = session_from_reply(Some((3, &root))).expect("a session");
    assert_eq!(session.revision, 3);
    assert_eq!(session.tree.menu_id, 0);
}

#[test]
fn activation_maps_any_success_reply_to_true() {
    assert!(tray_bridge::host::activation_succeeded(&Ok(body_reply(Body::Unit))));
    assert!(!tray_bridge::host::activation_succeeded(&Err(BusError::Killed)));
    assert!(!tray_bridge::host::activation_succeeded(&Err(BusError::Send)));
}

#[test]
fn about_to_show_refreshes_only_on_true() {
    assert!(about_to_show_decision(&Ok(true)));
    assert!(!about_to_show_decision(&Ok(false)));
    assert!(!about_to_show_decision(&Err(BusError::Killed)));
}
