use tray_bridge::client::Client;
use tray_bridge::host::{
    format_hex16, host_name, parse_item_id, refetch_plan, HostState, IconFrames, IconPixmap,
    ItemStatus, MutableProperty, SniItemId,
};
use tray_bridge::msg::Body;

#[test]
fn host_names_carry_the_nonce_in_hex() {
    assert_eq!(format_hex16(1), "0000000000000001");
    assert_eq!(format_hex16(0), "0000000000000000");
    assert_eq!(format_hex16(0xdead_beef_0123_4567), "deadbeef01234567");
    assert_eq!(
        host_name(true, 1),
        "org.freedesktop.StatusNotifierHost-0000000000000001"
    );
    assert_eq!(host_name(false, 1), "org.kde.StatusNotifierHost-0000000000000001");
}

#[test]
fn item_identifiers_split_at_the_first_slash() {
    let (d, p) = parse_item_id("com.example.App").unwrap();
    assert_eq!(d, "com.example.App");
    assert_eq!(p, "/StatusNotifierItem");
    let (d2, p2) = parse_item_id(":1.7/StatusNotifierItem").unwrap();
    assert_eq!(d2, ":1.7");
    assert_eq!(p2, "/StatusNotifierItem");
    let (d3, p3) = parse_item_id(":1.7/a/b_c").unwrap();
    assert_eq!(d3, ":1.7");
    assert_eq!(p3, "/a/b_c");
}

#[test]
fn malformed_identifiers_are_dropped() {
    assert!(parse_item_id("").is_none());
    assert!(parse_item_id("no-dots/StatusNotifierItem").is_none());
    assert!(parse_item_id("com.example.App/bad//path").is_none());
    assert!(parse_item_id("com.example.App/trailing/").is_none());
    assert!(parse_item_id("3com.example/x").is_none());
}

#[test]
fn a_new_item_gets_a_plan_and_a_fresh_id() {
    let mut host = HostState::new(1);
    let plan = host.handle_new_item(true, "com.example.App").expect("tracked");
    assert_eq!(plan.local_id, SniItemId(1));
    assert_eq!(plan.destination, "com.example.App");
    assert_eq!(plan.path, "/StatusNotifierItem");
    assert_eq!(plan.interface, "org.freedesktop.StatusNotifierItem");
    assert_eq!(
        plan.change_signals,
        vec![
            "NewTitle".to_string(),
            "NewIcon".to_string(),
            "NewAttentionIcon".to_string(),
            "NewOverlayIcon".to_string(),
            "NewToolTip".to_string(),
            "NewStatus".to_string(),
        ]
    );
    assert_eq!(plan.initial_properties.first().map(|s| s.as_str()), Some("Menu"));
    assert_eq!(plan.initial_properties.len(), 15);
    assert_eq!(host.items.len(), 1);
    assert_eq!(host.items[0].status, ItemStatus::New);
    // The same identifier is ignored the second time.
    assert!(host.handle_new_item(true, "com.example.App").is_none());
    assert_eq!(host.items.len(), 1);
    // The KDE variant speaks its own interface.
    let plan2 = host.handle_new_item(false, ":1.7/Item").expect("tracked");
    assert_eq!(plan2.interface, "org.kde.StatusNotifierItem");
    assert_eq!(plan2.local_id, SniItemId(2));
}

#[test]
fn announce_respects_the_terminal_removal() {
    let mut host = HostState::new(1);
    let plan = host.handle_new_item(true, "com.example.App").unwrap();
    assert!(host.announce(plan.local_id));
    assert_eq!(host.items[0].status, ItemStatus::Announced);
    // Announcing twice does nothing more.
    assert!(!host.announce(plan.local_id));
    // An item removed before its fetch completes is never announced.
    let plan2 = host.handle_new_item(true, "com.example.Other").unwrap();
    let removed = host.handle_removed_item("com.example.Other").unwrap();
    assert_eq!(removed, plan2.local_id);
    assert!(!host.announce(plan2.local_id));
    assert_eq!(host.items.len(), 1);
    // Removing an unknown identifier does nothing.
    assert!(host.handle_removed_item("com.example.Absent").is_none());
}

#[test]
fn change_signals_map_to_their_refetches() {
    let (props, which) = refetch_plan("NewIcon").unwrap();
    assert_eq!(props, vec!["IconPixmap".to_string(), "IconName".to_string()]);
    assert_eq!(which, MutableProperty::Icon);
    let (props2, which2) = refetch_plan("NewStatus").unwrap();
    assert_eq!(props2, vec!["Status".to_string()]);
    assert_eq!(which2, MutableProperty::Status);
    assert!(refetch_plan("NewMood").is_none());
}

#[test]
fn an_appearing_watcher_is_greeted_then_read() {
    // The host starts with no watcher on the bus; the watcher name then
    // gains the owner ":1.42".
    let mut client = Client::new();
    let host = HostState::new(1);
    let r = host.watcher_appeared(&mut client, "org.freedesktop.StatusNotifierWatcher", 40);
    assert!(r.is_some());
    assert_eq!(client.outgoing.len(), 2);
    let register = &client.outgoing[0];
    assert_eq!(
        register.header.member.as_deref(),
        Some("RegisterStatusNotifierHost")
    );
    assert_eq!(
        register.body,
        Body::Str("org.freedesktop.StatusNotifierHost-0000000000000001".to_string())
    );
    let get = &client.outgoing[1];
    assert_eq!(get.header.member.as_deref(), Some("Get"));
    assert_eq!(
        get.body,
        Body::StrPair(
            "org.freedesktop.StatusNotifierWatcher".to_string(),
            "RegisteredStatusNotifierItems".to_string()
        )
    );
    // Another name appearing concerns the host not at all.
    let none = host.watcher_appeared(&mut client, "org.example.Other", 41);
    assert!(none.is_none());
    assert_eq!(client.outgoing.len(), 2);
}

#[test]
fn icon_frames_reject_malformed_pixmaps() {
    let frames = IconFrames::from_pixmaps(vec![
        IconPixmap { width: 2, height: 2, bytes: vec![0; 16] },
        IconPixmap { width: 0, height: 2, bytes: vec![0; 16] },
        IconPixmap { width: 2, height: -1, bytes: vec![0; 16] },
        IconPixmap { width: 2, height: 2, bytes: vec![0; 15] },
        IconPixmap { width: 1, height: 1, bytes: vec![0; 4] },
    ]);
    assert_eq!(frames.frames.len(), 2);
    assert_eq!(frames.frames[0].size, (2, 2));
    assert_eq!(frames.frames[1].size, (1, 1));
}
