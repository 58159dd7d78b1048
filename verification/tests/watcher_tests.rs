use tray_bridge::watcher::{WatcherEffect, WatcherState};

#[test]
fn kde_slash_path_resolves_against_the_sender() {
    let mut w = WatcherState::new();
    let sender = ":1.7".to_string();
    let effects = w.register_item(false, "/StatusNotifierItem", Some(&sender));
    assert_eq!(w.kde.items.len(), 1);
    assert_eq!(w.kde.items[0], ":1.7/StatusNotifierItem");
    assert_eq!(effects.len(), 2);
    match &effects[0] {
        WatcherEffect::ItemsProperty(false, items) => {
            assert_eq!(items, &vec![":1.7/StatusNotifierItem".to_string()]);
        }
        other => panic!("unexpected effect {:?}", other),
    }
    match &effects[1] {
        WatcherEffect::ItemRegistered(false, item) => {
            assert_eq!(item, ":1.7/StatusNotifierItem");
        }
        other => panic!("unexpected effect {:?}", other),
    }
}

#[test]
fn kde_bare_name_gets_the_default_path() {
    let mut w = WatcherState::new();
    let sender = ":1.9".to_string();
    let effects = w.register_item(false, "org.example.App", Some(&sender));
    assert_eq!(w.kde.items[0], "org.example.App/StatusNotifierItem");
    assert_eq!(effects.len(), 2);
}

#[test]
fn kde_slash_path_without_a_sender_is_dropped() {
    let mut w = WatcherState::new();
    let effects = w.register_item(false, "/StatusNotifierItem", None);
    assert!(effects.is_empty());
    assert!(w.kde.items.is_empty());
}

#[test]
fn freedesktop_item_is_taken_verbatim() {
    let mut w = WatcherState::new();
    let effects = w.register_item(true, "com.example.App", None);
    assert_eq!(w.fdo.items[0], "com.example.App");
    assert_eq!(effects.len(), 2);
    // Registering the same item again announces nothing.
    let effects2 = w.register_item(true, "com.example.App", None);
    assert!(effects2.is_empty());
    assert_eq!(w.fdo.items.len(), 1);
}

#[test]
fn first_host_flips_the_property() {
    let mut w = WatcherState::new();
    let e1 = w.register_host(true, "org.freedesktop.StatusNotifierHost-1");
    assert_eq!(e1.len(), 2);
    assert!(matches!(e1[0], WatcherEffect::HostRegistered(true)));
    assert!(matches!(e1[1], WatcherEffect::HostProperty(true, true)));
    let e2 = w.register_host(true, "org.freedesktop.StatusNotifierHost-2");
    assert_eq!(e2.len(), 1);
    assert!(matches!(e2[0], WatcherEffect::HostRegistered(true)));
    // A duplicate host registers nothing.
    let e3 = w.register_host(true, "org.freedesktop.StatusNotifierHost-1");
    assert!(e3.is_empty());
}

#[test]
fn departure_unregisters_owned_items() {
    let mut w = WatcherState::new();
    let sender = ":1.7".to_string();
    let _ = w.register_item(false, "/StatusNotifierItem", Some(&sender));
    let _ = w.register_item(false, "/Other", Some(&sender));
    let other = ":1.8".to_string();
    let _ = w.register_item(false, "/StatusNotifierItem", Some(&other));
    let _ = w.register_item(true, ":1.7", None);
    let effects = w.name_owner_changed(":1.7", "");
    // The freedesktop variant removes by equality, the KDE variant by
    // prefix, each with its unregistration signals in order.
    assert_eq!(w.fdo.items.len(), 0);
    assert_eq!(w.kde.items, vec![":1.8/StatusNotifierItem".to_string()]);
    let unregistered: Vec<(bool, String)> = effects
        .iter()
        .filter_map(|e| match e {
            WatcherEffect::ItemUnregistered(fdo, item) => Some((*fdo, item.clone())),
            _ => None,
        })
        .collect();
    assert_eq!(
        unregistered,
        vec![
            (true, ":1.7".to_string()),
            (false, ":1.7/StatusNotifierItem".to_string()),
            (false, ":1.7/Other".to_string()),
        ]
    );
}

#[test]
fn a_new_owner_changes_nothing() {
    let mut w = WatcherState::new();
    let _ = w.register_item(true, "com.example.App", None);
    let effects = w.name_owner_changed("com.example.App", ":1.30");
    assert!(effects.is_empty());
    assert_eq!(w.fdo.items.len(), 1);
}

#[test]
fn lost_watcher_names_are_rerequested() {
    let mut w = WatcherState::new();
    let effects = w.name_owner_changed("org.freedesktop.StatusNotifierWatcher", "");
    assert_eq!(effects.len(), 1);
    assert!(matches!(effects[0], WatcherEffect::RequestWatcherName(true)));
    let effects2 = w.name_owner_changed("org.kde.StatusNotifierWatcher", "");
    assert_eq!(effects2.len(), 1);
    assert!(matches!(effects2[0], WatcherEffect::RequestWatcherName(false)));
}

#[test]
fn last_host_departure_clears_the_property() {
    let mut w = WatcherState::new();
    let _ = w.register_host(true, ":1.5");
    let _ = w.register_host(true, ":1.6");
    let e1 = w.name_owner_changed(":1.5", "");
    assert!(e1.is_empty(), "a host remains, the property stands");
    let e2 = w.name_owner_changed(":1.6", "");
    assert_eq!(e2.len(), 1);
    assert!(matches!(e2[0], WatcherEffect::HostProperty(true, false)));
    assert!(w.fdo.hosts.is_empty());
}
