use tray_bridge::menu::{
    decode_label, merge_props_tree, merge_tree, parse_tree, ItemsUpdateOutcome, LayoutNode,
    MenuProperties, MenuSession, PropDiff, SniMenuToggleType,
};
use tray_bridge::client::Client;
use tray_bridge::menu::issue_layout_query;
use tray_bridge::msg::{Body, PropValue};

fn node(id: i32, props: Vec<(&str, PropValue)>, children: Vec<LayoutNode>) -> LayoutNode {
    LayoutNode {
        menu_id: id,
        properties: props
            .into_iter()
            .map(|(k, v)| (k.to_string(), v))
            .collect(),
        children,
    }
}

fn diff(entries: Vec<(&str, Option<PropValue>)>) -> PropDiff {
    entries
        .into_iter()
        .map(|(k, v)| (k.to_string(), v))
        .collect()
}

#[test]
fn label_mnemonics_decode() {
    let (label, key) = decode_label("Save _As...", None);
    assert_eq!(label, "Save As...");
    assert_eq!(key, Some('A'));
    let (label2, key2) = decode_label("C__PP", None);
    assert_eq!(label2, "C_PP");
    assert_eq!(key2, None);
}

#[test]
fn property_defaults_and_decoding() {
    let tree = parse_tree(&node(
        0,
        vec![
            ("type", PropValue::Str("separator".to_string())),
            ("toggle-type", PropValue::Str("checkmark".to_string())),
            ("toggle-state", PropValue::I32(1)),
            ("children-display", PropValue::Str("submenu".to_string())),
            ("label", PropValue::Str("_File".to_string())),
        ],
        vec![],
    ));
    let p = &tree.properties;
    assert!(p.separator);
    assert_eq!(p.toggle_type, Some(SniMenuToggleType::Checkmark));
    assert!(p.toggle_state);
    assert!(p.children_display);
    assert_eq!(p.label, "File");
    assert_eq!(p.access_key, Some('F'));
    // Absent keys imply the documented defaults.
    let bare = parse_tree(&node(1, vec![], vec![]));
    assert!(bare.properties.enabled);
    assert!(bare.properties.visible);
    assert!(!bare.properties.separator);
    assert_eq!(bare.properties.label, "");
    // A type mismatch falls back to the default.
    let odd = parse_tree(&node(2, vec![("enabled", PropValue::Str("yes".to_string()))], vec![]));
    assert!(odd.properties.enabled);
}

#[test]
fn duplicate_child_ids_are_ignored_on_second_occurrence() {
    let tree = parse_tree(&node(
        0,
        vec![],
        vec![
            node(1, vec![("label", PropValue::Str("first".to_string()))], vec![]),
            node(1, vec![("label", PropValue::Str("second".to_string()))], vec![]),
            node(2, vec![], vec![]),
        ],
    ));
    assert_eq!(tree.children.len(), 2);
    assert_eq!(tree.children[0].menu_id, 1);
    assert_eq!(tree.children[0].properties.label, "first");
    assert_eq!(tree.children[1].menu_id, 2);
}

#[test]
fn merging_the_same_layout_twice_reports_no_change() {
    let old = parse_tree(&node(0, vec![], vec![node(1, vec![], vec![])]));
    let new = parse_tree(&node(
        0,
        vec![],
        vec![
            node(1, vec![("label", PropValue::Str("One".to_string()))], vec![]),
            node(2, vec![], vec![]),
        ],
    ));
    let again = parse_tree(&node(
        0,
        vec![],
        vec![
            node(1, vec![("label", PropValue::Str("One".to_string()))], vec![]),
            node(2, vec![], vec![]),
        ],
    ));
    let (t1, d1) = merge_tree(old, new);
    assert!(d1.is_some());
    let d1 = d1.unwrap();
    let entries = d1.children.expect("children changed");
    assert_eq!(entries.len(), 2);
    assert_eq!(entries[0].0, 1);
    assert!(entries[0].1.is_some(), "changed child carries a delta");
    assert!(entries[1].1.is_some(), "new child carries its full subtree");
    let (t2, d2) = merge_tree(t1, again);
    assert!(d2.is_none(), "the second application is a no-change");
    assert_eq!(t2.children.len(), 2);
}

#[test]
fn removed_children_disappear_from_tree_and_delta() {
    let old = parse_tree(&node(
        0,
        vec![],
        vec![node(1, vec![], vec![]), node(2, vec![], vec![])],
    ));
    let new = parse_tree(&node(0, vec![], vec![node(2, vec![], vec![])]));
    let (t, d) = merge_tree(old, new);
    assert_eq!(t.children.len(), 1);
    assert_eq!(t.children[0].menu_id, 2);
    let entries = d.unwrap().children.unwrap();
    // Absence from the children map means removal; the kept child is
    // present without a delta.
    assert_eq!(entries.len(), 1);
    assert_eq!(entries[0], (2, None));
}

#[test]
fn property_diffs_merge_and_reset() {
    let tree = parse_tree(&node(
        0,
        vec![],
        vec![node(7, vec![("label", PropValue::Str("Old".to_string()))], vec![])],
    ));
    let ds = vec![(7, diff(vec![("label", Some(PropValue::Str("New".to_string())))]))];
    let (t, d) = merge_props_tree(tree, &ds);
    assert_eq!(t.children[0].properties.label, "New");
    assert!(d.is_some());
    // Applying the same diff again changes nothing.
    let (t2, d2) = merge_props_tree(t, &ds);
    assert!(d2.is_none());
    // A reset restores the default.
    let reset = vec![(7, diff(vec![("label", None)]))];
    let (t3, d3) = merge_props_tree(t2, &reset);
    assert_eq!(t3.children[0].properties.label, "");
    assert!(d3.is_some());
}

#[test]
fn overlapping_refresh_discards_the_diff() {
    let layout = node(0, vec![], vec![node(7, vec![], vec![])]);
    let (mut session, initial) = MenuSession::open(1, &layout);
    assert_eq!(initial.menu_id, 0);
    // A newer revision issues a tracked layout query.
    let q = session.on_layout_updated(2, 0).expect("query issued");
    assert_eq!(q.parent_id, 0);
    assert_eq!(session.inflight.len(), 1);
    // A property diff arriving before the reply is ambiguous: it is
    // discarded and a full refresh of parent 0 is scheduled instead.
    let changed = vec![(7, diff(vec![("label", Some(PropValue::Str("X".to_string())))]))];
    let outcome = session.on_items_properties_updated(&changed, &vec![]);
    let q2 = match outcome {
        ItemsUpdateOutcome::Refresh(q2) => q2,
        other => panic!("expected a refresh, got {:?}", other),
    };
    assert_eq!(q2.parent_id, 0);
    assert_eq!(session.inflight.len(), 2);
    assert_eq!(session.tree.children[0].properties.label, "");
    // The first reply resolves; one query stays in flight.
    let r1 = session.on_layout_reply(q.query_id, Some(&layout));
    assert!(r1.is_none());
    assert_eq!(session.inflight.len(), 1);
    // The second reply reconciles the full tree and emits one delta.
    let fresh = node(
        0,
        vec![],
        vec![node(7, vec![("label", PropValue::Str("X".to_string()))], vec![])],
    );
    let r2 = session.on_layout_reply(q2.query_id, Some(&fresh));
    assert!(r2.is_some());
    assert!(session.inflight.is_empty());
    assert_eq!(session.tree.children[0].properties.label, "X");
}

#[test]
fn stale_revision_is_ignored() {
    let layout = node(0, vec![], vec![]);
    let (mut session, _) = MenuSession::open(5, &layout);
    assert!(session.on_layout_updated(5, 0).is_none());
    assert!(session.on_layout_updated(4, 0).is_none());
    assert!(session.inflight.is_empty());
}

#[test]
fn direct_merge_when_nothing_is_in_flight() {
    let layout = node(0, vec![], vec![node(7, vec![], vec![])]);
    let (mut session, _) = MenuSession::open(1, &layout);
    let changed = vec![(7, diff(vec![("label", Some(PropValue::Str("X".to_string())))]))];
    match session.on_items_properties_updated(&changed, &vec![]) {
        ItemsUpdateOutcome::Applied(Some(_)) => {}
        other => panic!("expected a direct merge, got {:?}", other),
    }
    assert_eq!(session.tree.children[0].properties.label, "X");
}

#[test]
fn removed_keys_shadow_changed_values() {
    let layout = node(
        0,
        vec![],
        vec![node(7, vec![("label", PropValue::Str("Old".to_string()))], vec![])],
    );
    let (mut session, _) = MenuSession::open(1, &layout);
    let changed = vec![(7, diff(vec![("label", Some(PropValue::Str("New".to_string())))]))];
    let removed = vec![(7, vec!["label".to_string()])];
    match session.on_items_properties_updated(&changed, &removed) {
        ItemsUpdateOutcome::Applied(d) => assert!(d.is_some()),
        other => panic!("expected a direct merge, got {:?}", other),
    }
    assert_eq!(session.tree.children[0].properties.label, "");
}

#[test]
fn fresh_sessions_reconcile_identically() {
    let layout = node(0, vec![], vec![node(3, vec![], vec![])]);
    let fresh = node(
        0,
        vec![],
        vec![node(3, vec![("enabled", PropValue::Bool(false))], vec![])],
    );
    let (mut s1, _) = MenuSession::open(1, &layout);
    let (mut s2, _) = MenuSession::open(1, &layout);
    for s in [&mut s1, &mut s2] {
        let q = s.on_layout_updated(2, 0).unwrap();
        let _ = s.on_layout_reply(q.query_id, Some(&fresh));
    }
    assert_eq!(s1.tree, s2.tree);
    assert_eq!(s1.revision, s2.revision);
}

#[test]
fn layout_queries_go_out_as_get_layout_calls() {
    let mut client = Client::new();
    let dest = "com.example.App".to_string();
    let path = "/MenuBar".to_string();
    let (_h, act) = issue_layout_query(&mut client, &dest, &path, 0, 50);
    assert!(act.is_none());
    let m = client.outgoing.last().unwrap();
    assert_eq!(m.header.destination.as_deref(), Some("com.example.App"));
    assert_eq!(m.header.interface.as_deref(), Some("com.canonical.dbusmenu"));
    assert_eq!(m.header.member.as_deref(), Some("GetLayout"));
    assert_eq!(m.body, Body::GetLayoutArgs(0, -1, vec![]));
}

#[test]
fn defaults_constructor_matches_documented_values() {
    let d = MenuProperties::defaults();
    assert!(d.enabled && d.visible);
    assert!(!d.separator && !d.toggle_state && !d.children_display);
    assert_eq!(d.label, "");
    assert_eq!(d.icon_name, "");
    assert!(d.icon_png.is_empty());
    assert_eq!(d.toggle_type, None);
    assert_eq!(d.access_key, None);
}
