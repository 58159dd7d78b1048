use tray_bridge::icon::{Variant, VariantType};
use tray_bridge::names::{
    check_bus_name, check_interface_name, check_member_name, check_object_path,
    check_well_known_name,
};
use tray_bridge::scale::{Logical, Physical, Scale};

#[test]
fn bus_name_grammar() {
    assert!(check_bus_name("org.freedesktop.DBus"));
    assert!(check_bus_name(":1.42"));
    assert!(check_bus_name("com.example-dashed.App"));
    assert!(!check_bus_name("singleword"));
    assert!(!check_bus_name(""));
    assert!(!check_bus_name("org..double"));
    assert!(!check_bus_name(".leading.dot"));
    assert!(!check_bus_name("trailing.dot."));
    assert!(!check_bus_name("3starts.with.digit"));
    assert!(!check_bus_name("has space.example"));
    assert!(!check_bus_name(":"));
}

#[test]
fn well_known_name_grammar() {
    assert!(check_well_known_name("org.kde.StatusNotifierWatcher"));
    assert!(!check_well_known_name(":1.42"), "a unique name is not well-known");
}

#[test]
fn interface_and_member_grammar() {
    assert!(check_interface_name("org.freedesktop.DBus.Properties"));
    assert!(!check_interface_name("org.with-dash.Bad"), "interfaces take no hyphen");
    assert!(check_member_name("RegisterStatusNotifierItem"));
    assert!(check_member_name("_private"));
    assert!(!check_member_name("1digit"));
    assert!(!check_member_name(""));
    assert!(!check_member_name("has.dot"));
}

#[test]
fn object_path_grammar() {
    assert!(check_object_path("/"));
    assert!(check_object_path("/StatusNotifierWatcher"));
    assert!(check_object_path("/a/b_c/d0"));
    assert!(!check_object_path(""));
    assert!(!check_object_path("relative"));
    assert!(!check_object_path("/trailing/"));
    assert!(!check_object_path("//double"));
    assert!(!check_object_path("/bad-dash"));
}

#[test]
fn fractional_scales_round() {
    assert_eq!(Scale(120).round_up(), 1);
    assert_eq!(Scale(121).round_up(), 2);
    assert_eq!(Scale(240).round_up(), 2);
    assert_eq!(Scale(0).round_up(), 0);
}

#[test]
fn logical_sizes_scale_to_physical_pixels() {
    assert_eq!(Logical(100, 50).to_physical(Scale(120)).size(), (100, 50));
    assert_eq!(Logical(100, 50).to_physical(Scale(180)).size(), (150, 75));
    // Rounding is to nearest.
    assert_eq!(Logical(1, 1).to_physical(Scale(180)).size(), (2, 2));
    assert_eq!(Physical(7, 9).size(), (7, 9));
}

#[test]
fn variant_size_matching() {
    let threshold = Variant {
        size: 22,
        scale: 1,
        ty: VariantType::Threshold,
        max_size: 22,
        min_size: 22,
        threshold: 2,
    };
    assert!(threshold.permits_size(22, 1));
    assert!(threshold.permits_size(20, 1));
    assert!(threshold.permits_size(24, 1));
    assert!(!threshold.permits_size(25, 1));
    assert!(!threshold.permits_size(22, 2), "a scale mismatch never fits");
    // Below the served range the shortfall counts from the minimum size.
    assert_eq!(threshold.distance(18, 1), 4);
    // Above it the distance goes by the squared request, as the lookup
    // has always computed it.
    assert_eq!(threshold.distance(22, 1), 484 - 22);

    let fixed = Variant {
        size: 32,
        scale: 1,
        ty: VariantType::Fixed,
        max_size: 32,
        min_size: 32,
        threshold: 2,
    };
    assert!(fixed.permits_size(32, 1));
    assert!(!fixed.permits_size(33, 1));
    assert_eq!(fixed.distance(30, 1), 2);
    assert_eq!(fixed.distance(34, 1), 2);

    let scalable = Variant {
        size: 48,
        scale: 1,
        ty: VariantType::Scalable,
        max_size: 256,
        min_size: 16,
        threshold: 2,
    };
    assert!(scalable.permits_size(16, 1));
    assert!(scalable.permits_size(256, 1));
    assert!(!scalable.permits_size(15, 1));
    assert_eq!(scalable.distance(8, 1), 8);
    assert_eq!(scalable.distance(300, 1), 44);
    assert_eq!(scalable.distance(100, 1), 0);
}
