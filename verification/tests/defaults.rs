use colcon_scan::package::{default_build_type, default_export};

#[test]
fn default_build_type_is_the_legacy_one() {
    assert_eq!(default_build_type(), "ros.catkin");
}

#[test]
fn default_export_carries_the_default_build_type() {
    assert_eq!(default_export().build_type, "ros.catkin");
}
