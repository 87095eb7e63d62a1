use xenolith::features::Features;
use xenolith::DOMImplementation;

#[test]
fn unversioned_registration_matches_any_version() {
    let mut imp = DOMImplementation::new();
    imp.set_feature("xml", None, true);
    assert!(imp.has_feature("XML", None));
    assert!(imp.has_feature("xml", Some("2.0")));
    assert!(imp.has_feature("xml", Some("5.0")));
    assert!(!imp.has_feature("svg", Some("1.0")));
}

#[test]
fn versioned_registration_matches_that_version() {
    let mut f = Features::new();
    f.set_feature("Core", Some("3.0"), true);
    assert!(f.has_feature("core", Some("3.0")));
    assert!(f.has_feature("CORE", Some("3.0")));
    assert!(!f.has_feature("core", Some("2.0")));
    assert!(!f.has_feature("core", None));
    assert!(f.has_lowered_feature("core", Some("3.0")));
    assert!(!f.has_lowered_feature("CORE", Some("3.0")));
}

#[test]
fn empty_version_is_unspecified() {
    let mut f = Features::new();
    f.set_feature("ls", Some(""), true);
    assert!(f.has_feature("LS", None));
    assert!(f.has_feature("ls", Some("")));
    assert!(f.has_feature("ls", Some("3.0")));
}

#[test]
fn withdrawing_a_feature() {
    let mut f = Features::new();
    f.set_feature("xml", None, true);
    f.set_feature("xml", Some("1.0"), true);
    f.set_feature("XML", None, false);
    assert!(!f.has_feature("xml", None));
    assert!(f.has_feature("xml", Some("1.0")));
    assert!(!f.has_feature("xml", Some("2.0")));
}
