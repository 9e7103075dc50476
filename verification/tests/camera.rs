use dusklapse::camera::model::Vendor;
use dusklapse::camera::vendors;

/// The registry is what the UI is built from, so a vendor missing here is a vendor the app
/// cannot offer at all.
#[test]
fn every_vendor_appears_exactly_once() {
    let profiles = vendors();
    assert_eq!(profiles.len(), Vendor::ALL.len());

    for vendor in Vendor::ALL {
        let matching: Vec<_> = profiles.iter().filter(|p| p.vendor == vendor).collect();
        assert_eq!(matching.len(), 1, "{vendor:?} appears {} times", matching.len());
    }
}

/// A profile is what the connect screen renders, so nothing in it may be blank.
#[test]
fn profiles_are_filled_in() {
    for profile in vendors() {
        assert!(!profile.label.is_empty(), "{:?} has no label", profile.vendor);
        assert!(!profile.summary.is_empty(), "{:?} has no summary", profile.vendor);
        if profile.needs_address {
            assert!(profile.default_port > 0, "{:?} needs a port", profile.vendor);
        }
    }
}

#[test]
fn only_the_simulator_is_kept_from_ordinary_users() {
    for profile in vendors() {
        assert_eq!(profile.developer_only, profile.vendor == Vendor::Mock);
        assert!(profile.implemented);
    }
}
