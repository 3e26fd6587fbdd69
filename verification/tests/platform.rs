use plist::{Dictionary, Value};
use plume_utils::platform::DeveloperPlatform;

#[test]
fn default_is_ios() {
    assert_eq!(DeveloperPlatform::default(), DeveloperPlatform::Ios);
}

#[test]
fn ios_request_fields_are_empty() {
    assert!(DeveloperPlatform::Ios.request_fields().is_empty());
}

#[test]
fn tvos_request_fields_are_exact() {
    assert_eq!(
        DeveloperPlatform::Tvos.request_fields(),
        &[("DTDK_Platform", "tvos"), ("subPlatform", "tvOS")]
    );
}

#[test]
fn ios_apply_to_leaves_dictionary_unchanged() {
    let mut body = Dictionary::new();
    body.insert("teamId".to_string(), Value::String("T123".to_string()));
    body.insert("appIdId".to_string(), Value::String("A456".to_string()));
    let original = body.clone();

    DeveloperPlatform::Ios.apply_to(&mut body);

    assert_eq!(body, original);
    assert_eq!(body.keys().count(), 2);
}

#[test]
fn tvos_apply_to_adds_exactly_the_two_platform_fields() {
    let mut body = Dictionary::new();
    body.insert("teamId".to_string(), Value::String("T123".to_string()));
    body.insert("appIdId".to_string(), Value::String("A456".to_string()));

    DeveloperPlatform::Tvos.apply_to(&mut body);

    assert_eq!(body.keys().count(), 4);
    assert_eq!(body.get("teamId").and_then(Value::as_string), Some("T123"));
    assert_eq!(body.get("appIdId").and_then(Value::as_string), Some("A456"));
    assert_eq!(
        body.get("DTDK_Platform").and_then(Value::as_string),
        Some("tvos")
    );
    assert_eq!(
        body.get("subPlatform").and_then(Value::as_string),
        Some("tvOS")
    );
}

#[test]
fn tvos_apply_to_replaces_a_field_that_is_already_there() {
    let mut body = Dictionary::new();
    body.insert("subPlatform".to_string(), Value::String("iOS".to_string()));

    DeveloperPlatform::Tvos.apply_to(&mut body);

    assert_eq!(body.keys().count(), 2);
    assert_eq!(
        body.get("subPlatform").and_then(Value::as_string),
        Some("tvOS")
    );
}

#[test]
fn metadata_classifies_tvos_without_trusting_network_identifiers() {
    assert_eq!(
        DeveloperPlatform::from_device_metadata(Some("AppleTV14,1"), Some("AppleTV"), false),
        DeveloperPlatform::Tvos
    );
    assert_eq!(
        DeveloperPlatform::from_device_metadata(None, None, true),
        DeveloperPlatform::Tvos
    );
    assert_eq!(
        DeveloperPlatform::from_device_metadata(Some("iPhone15,2"), Some("iPhone"), false),
        DeveloperPlatform::Ios
    );
}

#[test]
fn device_class_is_compared_without_case_and_product_type_with_it() {
    assert_eq!(
        DeveloperPlatform::from_device_metadata(None, Some("appletv"), false),
        DeveloperPlatform::Tvos
    );
    assert_eq!(
        DeveloperPlatform::from_device_metadata(Some("appletv14,1"), None, false),
        DeveloperPlatform::Ios
    );
}

#[test]
fn profile_platform_matching_is_case_insensitive() {
    assert!(DeveloperPlatform::Tvos.matches_profile_platform("tvOS"));
    assert!(!DeveloperPlatform::Tvos.matches_profile_platform("iOS"));
    assert!(DeveloperPlatform::Ios.matches_profile_platform("iPhoneOS"));
}

#[test]
fn no_profile_platform_means_both_platforms() {
    for name in ["ios", "IOS", "iphoneos", "tvos", "TVOS", "macos", ""] {
        assert!(
            !(DeveloperPlatform::Ios.matches_profile_platform(name)
                && DeveloperPlatform::Tvos.matches_profile_platform(name))
        );
    }
}

#[test]
fn platforms_and_profile_names_are_written_out() {
    assert_eq!(DeveloperPlatform::Ios.label(), "iOS");
    assert_eq!(DeveloperPlatform::Tvos.label(), "tvOS");
    assert_eq!(DeveloperPlatform::Ios.profile_platforms(), &["ios", "iphoneos"]);
    assert_eq!(DeveloperPlatform::Tvos.profile_platforms(), &["tvos"]);
}

#[test]
fn applying_a_platform_twice_is_applying_it_once() {
    let mut once = Dictionary::new();
    once.insert("teamId".to_string(), Value::String("T123".to_string()));
    DeveloperPlatform::Tvos.apply_to(&mut once);
    let mut twice = once.clone();
    DeveloperPlatform::Tvos.apply_to(&mut twice);
    assert_eq!(once, twice);
}
