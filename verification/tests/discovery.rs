use std::collections::{HashMap, HashSet};
use std::path::PathBuf;

use plume_utils::device::Device;
use plume_utils::device_id::synthetic_device_id;
use plume_utils::discovery::mdns::{MdnsDiscovery, MdnsScan, ScanRound, MAX_POLL_NANOS};
use plume_utils::discovery::{
    build_device, dedup_key, disconnected_after_missed_scans, ends_with_ignore_case,
    enrich_and_filter, first_non_empty, group_network_devices, is_metadata_service,
    parse_instance_name, short_hostname, ConnectionType, DeviceType, DiscoveredDevice,
    PlatformDiscovery, ALL_SCANNED_SERVICE_TYPES, APPLE_MOBDEV2_SERVICE, APPLE_PAIRABLE_SERVICE,
    COMPANION_LINK_SERVICE, REMOTEPAIRING_MANUAL_PAIRING_SERVICE, REMOTEPAIRING_SERVICE,
    SERVICE_TYPES,
};
use plume_utils::net::{AdvertisedAddress, IpAddr};
use plume_utils::string_map::StringMap;

fn props(pairs: &[(&str, &str)]) -> StringMap<String> {
    let mut map = StringMap::new();
    for (k, v) in pairs {
        map.insert(k.to_string(), v.to_string());
    }
    map
}

fn ipv4(text: &str) -> IpAddr {
    let mut bits: u32 = 0;
    for part in text.split('.') {
        bits = bits * 256 + part.parse::<u32>().unwrap();
    }
    IpAddr::V4(bits)
}

fn ipv4_address(text: &str) -> AdvertisedAddress {
    AdvertisedAddress {
        ip: ipv4(text),
        text: text.to_string(),
    }
}

#[test]
fn test_device_type_from_class() {
    assert_eq!(
        DeviceType::from_device_class("AppleTV"),
        DeviceType::AppleTV
    );
    assert_eq!(DeviceType::from_device_class("iPhone"), DeviceType::IPhone);
}

#[test]
fn test_device_type_from_product() {
    assert_eq!(
        DeviceType::from_product_type("AppleTV11,1"),
        DeviceType::AppleTV
    );
    assert_eq!(
        DeviceType::from_product_type("iPhone15,2"),
        DeviceType::IPhone
    );
}

#[test]
fn device_types_of_every_kind() {
    assert_eq!(DeviceType::from_device_class("iPad"), DeviceType::IPad);
    assert_eq!(DeviceType::from_device_class("Mac"), DeviceType::AppleMac);
    assert_eq!(DeviceType::from_device_class("appletv"), DeviceType::Unknown);
    assert_eq!(DeviceType::from_product_type("iPad13,1"), DeviceType::IPad);
    assert_eq!(
        DeviceType::from_product_type("MacBookPro18,1"),
        DeviceType::AppleMac
    );
    assert_eq!(DeviceType::from_product_type("Watch6,1"), DeviceType::Unknown);
    assert_eq!(DeviceType::from_product_type(""), DeviceType::Unknown);
}

#[test]
fn kinds_are_written_out() {
    assert_eq!(DeviceType::IPhone.label(), "iPhone");
    assert_eq!(DeviceType::IPad.label(), "iPad");
    assert_eq!(DeviceType::AppleTV.label(), "Apple TV");
    assert_eq!(DeviceType::AppleMac.label(), "Mac");
    assert_eq!(DeviceType::Unknown.label(), "Unknown");
    assert_eq!(ConnectionType::USB.label(), "USB");
    assert_eq!(ConnectionType::WiFi.label(), "WiFi");
}

#[test]
fn instance_name_strips_service_suffix() {
    assert_eq!(
        parse_instance_name(
            "Living Room._remotepairing-manual-pairing._tcp.local",
            REMOTEPAIRING_MANUAL_PAIRING_SERVICE
        ),
        "Living Room"
    );
}

#[test]
fn instance_name_handles_trailing_dot_on_both_sides() {
    assert_eq!(
        parse_instance_name("Apple TV._remotepairing._tcp.local.", REMOTEPAIRING_SERVICE),
        "Apple TV"
    );
    assert_eq!(
        parse_instance_name(
            "Apple TV._remotepairing._tcp.local",
            "_remotepairing._tcp.local"
        ),
        "Apple TV"
    );
}

#[test]
fn instance_name_keeps_literal_non_ascii() {
    let full = "Frankie\u{2019}s MacBook Pro._companion-link._tcp.local";
    assert_eq!(
        parse_instance_name(full, "_companion-link._tcp.local."),
        "Frankie\u{2019}s MacBook Pro"
    );
}

#[test]
fn instance_name_left_alone_when_suffix_absent() {
    assert_eq!(
        parse_instance_name("Living Room._other._tcp.local", REMOTEPAIRING_SERVICE),
        "Living Room._other._tcp.local"
    );
}

#[test]
fn instance_name_does_not_split_a_multibyte_character() {
    let name = "\u{2019}".to_string() + &"X".repeat(24);
    assert_eq!(parse_instance_name(&name, REMOTEPAIRING_SERVICE), name);

    for pad in 0..8 {
        let name = "A".repeat(pad) + "\u{2019}\u{2019}\u{2019}";
        assert_eq!(parse_instance_name(&name, "_x._tcp.local"), name);
    }
}

#[test]
fn instance_name_without_label_or_dot_stays() {
    assert_eq!(
        parse_instance_name("_remotepairing._tcp.local.", REMOTEPAIRING_SERVICE),
        "_remotepairing._tcp.local"
    );
    assert_eq!(
        parse_instance_name("._remotepairing._tcp.local.", REMOTEPAIRING_SERVICE),
        "._remotepairing._tcp.local"
    );
    assert_eq!(
        parse_instance_name("TV_remotepairing._tcp.local", REMOTEPAIRING_SERVICE),
        "TV_remotepairing._tcp.local"
    );
    assert_eq!(parse_instance_name("TV.", "..."), "TV");
}

#[test]
fn suffix_match_is_case_insensitive() {
    assert!(ends_with_ignore_case(
        "Living Room._TCP.LOCAL",
        "_tcp.local"
    ));
    assert!(ends_with_ignore_case("abc", "ABC"));
    assert!(!ends_with_ignore_case("abc", "abd"));
    assert!(!ends_with_ignore_case("ab", "abc"));
    assert_eq!(
        parse_instance_name(
            "Living Room._RemotePairing._TCP.local",
            REMOTEPAIRING_SERVICE
        ),
        "Living Room"
    );
}

#[test]
fn short_hostname_strips_local_suffix_without_case_sensitivity() {
    assert_eq!(short_hostname("Apple-TV.LOCAL."), "Apple-TV");
    assert_eq!(short_hostname("Apple-TV.example"), "Apple-TV.example");
}

#[test]
fn short_hostname_of_the_suffix_alone_is_empty() {
    assert_eq!(short_hostname(".local."), "");
    assert_eq!(short_hostname(""), "");
    assert_eq!(short_hostname("local"), "local");
}

#[test]
fn first_non_empty_skips_present_but_empty_values() {
    let p = props(&[("ProductType", ""), ("model", "AppleTV14,1")]);
    assert_eq!(
        first_non_empty(&p, &["ProductType", "model"]),
        Some("AppleTV14,1")
    );
    assert_eq!(first_non_empty(&p, &["ProductType"]), None);
    assert_eq!(first_non_empty(&p, &["absent"]), None);
}

#[test]
fn real_apple_tv_txt_maps_to_apple_tv() {
    let manual = props(&[("model", "AppleTV14,1")]);
    let d = build_device(
        "Living Room",
        "Living-Room.local.",
        REMOTEPAIRING_MANUAL_PAIRING_SERVICE,
        Some(49153),
        &[],
        &manual,
    );
    assert_eq!(d.device_type, DeviceType::AppleTV);
    assert_eq!(d.product_type.as_deref(), Some("AppleTV14,1"));

    let companion = props(&[("rpMd", "AppleTV14,1"), ("udid", "deadbeef")]);
    let d = build_device(
        "Living Room",
        "Living-Room.local.",
        REMOTEPAIRING_SERVICE,
        Some(49152),
        &[],
        &companion,
    );
    assert_eq!(d.device_type, DeviceType::AppleTV);
    assert_eq!(d.product_type.as_deref(), Some("AppleTV14,1"));
    assert_eq!(d.udid, None);
}

#[test]
fn mapping_prefers_device_class() {
    let p = props(&[
        ("DeviceClass", "AppleTV"),
        ("ProductType", "AppleTV11,1"),
        ("UniqueDeviceID", "abc123"),
        ("OSVersion", "17.4"),
        ("name", "Ignored"),
    ]);
    let d = build_device(
        "Living Room",
        "Living-Room.local.",
        REMOTEPAIRING_SERVICE,
        Some(49152),
        &[ipv4_address("10.0.0.5")],
        &p,
    );
    assert_eq!(d.device_type, DeviceType::AppleTV);
    assert_eq!(d.product_type.as_deref(), Some("AppleTV11,1"));
    assert_eq!(d.os_version.as_deref(), Some("17.4"));
    assert_eq!(d.udid, None);
    assert_eq!(d.ip_address.as_deref(), Some("10.0.0.5"));
    assert_eq!(d.port, Some(49152));
    assert_eq!(d.connection_type, ConnectionType::WiFi);
    assert!(!d.is_paired);
    assert_eq!(d.service_type, REMOTEPAIRING_SERVICE);
}

#[test]
fn mapping_prefers_ipv4_over_unscoped_link_local_ipv6() {
    let link_local = AdvertisedAddress {
        ip: IpAddr::V6(0xfe80_0000_0000_0000_1020_429f_01e8_d85d),
        text: "fe80::1020:429f:1e8:d85d".to_string(),
    };
    let d = build_device(
        "TV",
        "TV.local.",
        REMOTEPAIRING_MANUAL_PAIRING_SERVICE,
        Some(63295),
        &[link_local, ipv4_address("192.168.2.150")],
        &props(&[("model", "AppleTV14,1")]),
    );

    assert_eq!(d.ip_address.as_deref(), Some("192.168.2.150"));
}

#[test]
fn mapping_takes_the_first_address_where_none_is_ipv4() {
    let addresses = [
        AdvertisedAddress {
            ip: IpAddr::V6(1),
            text: "::1".to_string(),
        },
        AdvertisedAddress {
            ip: IpAddr::V6(2),
            text: "::2".to_string(),
        },
    ];
    let d = build_device("TV", "TV.local.", REMOTEPAIRING_SERVICE, None, &addresses, &props(&[]));
    assert_eq!(d.ip_address.as_deref(), Some("::1"));
    assert_eq!(d.port, None);
}

#[test]
fn mapping_name_prefers_hostname_over_txt_and_instance() {
    let d = build_device(
        "A827F07B-2D1D-4D09-8E1E-5E37EE47A96C",
        "Living-Room.local.",
        REMOTEPAIRING_SERVICE,
        Some(1),
        &[],
        &props(&[("name", "Some Other Name")]),
    );
    assert_eq!(d.name, "Living Room");
}

#[test]
fn mapping_name_falls_back_when_hostname_missing() {
    let d = build_device(
        "instance-label",
        "",
        REMOTEPAIRING_SERVICE,
        Some(1),
        &[],
        &props(&[("name", "Txt Name")]),
    );
    assert_eq!(d.name, "Txt Name");

    let d = build_device(
        "instance-label",
        "",
        REMOTEPAIRING_SERVICE,
        Some(1),
        &[],
        &props(&[]),
    );
    assert_eq!(d.name, "instance-label");
}

#[test]
fn same_device_yields_identical_name_across_service_types() {
    let manual = build_device(
        "Living Room",
        "Living-Room.local.",
        REMOTEPAIRING_MANUAL_PAIRING_SERVICE,
        Some(62782),
        &[],
        &props(&[("name", "Living Room"), ("model", "AppleTV14,1")]),
    );
    let reconnect = build_device(
        "A827F07B-2D1D-4D09-8E1E-5E37EE47A96C",
        "Living-Room.local.",
        REMOTEPAIRING_SERVICE,
        Some(49152),
        &[],
        &props(&[("identifier", "73B8BE56-3881-4145-BF61-EFB7BBAEC98F")]),
    );

    assert_eq!(manual.name, "Living Room");
    assert_eq!(manual.name, reconnect.name);
    assert_ne!(manual.service_type, reconnect.service_type);
    assert_eq!(manual.port, Some(62782));
    assert_eq!(reconnect.port, Some(49152));
}

#[test]
fn mapping_marks_mobdev2_as_paired() {
    let d = build_device("x", "", APPLE_MOBDEV2_SERVICE, Some(62078), &[], &props(&[]));
    assert!(d.is_paired);
    assert_eq!(d.device_type, DeviceType::Unknown);
    assert_eq!(d.product_type, None);
}

#[test]
fn mapping_does_not_trust_advertised_udid() {
    let p = props(&[("udid", "second"), ("identifier", "third")]);
    assert_eq!(
        build_device("x", "", REMOTEPAIRING_SERVICE, Some(1), &[], &p).udid,
        None
    );
    let p = props(&[("identifier", "third")]);
    assert_eq!(
        build_device("x", "", REMOTEPAIRING_SERVICE, Some(1), &[], &p).udid,
        None
    );
}

#[test]
fn dedup_key_normalizes_case_and_falls_back_to_instance() {
    assert_eq!(
        dedup_key("Living-Room.local.", "Living Room", REMOTEPAIRING_SERVICE),
        dedup_key("living-room.local", "Living Room", REMOTEPAIRING_SERVICE)
    );
    assert_eq!(
        dedup_key("", "Living Room", REMOTEPAIRING_SERVICE),
        ("living room".to_string(), REMOTEPAIRING_SERVICE.to_string())
    );
}

#[test]
fn same_device_under_two_service_types_is_not_collapsed() {
    let p = props(&[("model", "AppleTV14,1")]);
    let mut devices: HashMap<(String, String), DiscoveredDevice> = HashMap::new();

    for (service, port) in [
        (REMOTEPAIRING_SERVICE, 49152u16),
        (REMOTEPAIRING_MANUAL_PAIRING_SERVICE, 49153u16),
    ] {
        let device = build_device(
            "Living Room",
            "Living-Room.local.",
            service,
            Some(port),
            &[],
            &p,
        );
        devices.insert(
            dedup_key("Living-Room.local.", "Living Room", service),
            device,
        );
    }

    assert_eq!(devices.len(), 2);
    let mut ports: Vec<u16> = devices.values().filter_map(|d| d.port).collect();
    ports.sort_unstable();
    assert_eq!(ports, vec![49152, 49153]);
    assert!(devices.values().all(|d| d.name == "Living Room"));
}

fn unknown_device(name: &str, service_type: &str, port: u16) -> DiscoveredDevice {
    DiscoveredDevice {
        name: name.to_string(),
        hostname: String::new(),
        udid: None,
        ip_address: None,
        port: Some(port),
        device_type: DeviceType::Unknown,
        connection_type: ConnectionType::WiFi,
        is_paired: false,
        product_type: None,
        os_version: None,
        service_type: service_type.to_string(),
    }
}

fn companion_link_device(name: &str, product_type: &str) -> DiscoveredDevice {
    DiscoveredDevice {
        name: name.to_string(),
        hostname: String::new(),
        udid: None,
        ip_address: None,
        port: Some(49155),
        device_type: DeviceType::from_product_type(product_type),
        connection_type: ConnectionType::WiFi,
        is_paired: false,
        product_type: Some(product_type.to_string()),
        os_version: None,
        service_type: COMPANION_LINK_SERVICE.to_string(),
    }
}

#[test]
fn enrich_and_filter_fills_model_from_companion_link() {
    let remotepairing = unknown_device("Living Room", REMOTEPAIRING_SERVICE, 49152);
    let companion = companion_link_device("Living Room", "AppleTV14,1");

    let result = enrich_and_filter(vec![remotepairing, companion]);

    assert_eq!(result.len(), 1);
    assert_eq!(result[0].service_type, REMOTEPAIRING_SERVICE);
    assert_eq!(result[0].port, Some(49152));
    assert_eq!(result[0].device_type, DeviceType::AppleTV);
    assert_eq!(result[0].product_type.as_deref(), Some("AppleTV14,1"));
}

#[test]
fn enriching_twice_is_enriching_once() {
    let remotepairing = unknown_device("Living Room", REMOTEPAIRING_SERVICE, 49152);
    let companion = companion_link_device("Living Room", "AppleTV14,1");
    let once = enrich_and_filter(vec![remotepairing, companion]);
    let twice = enrich_and_filter(once.clone());
    assert_eq!(twice.len(), 1);
    assert_eq!(format!("{twice:?}"), format!("{once:?}"));
}

#[test]
fn instance_names_are_found_before_services_in_any_case() {
    for full in [
        "Living Room._REMOTEPAIRING._tcp.local.",
        "Living Room._RemotePairing._TCP.Local",
    ] {
        assert_eq!(parse_instance_name(full, REMOTEPAIRING_SERVICE), "Living Room");
    }
}

#[test]
fn enrich_and_filter_name_correlation_is_case_insensitive() {
    let remotepairing = unknown_device("Living Room", REMOTEPAIRING_SERVICE, 49152);
    let companion = companion_link_device("living room", "AppleTV14,1");

    let result = enrich_and_filter(vec![remotepairing, companion]);

    assert_eq!(result.len(), 1);
    assert_eq!(result[0].device_type, DeviceType::AppleTV);
    assert_eq!(result[0].product_type.as_deref(), Some("AppleTV14,1"));
}

#[test]
fn enrich_and_filter_does_not_overwrite_known_device_type() {
    let mut manual = unknown_device("Living Room", REMOTEPAIRING_MANUAL_PAIRING_SERVICE, 49153);
    manual.device_type = DeviceType::AppleTV;
    let mut companion = companion_link_device("Living Room", "iPhone15,2");
    companion.device_type = DeviceType::IPhone;

    let result = enrich_and_filter(vec![manual, companion]);

    assert_eq!(result.len(), 1);
    assert_eq!(result[0].device_type, DeviceType::AppleTV);
    assert_eq!(result[0].product_type, None);
}

#[test]
fn enrich_and_filter_prefers_a_typed_metadata_entry_regardless_of_order() {
    for reversed in [false, true] {
        let target = unknown_device("Living Room", REMOTEPAIRING_SERVICE, 49152);
        let untyped = companion_link_device("Living Room", "");
        let mut untyped = untyped;
        untyped.device_type = DeviceType::Unknown;
        untyped.product_type = None;
        let typed = companion_link_device("Living Room", "AppleTV14,1");

        let input = if reversed {
            vec![target, typed, untyped]
        } else {
            vec![target, untyped, typed]
        };
        let result = enrich_and_filter(input);

        assert_eq!(result.len(), 1);
        assert_eq!(
            result[0].device_type,
            DeviceType::AppleTV,
            "reversed={reversed}"
        );
        assert_eq!(
            result[0].product_type.as_deref(),
            Some("AppleTV14,1"),
            "reversed={reversed}"
        );
    }
}

#[test]
fn enrich_and_filter_does_not_overwrite_known_product_type() {
    let mut remotepairing = unknown_device("Living Room", REMOTEPAIRING_SERVICE, 49152);
    remotepairing.product_type = Some("x".to_string());
    let companion = companion_link_device("Living Room", "AppleTV14,1");

    let result = enrich_and_filter(vec![remotepairing, companion]);

    assert_eq!(result.len(), 1);
    assert_eq!(result[0].product_type.as_deref(), Some("x"));
}

#[test]
fn enrich_and_filter_drops_unmatched_metadata_entries() {
    let companion = companion_link_device("Living Room", "AppleTV14,1");

    let result = enrich_and_filter(vec![companion]);

    assert!(result.is_empty());
}

#[test]
fn enrich_and_filter_does_not_cross_contaminate_hosts() {
    let bedroom = unknown_device("Bedroom", REMOTEPAIRING_SERVICE, 49152);
    let living_room_companion = companion_link_device("Living Room", "AppleTV14,1");

    let result = enrich_and_filter(vec![bedroom, living_room_companion]);

    assert_eq!(result.len(), 1);
    assert_eq!(result[0].name, "Bedroom");
    assert_eq!(result[0].device_type, DeviceType::Unknown);
    assert_eq!(result[0].product_type, None);
}

#[test]
fn enrich_and_filter_preserves_order_of_non_metadata_entries() {
    let bedroom = unknown_device("Bedroom", REMOTEPAIRING_SERVICE, 1);
    let companion = companion_link_device("Living Room", "AppleTV14,1");
    let living_room = unknown_device("Living Room", REMOTEPAIRING_SERVICE, 2);
    let kitchen = unknown_device("Kitchen", REMOTEPAIRING_SERVICE, 3);

    let result = enrich_and_filter(vec![bedroom, companion, living_room, kitchen]);

    assert_eq!(
        result.iter().map(|d| d.name.as_str()).collect::<Vec<_>>(),
        vec!["Bedroom", "Living Room", "Kitchen"]
    );
}

#[test]
fn enrich_and_filter_goes_by_the_first_typed_and_the_last_untyped_description() {
    let mut first = companion_link_device("TV", "AppleTV14,1");
    first.os_version = Some("17.0".to_string());
    let second = companion_link_device("TV", "AppleTV11,1");
    let result = enrich_and_filter(vec![
        unknown_device("TV", REMOTEPAIRING_SERVICE, 1),
        first,
        second,
    ]);
    assert_eq!(result[0].product_type.as_deref(), Some("AppleTV14,1"));
    assert_eq!(result[0].os_version.as_deref(), Some("17.0"));

    let mut early = companion_link_device("TV", "Watch1,1");
    early.os_version = Some("1".to_string());
    let mut late = companion_link_device("TV", "Watch2,2");
    late.os_version = Some("2".to_string());
    let result = enrich_and_filter(vec![
        early,
        late,
        unknown_device("TV", REMOTEPAIRING_SERVICE, 1),
    ]);
    assert_eq!(result[0].product_type.as_deref(), Some("Watch2,2"));
    assert_eq!(result[0].os_version.as_deref(), Some("2"));
    assert_eq!(result[0].device_type, DeviceType::Unknown);
}

#[test]
fn only_companion_link_describes_only() {
    assert!(is_metadata_service(COMPANION_LINK_SERVICE));
    for service in SERVICE_TYPES {
        assert!(!is_metadata_service(service));
    }
}

fn network_apple_tv(name: &str, service_type: &str, port: u16, ip: &str) -> DiscoveredDevice {
    DiscoveredDevice {
        name: name.to_string(),
        hostname: name.replace(' ', "-").to_ascii_lowercase(),
        udid: None,
        ip_address: Some(ip.to_string()),
        port: Some(port),
        device_type: DeviceType::AppleTV,
        connection_type: ConnectionType::WiFi,
        is_paired: false,
        product_type: Some("AppleTV14,1".to_string()),
        os_version: None,
        service_type: service_type.to_string(),
    }
}

fn group(discovered: &[DiscoveredDevice]) -> Vec<Device> {
    let resolved: Vec<Option<IpAddr>> = discovered
        .iter()
        .map(|d| d.ip_address.as_deref().map(ipv4))
        .collect();
    group_network_devices(discovered, &resolved, &PathBuf::from("/cache"))
}

#[test]
fn group_network_devices_only_manual_sets_pairing_port_only() {
    let discovered = [network_apple_tv(
        "Living Room",
        REMOTEPAIRING_MANUAL_PAIRING_SERVICE,
        49153,
        "10.0.0.5",
    )];

    let devices = group(&discovered);

    assert_eq!(devices.len(), 1);
    assert_eq!(
        devices[0].pairing_address,
        Some((ipv4("10.0.0.5"), 49153))
    );
    assert_eq!(devices[0].reconnect_address, None);
}

#[test]
fn group_network_devices_only_reconnect_sets_reconnect_port_only() {
    let discovered = [network_apple_tv(
        "Living Room",
        REMOTEPAIRING_SERVICE,
        49152,
        "10.0.0.5",
    )];

    let devices = group(&discovered);

    assert_eq!(devices.len(), 1);
    assert_eq!(
        devices[0].reconnect_address,
        Some((ipv4("10.0.0.5"), 49152))
    );
    assert_eq!(devices[0].pairing_address, None);
}

#[test]
fn group_network_devices_merges_both_service_types_into_one_device() {
    let discovered = [
        network_apple_tv(
            "Living Room",
            REMOTEPAIRING_MANUAL_PAIRING_SERVICE,
            49153,
            "10.0.0.5",
        ),
        network_apple_tv("living room", REMOTEPAIRING_SERVICE, 49152, "10.0.0.5"),
    ];

    let devices = group(&discovered);

    assert_eq!(devices.len(), 1);
    assert_eq!(devices[0].pairing_address.map(|(_, p)| p), Some(49153));
    assert_eq!(devices[0].reconnect_address.map(|(_, p)| p), Some(49152));
}

#[test]
fn group_network_devices_deduplicates_legacy_core_device_with_remote_pairing() {
    let discovered = [
        network_apple_tv("Living Room", REMOTEPAIRING_SERVICE, 49152, "10.0.0.5"),
        network_apple_tv("Living Room", APPLE_MOBDEV2_SERVICE, 62078, "10.0.0.5"),
    ];

    let devices = group(&discovered);

    assert_eq!(devices.len(), 1);
    assert_eq!(devices[0].reconnect_address.unwrap().1, 49152);
    assert_eq!(devices[0].pairing_identity.as_deref(), Some("living-room"));
}

#[test]
fn group_network_devices_retains_legacy_core_device_until_authenticated_data_arrives() {
    let discovered = [network_apple_tv(
        "Living Room",
        APPLE_MOBDEV2_SERVICE,
        62078,
        "10.0.0.5",
    )];

    let devices = group(&discovered);

    assert_eq!(devices.len(), 1);
    assert!(devices[0].pairing_address.is_none());
    assert!(devices[0].reconnect_address.is_none());
    assert!(devices[0].udid.is_empty());
}

#[test]
fn group_network_devices_keeps_same_named_hosts_separate() {
    let mut first = network_apple_tv("Living Room", REMOTEPAIRING_SERVICE, 49152, "10.0.0.5");
    let mut second = network_apple_tv("Living Room", REMOTEPAIRING_SERVICE, 49152, "10.0.0.6");
    first.hostname = "living-room-a".to_string();
    second.hostname = "living-room-b".to_string();

    let devices = group(&[first, second]);

    assert_eq!(devices.len(), 2);
    assert_ne!(devices[0].pairing_identity, devices[1].pairing_identity);
}

#[test]
fn disappearing_mdns_service_requires_two_missed_scans() {
    let mut present = [7u32].into_iter().collect::<HashSet<_>>();
    let empty = HashSet::new();
    let mut misses = HashMap::new();

    assert!(disconnected_after_missed_scans(&mut present, &empty, &mut misses, 2).is_empty());
    assert_eq!(
        disconnected_after_missed_scans(&mut present, &empty, &mut misses, 2),
        vec![7]
    );
    assert!(present.is_empty());
    assert!(misses.is_empty());
}

#[test]
fn rediscovered_mdns_service_clears_missed_scan_count() {
    let mut present = [7u32].into_iter().collect::<HashSet<_>>();
    let empty = HashSet::new();
    let current = [7u32].into_iter().collect::<HashSet<_>>();
    let mut misses = HashMap::new();

    assert!(disconnected_after_missed_scans(&mut present, &empty, &mut misses, 2).is_empty());
    assert!(disconnected_after_missed_scans(&mut present, &current, &mut misses, 2).is_empty());
    assert!(present.contains(&7));
}

#[test]
fn zero_required_misses_count_as_one() {
    let mut present = [1u32, 2, 3].into_iter().collect::<HashSet<_>>();
    let current = [2u32].into_iter().collect::<HashSet<_>>();
    let mut misses = [(9u32, 4u32)].into_iter().collect::<HashMap<_, _>>();

    let mut gone = disconnected_after_missed_scans(&mut present, &current, &mut misses, 0);
    gone.sort_unstable();

    assert_eq!(gone, vec![1, 3]);
    assert_eq!(present, current);
    assert_eq!(misses.get(&9), Some(&4));
    assert_eq!(misses.len(), 1);
}

#[test]
fn group_network_devices_excludes_non_appletv() {
    let mut d = network_apple_tv("Some iPhone", REMOTEPAIRING_SERVICE, 1, "10.0.0.5");
    d.device_type = DeviceType::IPhone;

    let devices = group(&[d]);

    assert!(devices.is_empty());
}

#[test]
fn group_network_devices_excludes_unsupported_service() {
    let d = network_apple_tv("Living Room", APPLE_PAIRABLE_SERVICE, 62078, "10.0.0.5");

    let devices = group(&[d]);

    assert!(devices.is_empty());
}

#[test]
fn group_network_devices_keeps_two_different_apple_tvs_separate() {
    let discovered = [
        network_apple_tv("Living Room", REMOTEPAIRING_SERVICE, 1, "10.0.0.5"),
        network_apple_tv("Bedroom", REMOTEPAIRING_SERVICE, 2, "10.0.0.6"),
    ];

    let devices = group(&discovered);

    assert_eq!(devices.len(), 2);
    let mut names: Vec<&str> = devices.iter().map(|d| d.name.as_str()).collect();
    names.sort();
    assert_eq!(names, vec!["Bedroom", "Living Room"]);
}

#[test]
fn group_network_devices_skips_empty_name() {
    let d = network_apple_tv("", REMOTEPAIRING_SERVICE, 1, "10.0.0.5");

    let devices = group(&[d]);

    assert!(devices.is_empty());
}

#[test]
fn group_network_devices_skips_unresolved_ip() {
    let mut d = network_apple_tv("Living Room", REMOTEPAIRING_SERVICE, 1, "10.0.0.5");
    d.ip_address = None;

    let devices = group(&[d]);

    assert!(devices.is_empty());
}

#[test]
fn group_network_devices_sets_synthetic_device_id_and_pairing_identity() {
    let d = network_apple_tv("Living Room", REMOTEPAIRING_SERVICE, 1, "10.0.0.5");

    let devices = group(&[d]);

    assert_eq!(devices.len(), 1);
    assert_eq!(devices[0].pairing_identity.as_deref(), Some("living-room"));
    assert_eq!(devices[0].device_id, synthetic_device_id("living-room"));
    assert_ne!(devices[0].device_id, 0);
}

#[test]
fn group_network_devices_keeps_first_resolved_address_when_entries_share_a_name() {
    let discovered = [
        network_apple_tv(
            "Living Room",
            REMOTEPAIRING_MANUAL_PAIRING_SERVICE,
            49153,
            "10.0.0.5",
        ),
        network_apple_tv("Living Room", REMOTEPAIRING_SERVICE, 49152, "10.0.0.9"),
    ];

    let devices = group(&discovered);

    assert_eq!(devices.len(), 1);
    assert_eq!(devices[0].pairing_address.unwrap().0, ipv4("10.0.0.5"));
    assert_eq!(devices[0].reconnect_address.unwrap().0, ipv4("10.0.0.5"));
}

#[test]
fn group_network_devices_takes_the_last_port_and_the_first_readable_address() {
    let mut nameless_host = network_apple_tv("Den TV", REMOTEPAIRING_SERVICE, 1, "10.0.0.5");
    nameless_host.hostname = String::new();
    let mut again = nameless_host.clone();
    again.port = Some(2);
    let resolved = [None, Some(ipv4("10.0.0.6"))];

    let devices = group_network_devices(
        &[nameless_host.clone(), again],
        &resolved,
        &PathBuf::from("/cache"),
    );

    assert_eq!(devices.len(), 1);
    assert_eq!(devices[0].reconnect_address, Some((ipv4("10.0.0.6"), 2)));
    assert_eq!(devices[0].pairing_identity.as_deref(), Some("Den-TV"));
    assert_eq!(devices[0].device_class.as_deref(), Some("AppleTV"));
    assert_eq!(devices[0].pairing_cache_dir, Some(PathBuf::from("/cache")));

    let none = group_network_devices(&[nameless_host], &[], &PathBuf::from("/cache"));
    assert!(none.is_empty());
}

#[test]
fn a_scan_browses_for_every_service() {
    let wanted: Vec<String> = ALL_SCANNED_SERVICE_TYPES
        .iter()
        .map(|s| s.to_string())
        .collect();
    assert_eq!(MdnsDiscovery::new().service_types(), &wanted);
    assert_eq!(MdnsDiscovery::default().service_types(), &wanted);
    let _ = PlatformDiscovery::new();
}

#[test]
fn a_round_waits_no_longer_than_what_is_left() {
    let long = ScanRound::begin(0, 0, 1_000_000_000).unwrap();
    assert_eq!(long.remaining, 1_000_000_000);
    assert_eq!(long.poll, MAX_POLL_NANOS);
    assert!(!long.ends_scan());

    let short = ScanRound::begin(0, 999_999_000, 1_000_000_000).unwrap();
    assert_eq!(short.poll, 1_000);
    assert!(short.ends_scan());
    let mut answered = short;
    answered.note_event();
    assert!(!answered.ends_scan());

    let late = ScanRound::begin(9, 12, 10).unwrap();
    assert_eq!(late.poll, 0);
    assert!(late.ends_scan());
    assert_eq!(ScanRound::begin(10, 10, 10), None);
}

#[test]
fn a_scan_keeps_one_answer_for_each_host_and_service() {
    let mut scan = MdnsScan::new();
    scan.resolved(
        "TV._remotepairing._tcp.local.",
        "TV.local.",
        REMOTEPAIRING_SERVICE,
        Some(1),
        &[],
        &props(&[]),
    );
    scan.resolved(
        "TV._remotepairing-manual-pairing._tcp.local.",
        "TV.local.",
        REMOTEPAIRING_MANUAL_PAIRING_SERVICE,
        Some(2),
        &[],
        &props(&[]),
    );
    scan.resolved(
        "other._remotepairing._tcp.local.",
        "tv.LOCAL",
        REMOTEPAIRING_SERVICE,
        Some(3),
        &[],
        &props(&[]),
    );
    scan.resolved(
        "TV._companion-link._tcp.local.",
        "TV.local.",
        COMPANION_LINK_SERVICE,
        Some(4),
        &[],
        &props(&[("rpMd", "AppleTV14,1")]),
    );
    let found = scan.finish();
    assert_eq!(
        found.iter().map(|d| d.port).collect::<Vec<_>>(),
        vec![Some(3), Some(2)]
    );
    assert!(found.iter().all(|d| d.device_type == DeviceType::AppleTV));
}
