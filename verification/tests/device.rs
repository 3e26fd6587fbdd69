use std::path::PathBuf;

use plume_utils::dedup::{dedup_key_for_device, deduplicate_devices, device_quality};
use plume_utils::device::{
    get_device_for_id, Connection, Device, DeviceTransport, TvosDeviceInfo, UsbmuxdDevice,
};
use plume_utils::error::Error;
use plume_utils::net::IpAddr;
use plume_utils::string_map::StringMap;
use plume_utils::transport::{CoreDeviceTransport, ServiceRoute};
use plume_utils::udid::is_valid_device_udid;

const LOCALHOST: IpAddr = IpAddr::V4(0x7f00_0001);

fn message(error: Error) -> String {
    match error {
        Error::Other(text) => text,
        error => panic!("{error:?}"),
    }
}

fn string(text: &str) -> plist::Value {
    plist::Value::String(text.to_string())
}

fn real_rsd_properties() -> StringMap<plist::Value> {
    let mut props = StringMap::new();
    props.insert("UniqueDeviceID".to_string(), string("00008110-001E60481AD9401E"));
    props.insert("ProductType".to_string(), string("AppleTV14,1"));
    props.insert("DeviceClass".to_string(), string("AppleTV"));
    props.insert("OSVersion".to_string(), string("26.5"));
    props.insert("HumanReadableProductVersionString".to_string(), string("26.5"));
    props.insert("SerialNumber".to_string(), string("C6FCY44V73"));
    props.insert("HWModel".to_string(), string("J255AP"));
    props.insert("ProductName".to_string(), string("Apple TVOS"));
    props.insert("BuildVersion".to_string(), string("23L471"));
    props
}

#[test]
fn from_rsd_properties_reads_real_device_fields() {
    let info = TvosDeviceInfo::from_rsd_properties(&real_rsd_properties());
    assert_eq!(info.udid.as_deref(), Some("00008110-001E60481AD9401E"));
    assert_eq!(info.product_type.as_deref(), Some("AppleTV14,1"));
    assert_eq!(info.device_class.as_deref(), Some("AppleTV"));
    assert_eq!(info.os_version.as_deref(), Some("26.5"));
    assert_eq!(info.serial_number.as_deref(), Some("C6FCY44V73"));
}

#[test]
fn from_rsd_properties_empty_map_yields_default() {
    let info = TvosDeviceInfo::from_rsd_properties(&StringMap::new());
    assert_eq!(info, TvosDeviceInfo::default());
}

#[test]
fn from_rsd_properties_non_string_value_yields_none() {
    let mut props = StringMap::new();
    props.insert(
        "UniqueDeviceID".to_string(),
        plist::Value::Integer(12345.into()),
    );

    let info = TvosDeviceInfo::from_rsd_properties(&props);
    assert_eq!(info.udid, None);
}

#[test]
fn from_rsd_properties_falls_back_to_human_readable_version() {
    let mut props = StringMap::new();
    props.insert(
        "HumanReadableProductVersionString".to_string(),
        string("17.1"),
    );

    let info = TvosDeviceInfo::from_rsd_properties(&props);
    assert_eq!(info.os_version.as_deref(), Some("17.1"));
}

#[test]
fn from_rsd_properties_prefers_os_version_over_human_readable_when_both_present() {
    let mut props = StringMap::new();
    props.insert("OSVersion".to_string(), string("26.5"));
    props.insert(
        "HumanReadableProductVersionString".to_string(),
        string("26.5 (23L471)"),
    );

    let info = TvosDeviceInfo::from_rsd_properties(&props);
    assert_eq!(info.os_version.as_deref(), Some("26.5"));
}

#[test]
fn from_rsd_properties_prefers_device_name_over_name() {
    let mut props = StringMap::new();
    props.insert("Name".to_string(), string("fallback"));
    assert_eq!(
        TvosDeviceInfo::from_rsd_properties(&props).name.as_deref(),
        Some("fallback")
    );
    props.insert("DeviceName".to_string(), string("Den"));
    assert_eq!(
        TvosDeviceInfo::from_rsd_properties(&props).name.as_deref(),
        Some("Den")
    );
}

#[test]
fn new_tvos_leaves_udid_empty_and_sets_pairing_identity() {
    let d = Device::new_tvos(
        "Apple TV".to_string(),
        "Apple-TV".to_string(),
        LOCALHOST,
        Some(1234),
        None,
        PathBuf::from("/tmp"),
    );
    assert!(d.udid.is_empty());
    assert_eq!(d.pairing_identity.as_deref(), Some("Apple-TV"));
}

#[test]
fn new_tvos_stores_pairing_cache_dir() {
    let cache_dir = PathBuf::from("/tmp").join("plume_test_new_tvos_cache_dir");
    let d = Device::new_tvos(
        "Apple TV".to_string(),
        "Apple-TV".to_string(),
        LOCALHOST,
        Some(1234),
        None,
        cache_dir.clone(),
    );
    assert_eq!(d.pairing_cache_dir, Some(cache_dir));
}

fn stub_device() -> Device {
    Device {
        name: "Test Device".to_string(),
        udid: "00008110-000C25540CD1801E".to_string(),
        product_type: None,
        device_class: None,
        os_version: None,
        serial_number: None,
        device_id: 0,
        usbmuxd_device: None,
        is_mac: false,
        pairing_address: None,
        reconnect_address: None,
        pairing_identity: None,
        pairing_cache_dir: None,
        core_device_authenticated: false,
    }
}

fn stub_tvos_device() -> Device {
    let mut d = stub_device();
    d.pairing_identity = Some("stable-key".to_string());
    d
}

fn usbmuxd_device(udid: &str, device_id: u32) -> UsbmuxdDevice {
    UsbmuxdDevice {
        connection_type: Connection::Usb,
        udid: udid.to_string(),
        device_id,
    }
}

#[test]
fn new_reads_what_the_lockdown_service_said() {
    let mut values = plist::Dictionary::new();
    values.insert("DeviceName".to_string(), string("Phone"));
    values.insert("ProductType".to_string(), string("iPhone15,2"));
    values.insert("DeviceClass".to_string(), string(""));
    values.insert("ProductVersion".to_string(), plist::Value::Integer(17.into()));
    let device = Device::new(
        usbmuxd_device("00008110-000C25540CD1801E", 7),
        Some(plist::Value::Dictionary(values)),
    );
    assert_eq!(device.name, "Phone");
    assert_eq!(device.udid, "00008110-000C25540CD1801E");
    assert_eq!(device.device_id, 7);
    assert_eq!(device.product_type.as_deref(), Some("iPhone15,2"));
    assert_eq!(device.device_class, None);
    assert_eq!(device.os_version, None);
    assert_eq!(device.serial_number, None);
    assert_eq!(device.transport(), DeviceTransport::Usbmuxd);

    let silent = Device::new(usbmuxd_device("x", 1), None);
    assert_eq!(silent.name, "");
    assert_eq!(silent.product_type, None);
    let odd = Device::new(usbmuxd_device("x", 1), Some(string("no dictionary")));
    assert_eq!(odd.name, "");
}

#[test]
fn apply_tvos_info_none_udid_leaves_existing_udid_unchanged() {
    let mut device = stub_tvos_device();
    let info = TvosDeviceInfo {
        udid: None,
        ..Default::default()
    };
    device.apply_tvos_info(&info);
    assert_eq!(device.udid, "00008110-000C25540CD1801E");
}

#[test]
fn apply_tvos_info_some_udid_overwrites_existing_udid() {
    let mut device = stub_tvos_device();
    let info = TvosDeviceInfo {
        udid: Some("00008110-000C25540CD1801F".to_string()),
        ..Default::default()
    };
    device.apply_tvos_info(&info);
    assert_eq!(device.udid, "00008110-000C25540CD1801F");
}

#[test]
fn apply_tvos_info_empty_udid_leaves_existing_udid_unchanged() {
    let mut device = stub_tvos_device();
    let info = TvosDeviceInfo {
        udid: Some(String::new()),
        ..Default::default()
    };
    device.apply_tvos_info(&info);
    assert_eq!(device.udid, "00008110-000C25540CD1801E");
}

#[test]
fn apply_tvos_info_no_op_when_device_has_no_pairing_identity() {
    let mut device = stub_device();
    let info = TvosDeviceInfo {
        udid: Some("00008110-000C25540CD1801F".to_string()),
        ..Default::default()
    };
    device.apply_tvos_info(&info);
    assert_eq!(device.udid, "00008110-000C25540CD1801E");
}

#[test]
fn apply_tvos_info_takes_over_everything_but_an_empty_name() {
    let mut device = stub_tvos_device();
    device.os_version = Some("17.0".to_string());
    device.apply_tvos_info(&TvosDeviceInfo {
        name: Some(String::new()),
        udid: Some("not an identifier".to_string()),
        product_type: Some("AppleTV14,1".to_string()),
        device_class: Some(String::new()),
        os_version: None,
        serial_number: Some("C6".to_string()),
    });
    assert_eq!(device.name, "Test Device");
    assert!(!device.core_device_authenticated);
    assert_eq!(device.product_type.as_deref(), Some("AppleTV14,1"));
    assert_eq!(device.device_class.as_deref(), Some(""));
    assert_eq!(device.os_version.as_deref(), Some("17.0"));
    assert_eq!(device.serial_number.as_deref(), Some("C6"));
}

#[test]
fn is_tvos_true_for_network_paired_device() {
    let device = stub_tvos_device();
    assert!(device.is_tvos());
}

#[test]
fn is_tvos_false_for_usb_device() {
    let device = stub_device();
    assert!(!device.is_tvos());
}

#[test]
fn new_tvos_device_reports_is_tvos() {
    let d = Device::new_tvos(
        "Apple TV".to_string(),
        "Apple-TV".to_string(),
        LOCALHOST,
        Some(1234),
        None,
        PathBuf::from("/tmp"),
    );
    assert!(d.is_tvos());
    assert_eq!(d.transport(), DeviceTransport::RemotePairing);
}

#[test]
fn authenticated_rsd_metadata_promotes_remote_pairing_to_core_device() {
    let mut device = Device::new_tvos(
        "Apple TV".to_string(),
        "Apple-TV".to_string(),
        LOCALHOST,
        Some(1234),
        Some(1235),
        PathBuf::from("/tmp"),
    );

    device.apply_tvos_info(&TvosDeviceInfo {
        udid: Some("00008110-000C25540CD1801E".to_string()),
        ..Default::default()
    });

    assert_eq!(device.transport(), DeviceTransport::CoreDevice);
    assert!(device.is_network());
}

#[test]
fn core_device_transport_exposes_authenticated_device_kind() {
    let mut device = Device::new_tvos(
        "Apple TV".to_string(),
        "Apple-TV".to_string(),
        LOCALHOST,
        Some(1234),
        Some(1235),
        PathBuf::from("/tmp"),
    );
    device.apply_tvos_info(&TvosDeviceInfo {
        udid: Some("00008110-000C25540CD1801E".to_string()),
        ..Default::default()
    });

    let transport = device.core_device_transport(PathBuf::from("/tmp")).unwrap();

    assert_eq!(transport.kind(), DeviceTransport::CoreDevice);
}

#[test]
fn core_device_transport_carries_the_device_over() {
    let mut device = stub_tvos_device();
    device.reconnect_address = Some((LOCALHOST, 49151));
    let transport = CoreDeviceTransport::new(&device, PathBuf::from("/cache")).unwrap();
    assert_eq!(transport.kind(), DeviceTransport::RemotePairing);
    assert_eq!(transport.reconnect_address, Some((LOCALHOST, 49151)));
    assert_eq!(transport.pairing_address, None);
    assert_eq!(transport.pairing_identity.as_deref(), Some("stable-key"));
    assert_eq!(transport.udid, "00008110-000C25540CD1801E");
    assert_eq!(transport.cache_dir, PathBuf::from("/cache"));

    device.reconnect_address = None;
    let transport = CoreDeviceTransport::new(&device, PathBuf::from("/cache")).unwrap();
    assert_eq!(transport.kind(), DeviceTransport::Unavailable);

    device.usbmuxd_device = Some(usbmuxd_device("x", 1));
    assert_eq!(
        message(device.core_device_transport(PathBuf::from("/cache")).unwrap_err()),
        "CoreDevice transport cannot wrap a usbmuxd device"
    );
}

#[test]
fn transport_identifies_usb_and_unavailable_devices() {
    let mut usb = stub_device();
    usb.usbmuxd_device = Some(UsbmuxdDevice {
        connection_type: Connection::Usb,
        udid: usb.udid.clone(),
        device_id: usb.device_id,
    });
    assert_eq!(usb.transport(), DeviceTransport::Usbmuxd);

    let mut unavailable = usb;
    unavailable.usbmuxd_device = None;
    assert_eq!(unavailable.transport(), DeviceTransport::Unavailable);
}

#[test]
fn pairing_cache_path_prefers_pairing_identity_over_udid() {
    let device = stub_tvos_device();
    let cache_dir = PathBuf::from("/cache");
    let path = device.pairing_cache_path(&cache_dir).unwrap();
    assert_eq!(
        path.directory.join(path.file_name),
        cache_dir.join("plume_stable-key.plist")
    );
}

#[test]
fn pairing_cache_path_falls_back_to_udid_when_no_pairing_identity() {
    let device = stub_device();
    let cache_dir = PathBuf::from("/cache");
    let path = device.pairing_cache_path(&cache_dir).unwrap();
    assert_eq!(
        path.directory.join(path.file_name),
        cache_dir.join("plume_00008110-000C25540CD1801E.plist")
    );
}

#[test]
fn pairing_cache_path_rejects_empty_key() {
    let mut device = stub_device();
    device.udid = String::new();
    let cache_dir = PathBuf::from("/cache");
    assert!(device.pairing_cache_path(&cache_dir).is_err());
}

#[test]
fn pairing_cache_path_rejects_dots_only_key() {
    let mut device = stub_device();
    device.pairing_identity = Some("..".to_string());
    let cache_dir = PathBuf::from("/cache");
    assert!(device.pairing_cache_path(&cache_dir).is_err());
}

#[test]
fn pairing_cache_path_rejects_key_with_path_separator() {
    let mut device = stub_device();
    device.pairing_identity = Some("../evil".to_string());
    let cache_dir = PathBuf::from("/cache");
    assert!(device.pairing_cache_path(&cache_dir).is_err());
}

#[test]
fn pairing_cache_path_names_the_key_it_rejects() {
    let cache_dir = PathBuf::from("/cache");
    let mut device = stub_device();
    for key in ["a/b", "a\\b", "a:b", "..."] {
        device.pairing_identity = Some(key.to_string());
        assert_eq!(
            message(device.pairing_cache_path(&cache_dir).unwrap_err()),
            format!("Pairing identity {key:?} is not a valid cache key")
        );
    }
    device.pairing_identity = Some(String::new());
    assert_eq!(
        message(device.pairing_cache_path(&cache_dir).unwrap_err()),
        "Device has neither a pairing identity nor a UDID; cannot locate its pairing file cache"
    );
    device.pairing_identity = Some(".a.".to_string());
    let path = device.pairing_cache_path(&cache_dir).unwrap();
    assert_eq!(path.file_name, "plume_.a..plist");
    assert_eq!(
        path.temporary_file_name(),
        PathBuf::from("plume_.a..plist")
            .with_extension("plist.tmp")
            .to_str()
            .unwrap()
    );
}

#[test]
fn cable_records_go_by_the_identifier() {
    let path = stub_tvos_device().rsd_pairing_path(PathBuf::from("/store"));
    assert_eq!(path.directory, PathBuf::from("/store"));
    assert_eq!(path.file_name, "plume_00008110-000C25540CD1801E.plist");
}

#[test]
fn is_network_follows_the_transport_install_app_picks() {
    let mut device = stub_device();
    assert!(
        !device.is_network(),
        "a device with no transport at all is not a network device"
    );

    device.reconnect_address = Some((LOCALHOST, 49151));
    assert!(device.is_network(), "a reconnect address makes it network");

    device.reconnect_address = None;
    device.pairing_address = Some((LOCALHOST, 49152));
    assert!(device.is_network(), "a pairing address makes it network");

    let mut mac = stub_device();
    mac.is_mac = true;
    assert!(
        !mac.is_network(),
        "the local Mac is not reached over a tunnel"
    );
    assert_eq!(mac.transport(), DeviceTransport::LocalMac);
}

fn refusal(route: Result<ServiceRoute<'_>, Error>) -> String {
    match route {
        Ok(_) => panic!("there is a route"),
        Err(error) => message(error),
    }
}

#[test]
fn install_app_with_no_transport_names_the_missing_transport() {
    let device = stub_device();

    let msg = refusal(device.install_route());

    assert!(
        msg.contains("no USB connection") && msg.contains("no network address"),
        "expected a message naming both missing transports, got: {msg}"
    );
}

#[test]
fn install_app_network_device_without_cache_dir_returns_distinct_error() {
    let mut device = stub_device();
    device.reconnect_address = Some((LOCALHOST, 49151));
    assert!(device.pairing_cache_dir.is_none());

    let msg = refusal(device.install_route());

    assert!(
        msg.contains("pairing_cache_dir"),
        "expected the missing-cache-dir error, got: {msg}"
    );
    assert!(!msg.contains("no USB connection"));
    assert!(!msg.contains("No pairing file is cached"));
}

#[test]
fn other_services_say_what_is_missing_too() {
    let mut device = stub_device();
    assert_eq!(
        refusal(device.service_route()),
        "Device has no installation transport"
    );
    device.pairing_address = Some((LOCALHOST, 1));
    assert_eq!(
        refusal(device.service_route()),
        "Network Apple TV has no pairing cache directory"
    );
    device.pairing_cache_dir = Some(PathBuf::from("/cache"));
    match device.service_route() {
        Ok(ServiceRoute::Network(transport)) => {
            assert_eq!(transport.kind(), DeviceTransport::RemotePairing);
            assert_eq!(transport.cache_dir, PathBuf::from("/cache"));
        }
        _ => panic!("a network route"),
    }
    assert_eq!(
        message(device.require_usbmuxd().unwrap_err()),
        "Device is not connected via USB"
    );
    device.usbmuxd_device = Some(usbmuxd_device("abc", 4));
    match device.install_route() {
        Ok(ServiceRoute::Usbmuxd(usbmuxd)) => assert_eq!(usbmuxd.udid, "abc"),
        _ => panic!("a usbmuxd route"),
    }
    assert_eq!(device.require_usbmuxd().unwrap().device_id, 4);
}

#[test]
fn deduplicates_authenticated_network_and_legacy_entries() {
    let cache_dir = PathBuf::from("/tmp");
    let mut legacy = Device::new_tvos(
        "Living Room".to_string(),
        "Living-Room".to_string(),
        IpAddr::V4(0xc000_020a),
        None,
        Some(49152),
        cache_dir.clone(),
    );
    legacy.udid = "00008110-000C25540CD1801E".to_string();
    legacy.product_type = Some("AppleTV14,1".to_string());
    let mut authenticated = legacy.clone();
    authenticated.reconnect_address = Some((IpAddr::V4(0xc000_020b), 49152));
    authenticated.os_version = Some("26.6".to_string());

    let devices = deduplicate_devices(vec![legacy, authenticated.clone()]);

    assert_eq!(devices.len(), 1);
    assert_eq!(
        devices[0].reconnect_address,
        authenticated.reconnect_address
    );
    assert_eq!(devices[0].os_version, authenticated.os_version);
}

#[test]
fn deduplicates_unenriched_network_advertisements_by_pairing_identity() {
    let cache_dir = PathBuf::from("/tmp");
    let first = Device::new_tvos(
        "Living Room".to_string(),
        "Living-Room".to_string(),
        IpAddr::V4(0xc000_020a),
        Some(49153),
        None,
        cache_dir.clone(),
    );
    let second = Device::new_tvos(
        "living room".to_string(),
        "living-room".to_string(),
        IpAddr::V4(0xc000_020b),
        None,
        Some(49152),
        cache_dir,
    );

    let devices = deduplicate_devices(vec![first, second]);

    assert_eq!(devices.len(), 1);
}

#[test]
fn duplicates_keep_the_place_of_the_first_and_the_best_entry() {
    let mut plain = stub_device();
    plain.name = "plain".to_string();
    let mut unkeyed = stub_device();
    unkeyed.udid = "x".to_string();
    unkeyed.name = "unkeyed".to_string();
    let mut better = stub_device();
    better.name = "better".to_string();
    better.udid = better.udid.to_ascii_lowercase();
    better.os_version = Some("1".to_string());
    let mut equal = better.clone();
    equal.name = "equal".to_string();

    let once = deduplicate_devices(vec![plain, unkeyed.clone(), better, unkeyed, equal]);
    let names: Vec<&str> = once.iter().map(|d| d.name.as_str()).collect();
    assert_eq!(names, vec!["better", "unkeyed", "unkeyed"]);

    let twice = deduplicate_devices(once.clone());
    assert_eq!(
        twice.iter().map(|d| d.name.as_str()).collect::<Vec<_>>(),
        names
    );
}

#[test]
fn keys_and_quality_of_devices() {
    let mut device = stub_device();
    assert_eq!(
        dedup_key_for_device(&device).as_deref(),
        Some("udid:00008110-000c25540cd1801e")
    );
    assert_eq!(device_quality(&device), 100);
    device.udid = String::new();
    device.pairing_identity = Some("Den-TV".to_string());
    assert_eq!(dedup_key_for_device(&device), None);
    assert_eq!(device_quality(&device), 0);
    device.pairing_address = Some((LOCALHOST, 1));
    device.reconnect_address = Some((LOCALHOST, 2));
    assert_eq!(dedup_key_for_device(&device).as_deref(), Some("pairing:den-tv"));
    assert_eq!(device_quality(&device), 45);
    device.product_type = Some(String::new());
    device.device_class = Some(String::new());
    device.os_version = Some(String::new());
    device.serial_number = Some(String::new());
    assert_eq!(device_quality(&device), 71);
    device.pairing_identity = Some(String::new());
    assert_eq!(dedup_key_for_device(&device), None);
    device.usbmuxd_device = Some(usbmuxd_device("x", 1));
    assert_eq!(device_quality(&device), 51);
}

#[test]
fn display_shows_connection_name_and_identifier() {
    let mut device = stub_device();
    assert_eq!(
        device.display_text(),
        "[LOCAL] Test Device [00008110\u{2026}801E]"
    );
    device.udid = "0123456789abcdef0123456789abcdef01234567".to_string();
    device.usbmuxd_device = Some(usbmuxd_device("x", 1));
    assert_eq!(
        device.display_text(),
        "[USB] Test Device [01234567\u{2026}4567]"
    );
    device.udid = "x".to_string();
    assert_eq!(device.display_text(), "[USB] Test Device");
    device.usbmuxd_device = Some(UsbmuxdDevice {
        connection_type: Connection::Network(LOCALHOST),
        udid: String::new(),
        device_id: 0,
    });
    assert_eq!(device.display_text(), "[WiFi] Test Device");
    device.usbmuxd_device = Some(UsbmuxdDevice {
        connection_type: Connection::Unknown("?".to_string()),
        udid: String::new(),
        device_id: 0,
    });
    assert_eq!(device.display_text(), "[Unknown] Test Device");
    device.usbmuxd_device = None;
    device.pairing_address = Some((LOCALHOST, 1));
    assert_eq!(
        device.display_text(),
        "[WiFi (tvOS)] Test Device [unpaired]"
    );
}

#[test]
fn devices_are_found_by_number_or_identifier() {
    let devices = || {
        vec![
            usbmuxd_device("AAAA", 12),
            usbmuxd_device("bbbb", 7),
            usbmuxd_device("12", 9),
        ]
    };
    assert_eq!(get_device_for_id(devices(), "7").unwrap().udid, "bbbb");
    assert_eq!(get_device_for_id(devices(), "aaaA").unwrap().device_id, 12);
    assert_eq!(get_device_for_id(devices(), "12").unwrap().udid, "AAAA");
    assert_eq!(
        message(get_device_for_id(devices(), "07").unwrap_err()),
        "Device ID 07 not found"
    );
}

#[test]
fn validates_legacy_and_modern_udids() {
    assert!(is_valid_device_udid("00008110-000C25540CD1801E"));
    assert!(is_valid_device_udid("0123456789abcdef0123456789abcdef01234567"));
    assert!(!is_valid_device_udid("00:11:22:33:44:55"));
    assert!(!is_valid_device_udid("Apple-TV.local"));
}

#[test]
fn identifiers_of_the_wrong_shape_are_not_valid() {
    assert!(!is_valid_device_udid(""));
    assert!(!is_valid_device_udid("000081100000C25540CD1801E"));
    assert!(!is_valid_device_udid("0000811-0000C25540CD1801E"));
    assert!(!is_valid_device_udid("00008110-000C25540CD1801G"));
    assert!(!is_valid_device_udid("0123456789abcdef0123456789abcdef0123456g"));
}

#[test]
fn a_report_taken_over_twice_changes_nothing_more() {
    let info = TvosDeviceInfo {
        name: Some("Den".to_string()),
        udid: Some("00008110-000C25540CD1801F".to_string()),
        product_type: Some("AppleTV14,1".to_string()),
        ..Default::default()
    };
    let mut once = stub_tvos_device();
    once.apply_tvos_info(&info);
    let mut twice = once.clone();
    twice.apply_tvos_info(&info);
    assert_eq!(format!("{once:?}"), format!("{twice:?}"));
    assert_eq!(once.transport(), DeviceTransport::CoreDevice);

    let mut silent = once.clone();
    silent.apply_tvos_info(&TvosDeviceInfo::default());
    assert_eq!(format!("{once:?}"), format!("{silent:?}"));
}

#[test]
fn two_keys_have_two_files_in_the_directory() {
    let cache_dir = PathBuf::from("/cache");
    let mut first = stub_device();
    let mut second = stub_device();
    first.pairing_identity = Some("a".to_string());
    second.pairing_identity = Some("a.plist".to_string());
    let first = first.pairing_cache_path(&cache_dir).unwrap();
    let second = second.pairing_cache_path(&cache_dir).unwrap();
    assert_ne!(first.file_name, second.file_name);
    for path in [first, second] {
        assert_eq!(
            path.directory.join(&path.file_name).parent(),
            Some(cache_dir.as_path())
        );
    }
}
