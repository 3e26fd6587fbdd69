use plume_utils::device_id::synthetic_device_id;
use plume_utils::format::format_bytes;
use plume_utils::host::{
    host_name, local_remote_pairing_identifier, new_pairing_identity, random_host_name,
    random_upper_id,
};
use plume_utils::mac_install::{
    bundle_file_name, copy_action, new_stage_directory_name, stage_directory_name, CopyAction,
};
use plume_utils::pairing_file::PairingRecord;
use plume_utils::string_map::StringMap;
use plume_utils::text::{
    decimal_text, eq_ignore_ascii_case, replace_char, to_ascii_lowercase, to_ascii_uppercase, trim,
};

fn generated_identities(count: usize) -> Vec<String> {
    (0..count).map(|i| format!("dev-{i}")).collect()
}

#[test]
fn synthetic_device_id_is_deterministic() {
    for name in generated_identities(100_000) {
        assert_eq!(synthetic_device_id(&name), synthetic_device_id(&name));
    }
}

#[test]
fn synthetic_device_id_never_zero_or_u32_max() {
    for name in generated_identities(100_000) {
        let id = synthetic_device_id(&name);
        assert_ne!(id, 0, "input {name:?} produced 0");
        assert_ne!(id, u32::MAX, "input {name:?} produced u32::MAX");
    }

    for input in ["", &"x".repeat(500)] {
        let id = synthetic_device_id(input);
        assert_ne!(id, 0, "input {input:?} produced 0");
        assert_ne!(id, u32::MAX, "input {input:?} produced u32::MAX");
    }
}

#[test]
fn synthetic_device_id_top_bit_always_set() {
    let inputs = [
        "",
        "a",
        "Living-Room",
        "Bedroom",
        "Apple-TV",
        "Office",
        &"z".repeat(200),
    ];
    for input in inputs {
        let id = synthetic_device_id(input);
        assert_eq!(
            id & 0x8000_0000,
            0x8000_0000,
            "input {input:?} did not have the top bit set"
        );
    }
}

#[test]
fn synthetic_device_id_distinct_for_realistic_names() {
    let names = ["Living-Room", "Bedroom", "Apple-TV", "Office"];
    let ids: Vec<u32> = names.iter().map(|n| synthetic_device_id(n)).collect();
    for i in 0..ids.len() {
        for j in (i + 1)..ids.len() {
            assert_ne!(
                ids[i], ids[j],
                "{:?} and {:?} produced the same id",
                names[i], names[j]
            );
        }
    }
}

#[test]
fn synthetic_device_id_known_value_regression() {
    assert_eq!(synthetic_device_id("Living-Room"), 0xe3eb1b88);
}

#[test]
fn format_bytes_picks_a_unit_per_magnitude() {
    assert_eq!(format_bytes(0), "0 B");
    assert_eq!(format_bytes(999), "999 B");
    assert_eq!(format_bytes(1_000), "1 KB");
    assert_eq!(format_bytes(999_999), "999 KB");
    assert_eq!(format_bytes(1_000_000), "1.0 MB");
    assert_eq!(format_bytes(1_000_000_000), "1.0 GB");
}

#[test]
fn format_bytes_rounds_to_one_decimal_at_megabytes() {
    assert_eq!(format_bytes(54_741_568), "54.7 MB");
}

fn by_division(bytes: u64) -> String {
    if bytes >= 1_000_000_000 {
        format!("{:.1} GB", bytes as f64 / 1_000_000_000u64 as f64)
    } else if bytes >= 1_000_000 {
        format!("{:.1} MB", bytes as f64 / 1_000_000u64 as f64)
    } else if bytes >= 1_000 {
        format!("{} KB", bytes / 1_000)
    } else {
        format!("{} B", bytes)
    }
}

#[test]
fn format_bytes_agrees_with_double_precision() {
    let mut state: u64 = 0x9e37_79b9_7f4a_7c15;
    for shift in 0..64u32 {
        for _ in 0..500 {
            state ^= state << 13;
            state ^= state >> 7;
            state ^= state << 17;
            let bytes = state >> shift;
            assert_eq!(format_bytes(bytes), by_division(bytes), "{bytes}");
        }
    }
    for tenths in 10..20_000u64 {
        for bytes in [
            tenths * 100_000 + 50_000,
            tenths * 100_000 + 49_999,
            tenths * 100_000_000 + 50_000_000,
            tenths * 100_000_000 + 49_999_999,
        ] {
            assert_eq!(format_bytes(bytes), by_division(bytes), "{bytes}");
        }
    }
    assert_eq!(format_bytes(u64::MAX), by_division(u64::MAX));
    assert_eq!(format_bytes(u64::MAX), "18446744073.7 GB");
}

#[test]
fn local_identifier_is_the_uuid_of_the_host_name() {
    let expected =
        uuid::Uuid::new_v3(&uuid::Uuid::NAMESPACE_DNS, "studio.local".as_bytes())
            .to_string()
            .to_uppercase();
    assert_eq!(
        local_remote_pairing_identifier(Some("studio.local".to_string()), None),
        Some(expected.clone())
    );
    assert_eq!(
        local_remote_pairing_identifier(
            Some(" \t".to_string()),
            Some(b"  studio.local\n".to_vec())
        ),
        Some(expected.clone())
    );
    assert_eq!(
        local_remote_pairing_identifier(None, Some(b"studio.local".to_vec())),
        Some(expected.clone())
    );
    assert_ne!(
        local_remote_pairing_identifier(Some("studio.local ".to_string()), None),
        Some(expected)
    );
}

#[test]
fn local_identifier_needs_a_host_name() {
    assert_eq!(local_remote_pairing_identifier(None, None), None);
    assert_eq!(
        local_remote_pairing_identifier(Some(String::new()), Some(b"\n \n".to_vec())),
        None
    );
    assert_eq!(
        local_remote_pairing_identifier(None, Some(vec![0xff, 0xfe])),
        None
    );
}

#[test]
fn random_names_have_their_shape() {
    assert_eq!(host_name("0123456789"), "plume-012345");
    assert_eq!(host_name("01"), "plume-01");
    let name = random_host_name();
    assert_eq!(name.len(), 12);
    assert!(name.starts_with("plume-"));
    assert!(name[6..].bytes().all(|b| b.is_ascii_hexdigit()));
    assert_ne!(random_host_name(), name);

    let id = random_upper_id();
    assert_eq!(id.len(), 36);
    assert_eq!(id, id.to_ascii_uppercase());
    assert_eq!(id.matches('-').count(), 4);
    assert_ne!(random_upper_id(), id);
}

#[test]
fn a_new_pairing_identity_names_its_host() {
    let (record, host) = new_pairing_identity();
    assert_eq!(record.public_key.len(), 32);
    assert_eq!(record.private_key.len(), 32);
    assert_eq!(record.alt_irk(), None);
    let digits = host.strip_prefix("plume-").unwrap();
    assert_eq!(digits.len(), 6);
    assert!(digits.chars().all(|c| c.is_ascii_hexdigit() && !c.is_ascii_uppercase()));
    let bytes = record.to_bytes().unwrap();
    assert_eq!(
        PairingRecord::from_bytes(&bytes).unwrap().public_key,
        record.public_key
    );
    assert_eq!(
        record.identifier,
        uuid::Uuid::new_v3(&uuid::Uuid::NAMESPACE_DNS, host.as_bytes()).to_string()
    );
}

#[test]
fn places_of_a_mac_installation() {
    assert_eq!(stage_directory_name("ID"), "plume_mac_stage_ID");
    let name = new_stage_directory_name();
    assert!(name.starts_with("plume_mac_stage_"));
    assert_eq!(name.len(), 16 + 36);
    assert_eq!(bundle_file_name(Some("A.app".to_string())).unwrap(), "A.app");
    assert!(bundle_file_name::<String>(None).is_err());
    assert_eq!(copy_action(true, true, true), CopyAction::Link);
    assert_eq!(copy_action(false, true, false), CopyAction::Descend);
    assert_eq!(copy_action(false, false, true), CopyAction::Copy);
    assert_eq!(copy_action(false, false, false), CopyAction::Skip);
}

#[test]
fn text_helpers_agree_with_the_standard_library() {
    let samples = [
        "",
        "plain",
        "  spaced out \n",
        "\u{a0}\u{3000}wide\u{2003}",
        "\u{200b}zero width\u{200b}",
        "M\u{dc}LLER-Stra\u{df}e 12",
        "\u{85}\u{1680}\u{2028}x\u{205f}",
    ];
    for s in samples {
        assert_eq!(trim(s), s.trim());
        assert_eq!(to_ascii_lowercase(s), s.to_ascii_lowercase());
        assert_eq!(to_ascii_uppercase(s), s.to_ascii_uppercase());
        assert_eq!(replace_char(s, '-', ' '), s.replace('-', " "));
        assert!(eq_ignore_ascii_case(s, &s.to_ascii_uppercase()));
    }
    for c in (0..=0x10ffffu32).filter_map(char::from_u32) {
        let s = c.to_string();
        assert_eq!(trim(&s).is_empty(), c.is_whitespace(), "{c:?}");
    }
    for n in [0u64, 9, 10, 907, u64::MAX] {
        assert_eq!(decimal_text(n), n.to_string());
    }
}

#[test]
fn a_later_entry_of_a_text_map_hides_an_earlier_one() {
    let mut map: StringMap<u32> = StringMap::new();
    assert_eq!(map.get("a"), None);
    map.insert("a".to_string(), 1);
    map.insert("b".to_string(), 2);
    map.insert("a".to_string(), 3);
    assert_eq!(map.get("a"), Some(&3));
    assert_eq!(map.get("b"), Some(&2));
    assert_eq!(map.get("A"), None);
}
