use std::path::PathBuf;

use idevice::remote_pairing::RpPairingFile;
use plume_utils::apps::{get_app_name_from_info, list_apps, InstalledApp};
use plume_utils::device_path::record_directories;
use plume_utils::error::Error;
use plume_utils::pairing_cache::{
    storage_steps, PairingCachePath, StorageStep, OWNER_DIRECTORY_MODE, OWNER_FILE_MODE,
};
use plume_utils::pairing_file::{
    external_pairing_file_from_bytes, is_peer_file, label_candidates,
    native_pairing_candidates_from_bytes, ExternalRecord, PairingRecord,
};

fn message(error: Error) -> String {
    match error {
        Error::Other(text) => text,
        error => panic!("{error:?}"),
    }
}

fn xml(entries: &plist::Dictionary) -> Vec<u8> {
    let mut bytes = Vec::new();
    plist::to_writer_xml(&mut bytes, entries).unwrap();
    bytes
}

fn data(bytes: Vec<u8>) -> plist::Value {
    plist::Value::Data(bytes)
}

fn string(text: &str) -> plist::Value {
    plist::Value::String(text.to_string())
}

fn native(source: &RpPairingFile) -> plist::Dictionary {
    let mut entries = plist::Dictionary::new();
    entries.insert("publicKey".to_string(), data(source.public_key_bytes()));
    entries.insert("privateKey".to_string(), data(source.private_key_bytes()));
    entries.insert("identifier".to_string(), string(&source.identifier));
    entries
}

#[test]
fn external_pairing_record_import_supports_native_shape() {
    let source = RpPairingFile::generate("external-record-test");
    let mut native = native(&source);
    native.insert("irk".to_string(), data(vec![7; 16]));

    let imported_native = external_pairing_file_from_bytes(&xml(&native), None).unwrap();
    assert_eq!(imported_native.identifier, source.identifier);
    assert_eq!(imported_native.public_key_bytes(), source.public_key_bytes());
    assert_eq!(imported_native.alt_irk(), Some(&[7; 16][..]));
    assert_eq!(imported_native.private_key, source.private_key_bytes());
}

#[test]
fn native_pairing_candidates_combine_xcode_host_identity_with_each_peer() {
    let source = RpPairingFile::generate("native-record-test");
    let mut host = native(&source);
    host.insert("irk".to_string(), data(vec![1; 16]));

    let host_bytes = xml(&host);

    let mut peer_a = plist::Dictionary::new();
    peer_a.insert("irk".to_string(), data(vec![2; 16]));
    let mut peer_b = plist::Dictionary::new();
    peer_b.insert("irk".to_string(), data(vec![3; 16]));
    let peer_a_bytes = xml(&peer_a);
    let peer_b_bytes = xml(&peer_b);

    let candidates = native_pairing_candidates_from_bytes(
        &host_bytes,
        &[peer_a_bytes.as_slice(), peer_b_bytes.as_slice()],
        None,
    )
    .unwrap();

    assert_eq!(candidates.len(), 3);
    assert_eq!(candidates[0].alt_irk(), None);
    assert_eq!(candidates[1].alt_irk(), Some(&[2; 16][..]));
    assert_eq!(candidates[2].alt_irk(), Some(&[3; 16][..]));
    assert!(candidates
        .iter()
        .all(|candidate| candidate.identifier == source.identifier));
}

#[test]
fn peers_without_an_address_key_are_passed_over() {
    let source = RpPairingFile::generate("peers");
    let mut short = plist::Dictionary::new();
    short.insert("irk".to_string(), data(vec![1; 15]));
    let mut later_key = plist::Dictionary::new();
    later_key.insert("irk".to_string(), data(vec![1; 15]));
    later_key.insert("altIRK".to_string(), string("no data"));
    later_key.insert("alt_irk".to_string(), data(vec![9; 16]));
    let (short, later_key) = (xml(&short), xml(&later_key));

    let candidates = native_pairing_candidates_from_bytes(
        &xml(&native(&source)),
        &[short.as_slice(), b"no property list", later_key.as_slice()],
        None,
    )
    .unwrap();
    assert_eq!(candidates.len(), 2);
    assert_eq!(candidates[1].alt_irk(), Some(&[9; 16][..]));

    let peers = vec!["peer-a".to_string()];
    let mut three = candidates.clone();
    three.push(candidates[0].clone());
    let labelled = label_candidates("host", &peers, three);
    let labels: Vec<&str> = labelled.iter().map(|(label, _)| label.as_str()).collect();
    assert_eq!(labels, vec!["host", "peer-a", "host"]);
    assert_eq!(labelled[1].1.alt_irk(), Some(&[9; 16][..]));
}

#[test]
fn peers_are_in_property_lists() {
    assert!(is_peer_file(Some("plist")));
    assert!(!is_peer_file(Some("PLIST")));
    assert!(!is_peer_file(Some("plist.tmp")));
    assert!(!is_peer_file(None));
}

#[test]
fn external_records_say_what_they_lack() {
    let source = RpPairingFile::generate("lacking");
    let refused = |entries: &plist::Dictionary| {
        message(external_pairing_file_from_bytes(&xml(entries), None).unwrap_err())
    };

    let mut entries = native(&source);
    entries.insert("public_key".to_string(), data(vec![1; 31]));
    assert_eq!(
        refused(&entries),
        "External pairing record has no valid public key"
    );

    let mut entries = native(&source);
    entries.remove("privateKey");
    assert_eq!(
        refused(&entries),
        "External pairing record has no valid private key"
    );

    let mut entries = native(&source);
    entries.remove("identifier");
    assert_eq!(
        refused(&entries),
        "External pairing record has no host identifier"
    );

    assert!(matches!(
        external_pairing_file_from_bytes(b"nothing", None),
        Err(Error::Plist(_))
    ));

    let mut entries = native(&source);
    entries.insert("publicKey".to_string(), data(vec![0x02; 32]));
    assert!(matches!(
        external_pairing_file_from_bytes(&xml(&entries), None),
        Err(Error::Idevice(_))
    ));
}

#[test]
fn the_local_identifier_stands_in_for_a_missing_one() {
    let source = RpPairingFile::generate("local");
    let mut entries = native(&source);
    entries.remove("identifier");
    entries.insert("alt_irk".to_string(), data(vec![1; 15]));
    entries.insert("irk".to_string(), data(vec![2; 16]));
    let bytes = xml(&entries);

    assert_eq!(ExternalRecord::from_bytes(&bytes).unwrap().identifier, None);
    let record =
        external_pairing_file_from_bytes(&bytes, Some("THIS-HOST".to_string())).unwrap();
    assert_eq!(record.identifier, "THIS-HOST");
    assert_eq!(record.alt_irk(), None);

    entries.insert("host_identifier".to_string(), string("named"));
    let record =
        external_pairing_file_from_bytes(&xml(&entries), Some("THIS-HOST".to_string())).unwrap();
    assert_eq!(record.identifier, "named");
}

#[test]
fn records_read_back_as_they_were_written() {
    let source = RpPairingFile::generate("round");
    for identifier in [
        "plain",
        "",
        "  spaced  ",
        "<a href=\"x\">&amp;'\u{2019}]]></a>",
        "line\r\nbreak\ttab\u{0}\u{1}\u{7f}\u{85}\u{2028}\u{feff}\u{fffe}",
    ] {
        for alt_irk in [None, Some(vec![]), Some(vec![5; 16]), Some(vec![0xff; 200])] {
            let record = PairingRecord {
                public_key: source.public_key_bytes(),
                private_key: source.private_key_bytes(),
                identifier: identifier.to_string(),
                alt_irk: alt_irk.clone(),
            };
            let bytes = record.to_bytes().unwrap();
            let read = PairingRecord::from_bytes(&bytes).unwrap();
            assert_eq!(read.public_key, record.public_key);
            assert_eq!(read.private_key, record.private_key);
            assert_eq!(read.identifier, identifier);
            assert_eq!(read.alt_irk, alt_irk);
            let file = RpPairingFile::from_bytes(&bytes).unwrap();
            assert_eq!(file.identifier, identifier);
        }
    }
    let from_file = PairingRecord::from_bytes(&source.to_bytes()).unwrap();
    assert_eq!(from_file.identifier, source.identifier);
    assert_eq!(from_file.private_key, source.private_key_bytes());
}

#[test]
fn records_without_keys_do_not_read_back() {
    let source = RpPairingFile::generate("broken");
    let record = PairingRecord {
        public_key: source.public_key_bytes(),
        private_key: vec![1; 31],
        identifier: "x".to_string(),
        alt_irk: None,
    };
    assert!(matches!(
        PairingRecord::from_bytes(&record.to_bytes().unwrap()),
        Err(Error::Idevice(_))
    ));
    assert!(matches!(
        PairingRecord::from_bytes(b"nothing"),
        Err(Error::Idevice(_))
    ));
}

#[test]
fn records_are_written_closed() {
    assert_eq!(OWNER_DIRECTORY_MODE, 0o700);
    assert_eq!(OWNER_FILE_MODE, 0o600);
    assert_eq!(
        storage_steps(true),
        vec![
            StorageStep::CreateDirectory,
            StorageStep::RestrictDirectory(0o700),
            StorageStep::WriteTemporary,
            StorageStep::RestrictTemporary(0o600),
            StorageStep::Rename,
            StorageStep::RestrictRecord(0o600),
        ]
    );
    assert_eq!(
        storage_steps(false),
        vec![
            StorageStep::CreateDirectory,
            StorageStep::WriteTemporary,
            StorageStep::Rename,
        ]
    );
    let path = PairingCachePath {
        directory: PathBuf::from("/cache"),
        file_name: "plume_permissions.plist".to_string(),
    };
    assert_eq!(path.temporary_file_name(), "plume_permissions.plist.tmp");
}

#[test]
fn temporary_names_replace_the_extension() {
    for file_name in [
        "plume_permissions.plist",
        "plume_.plist",
        "plume_x/.plist",
        "plume_../.plist",
        "plume_a.b/c.d.plist",
        "plume_x.y/name",
        "name",
        ".hidden",
        "...",
        "name.",
    ] {
        let path = PairingCachePath {
            directory: PathBuf::from("/cache"),
            file_name: file_name.to_string(),
        };
        assert_eq!(
            path.directory.join(path.temporary_file_name()),
            path.directory.join(file_name).with_extension("plist.tmp")
        );
    }
    let path = PairingCachePath {
        directory: PathBuf::from("/cache"),
        file_name: "plume_x/.plist".to_string(),
    };
    assert_eq!(path.temporary_file_name(), "plume_x/.plist.plist.tmp");
}

fn made_for(path: &str) -> Vec<String> {
    let mut made = Vec::new();
    if let Some(parent) = std::path::Path::new(path).parent() {
        let mut current = String::new();
        let has_root = parent.has_root();
        for component in parent.components() {
            if let std::path::Component::Normal(dir) = component {
                if has_root && current.is_empty() {
                    current.push('/');
                } else if !current.is_empty() && !current.ends_with('/') {
                    current.push('/');
                }
                current.push_str(&dir.to_string_lossy());
                made.push(current.clone());
            }
        }
    }
    made
}

#[test]
fn directories_of_a_record_are_made_outermost_first() {
    assert_eq!(
        record_directories("/Documents/SideStore/ALTPairingFile.mobiledevicepairing"),
        vec!["/Documents", "/Documents/SideStore"]
    );
    assert_eq!(record_directories("a/b/c"), vec!["a", "a/b"]);
    for path in [
        "", "/", ".", "..", "a", "/a", "a/", "./a", "./a/b", "a/./b/c", "a//b///c/", "../a/b",
        "a/../b/c", "/../a/b", "a/..", "/a/b/.", "//x//y", "a/b/..", "./.", "/./a/b",
    ] {
        assert_eq!(record_directories(path), made_for(path), "{path:?}");
    }
}

#[test]
fn app_names_fall_back_in_order() {
    let mut info = plist::Dictionary::new();
    let name = |info: &plist::Dictionary| {
        get_app_name_from_info(&plist::Value::Dictionary(info.clone()))
    };
    assert_eq!(name(&info), None);
    info.insert("CFBundleExecutable".to_string(), string("exe"));
    assert_eq!(name(&info).as_deref(), Some("exe"));
    info.insert("CFBundleName".to_string(), string("bundle"));
    assert_eq!(name(&info).as_deref(), Some("bundle"));
    info.insert("CFBundleDisplayName".to_string(), plist::Value::Boolean(true));
    assert_eq!(name(&info).as_deref(), Some("bundle"));
    info.insert("CFBundleDisplayName".to_string(), string(""));
    assert_eq!(name(&info).as_deref(), Some(""));
    assert_eq!(get_app_name_from_info(&string("x")), None);
}

#[test]
fn apps_are_listed_once_for_each_bundle_identifier() {
    let app = |id: Option<&str>, supports: bool, app: u32| InstalledApp {
        bundle_id: id.map(str::to_string),
        supports_pairing_file: supports,
        app,
    };
    let listed = list_apps(vec![
        app(Some("a"), false, 1),
        app(Some("a"), true, 2),
        app(None, true, 3),
        app(Some("a"), true, 4),
        app(Some("b"), true, 5),
        app(None, true, 6),
        app(Some("c"), false, 7),
    ]);
    assert_eq!(
        listed.iter().map(|a| a.app).collect::<Vec<_>>(),
        vec![2, 3, 5]
    );
}
