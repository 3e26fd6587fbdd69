use std::time::{Duration, SystemTime};

use idevice::remote_pairing::RpPairingFile;
use plume_utils::error::Error;
use plume_utils::list_dates::holds_unreadable_date;
use plume_utils::pairing_file::{
    external_pairing_file_from_bytes, native_pairing_candidates_from_bytes, ExternalRecord,
    PairingRecord, UNREADABLE_DATE,
};

fn refused<T: std::fmt::Debug>(result: Result<T, Error>) -> bool {
    matches!(result, Err(Error::Other(text)) if text == UNREADABLE_DATE)
}

fn entries(source: &RpPairingFile) -> plist::Dictionary {
    let mut entries = plist::Dictionary::new();
    for (key, bytes) in [
        ("public_key", source.public_key_bytes()),
        ("private_key", source.private_key_bytes()),
        ("irk", vec![7; 16]),
    ] {
        entries.insert(key.to_string(), plist::Value::Data(bytes));
    }
    entries.insert(
        "identifier".to_string(),
        plist::Value::String(source.identifier.clone()),
    );
    entries
}

/// A record in XML with one more entry.
fn xml_with(entry: &str) -> Vec<u8> {
    let source = RpPairingFile::generate("dates");
    let mut bytes = Vec::new();
    plist::to_writer_xml(&mut bytes, &entries(&source)).unwrap();
    let text = String::from_utf8(bytes).unwrap();
    text.replace("</dict>", &format!("<key>at</key>{entry}</dict>"))
        .into_bytes()
}

fn xml_with_date(date: &str) -> Vec<u8> {
    xml_with(&format!("<date>{date}</date>"))
}

/// A record in binary form with one date.
fn binary_with_date(date: plist::Date) -> Vec<u8> {
    let source = RpPairingFile::generate("dates");
    let mut entries = entries(&source);
    entries.insert("at".to_string(), plist::Value::Date(date));
    let mut bytes = Vec::new();
    plist::Value::Dictionary(entries)
        .to_writer_binary(&mut bytes)
        .unwrap();
    bytes
}

/// A record in binary form with a date at these seconds after the start of 2001.
fn binary_with_seconds(seconds: f64) -> Vec<u8> {
    let marked = 123456789.0f64;
    let mut bytes = binary_with_date(plist::Date::from(
        SystemTime::UNIX_EPOCH + Duration::from_secs(978_307_200 + 123_456_789),
    ));
    let mut object = vec![0x33];
    object.extend_from_slice(&marked.to_be_bytes());
    let at = bytes
        .windows(9)
        .position(|window| window == object.as_slice())
        .unwrap();
    bytes[at + 1..at + 9].copy_from_slice(&seconds.to_be_bytes());
    bytes
}

#[test]
fn dates_inside_the_range_are_read() {
    for date in [
        "2024-05-01T12:30:00Z",
        "2024-05-01T12:30:00.25+02:00",
        "0001-01-01T00:00:00Z",
        "0000-01-01T00:00:00Z",
        "0000-01-01T00:00:00+00:00",
        "0000-01-01T02:00:00+02:00",
        "0000-01-02T00:00:00+23:59",
        "0000-01-01T00:00:00-23:59",
        "9999-12-31T23:59:59Z",
        "9999-12-31T23:59:59+00:00",
        "9999-12-31T23:59:59.5z",
        "9999-12-31T21:59:59-02:00",
        "9999-12-30T23:59:59-23:59",
        "9999-12-31T23:59:59+23:59",
        "2024-05-01<!-- noon -->T12:00:00Z",
    ] {
        let bytes = xml_with_date(date);
        assert!(!holds_unreadable_date(&bytes), "{date}");
        let record = external_pairing_file_from_bytes(&bytes, None).unwrap();
        assert_eq!(record.alt_irk(), Some(&[7; 16][..]), "{date}");
        assert!(PairingRecord::from_bytes(&bytes).is_ok(), "{date}");
    }
}

#[test]
fn dates_that_an_offset_takes_out_of_the_range_are_refused() {
    for entry in [
        "<date>9999-12-31T23:59:59-01:00</date>",
        "<date>9999-12-31T22:00:00-02:00</date>",
        "<date>9999-12-31 00:30:00.125-23:59</date>",
        "<date>0000-01-01T00:00:00+01:00</date>",
        "<date>0000-01-01T01:59:59+02:00</date>",
        "<x:date>9999-12-31T23:59:59-01:00</x:date>",
        "<date at='>' to=\">\"\n>0000-01-01T00:00:00+00:01</date\n>",
        "<date>9999-12-31<!-- x -->T23:59:59-01:00</date>",
        "<date><?x?>0000-01-01T00:00:00+01:00</date>",
        "<date>&#57;999-12-31T23:59:59-01:00</date>",
    ] {
        let bytes = xml_with(entry);
        assert!(holds_unreadable_date(&bytes), "{entry}");
        assert!(refused(ExternalRecord::from_bytes(&bytes)), "{entry}");
        assert!(refused(external_pairing_file_from_bytes(&bytes, None)), "{entry}");
        assert!(refused(PairingRecord::from_bytes(&bytes)), "{entry}");
        assert!(
            refused(native_pairing_candidates_from_bytes(&bytes, &[], None)),
            "{entry}"
        );
    }
}

#[test]
fn only_dates_count_as_dates() {
    for entry in [
        "<string>9999-12-31T23:59:59-01:00</string>",
        "<string>&lt;date>0000-01-01T00:00:00+01:00&lt;/date></string>",
        "<dict><key>date</key><string>9999-12-31T23:59:59-01:00</string></dict>",
    ] {
        let bytes = xml_with(entry);
        assert!(!holds_unreadable_date(&bytes), "{entry}");
        assert!(ExternalRecord::from_bytes(&bytes).is_ok(), "{entry}");
    }
    for entry in [
        "<date/>",
        "<date>soon</date>",
        "<date><string>9999-12-31T23:59:59-01:00</string></date>",
        "<date>9999-12-31T23:59:59-01:00",
        "<dates>9999-12-31T23:59:59-01:00</dates>",
    ] {
        let bytes = xml_with(entry);
        if !entry.ends_with("00") {
            assert!(!holds_unreadable_date(&bytes), "{entry}");
        }
        assert!(ExternalRecord::from_bytes(&bytes).is_err(), "{entry}");
    }
}

#[test]
fn binary_dates_before_year_zero_are_refused() {
    let year_zero = -63_145_526_400.0f64;
    let first = -378_683_424_000.0f64;
    for seconds in [0.0, 6.0e8, -5.0e10, year_zero, 2.5e11] {
        let bytes = binary_with_seconds(seconds);
        assert!(!holds_unreadable_date(&bytes), "{seconds}");
        assert!(external_pairing_file_from_bytes(&bytes, None).is_ok(), "{seconds}");
        assert!(PairingRecord::from_bytes(&bytes).is_ok(), "{seconds}");
    }
    for seconds in [
        f64::from_bits(year_zero.to_bits() + 1),
        -1.0e11,
        f64::from_bits(first.to_bits() - 1),
        first,
    ] {
        let bytes = binary_with_seconds(seconds);
        assert!(holds_unreadable_date(&bytes), "{seconds}");
        assert!(refused(external_pairing_file_from_bytes(&bytes, None)), "{seconds}");
        assert!(refused(PairingRecord::from_bytes(&bytes)), "{seconds}");
    }
    for seconds in [
        f64::from_bits(first.to_bits() + 1),
        -1.0e12,
        1.0e12,
        f64::NAN,
        f64::NEG_INFINITY,
    ] {
        let bytes = binary_with_seconds(seconds);
        assert!(!holds_unreadable_date(&bytes), "{seconds}");
        assert!(
            matches!(ExternalRecord::from_bytes(&bytes), Err(Error::Plist(_))),
            "{seconds}"
        );
    }
    let past = plist::Date::from(SystemTime::UNIX_EPOCH - Duration::from_secs(100_000_000_000));
    assert!(holds_unreadable_date(&binary_with_date(past)));
}

#[test]
fn binary_lists_that_are_cut_short_are_refused_as_lists() {
    let whole = binary_with_seconds(-1.0e11);
    assert!(holds_unreadable_date(&whole));
    for len in 0..whole.len() {
        let bytes = &whole[..len];
        if !holds_unreadable_date(bytes) {
            assert!(ExternalRecord::from_bytes(bytes).is_err(), "{len}");
        }
    }
}

#[test]
fn a_peer_with_an_unreadable_date_gives_no_candidate() {
    let host = xml_with_date("2024-05-01T12:30:00Z");
    let unreadable = xml_with_date("9999-12-31T23:59:59-01:00");
    let readable = xml_with_date("9999-12-31T23:59:59Z");
    let candidates = native_pairing_candidates_from_bytes(
        &host,
        &[unreadable.as_slice(), readable.as_slice()],
        None,
    )
    .unwrap();
    assert_eq!(candidates.len(), 2);
    assert_eq!(candidates[0].alt_irk(), None);
    assert_eq!(candidates[1].alt_irk(), Some(&[7; 16][..]));
}
