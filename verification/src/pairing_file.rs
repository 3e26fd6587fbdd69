//! Pairing records: how one is read from the files that other tools keep, and
//! what the library's own files hold.
use vstd::prelude::*;
use crate::error::{other, Error};
use crate::list_dates::{has_unreadable_date, holds_unreadable_date};
use crate::property_list::{
    data_entry, data_value, dictionary_entries, dictionary_from_bytes, dictionary_to_xml,
    parsed_dictionary, string_value, text_entry, value_data, value_text,
};
use crate::sequences::{lemma_filter_grows, lemma_filter_places};
use crate::text::{optional_view, same_text};

verus! {

/// A remote pairing record: the host's key pair, the name that the host goes by,
/// and the key that the device resolves addresses with, where it is known.
#[derive(Debug, Clone)]
pub struct PairingRecord {
    pub public_key: Vec<u8>,
    pub private_key: Vec<u8>,
    pub identifier: String,
    pub alt_irk: Option<Vec<u8>>,
}

/// A pairing record with its bytes and characters as sequences.
pub struct PairingRecordView {
    pub public_key: Seq<u8>,
    pub private_key: Seq<u8>,
    pub identifier: Seq<char>,
    pub alt_irk: Option<Seq<u8>>,
}

/// The bytes of an optional vector.
pub open spec fn optional_bytes(bytes: Option<Vec<u8>>) -> Option<Seq<u8>> {
    match bytes {
        Some(b) => Some(b@),
        None => None,
    }
}

impl View for PairingRecord {
    type V = PairingRecordView;

    open spec fn view(&self) -> PairingRecordView {
        PairingRecordView {
            public_key: self.public_key@,
            private_key: self.private_key@,
            identifier: self.identifier@,
            alt_irk: optional_bytes(self.alt_irk),
        }
    }
}

/// Pairing records with their bytes and characters as sequences.
pub open spec fn record_views(records: Seq<PairingRecord>) -> Seq<PairingRecordView> {
    records.map_values(|r: PairingRecord| r@)
}

/// A copy of some bytes.
fn vec_of(bytes: &[u8]) -> (r: Vec<u8>)
    ensures
        r@ == bytes@,
{
    let mut out: Vec<u8> = Vec::new();
    let mut i: usize = 0;
    while i < bytes.len()
        invariant
            i <= bytes.len(),
            out@ == bytes@.take(i as int),
        decreases bytes.len() - i,
    {
        out.push(bytes[i]);
        assert(bytes@.take(i + 1) =~= bytes@.take(i as int).push(bytes@[i as int]));
        i += 1;
    }
    assert(bytes@.take(i as int) =~= bytes@);
    out
}

impl PairingRecord {
    pub fn public_key_bytes(&self) -> (r: Vec<u8>)
        ensures
            r@ == self@.public_key,
    {
        vec_of(self.public_key.as_slice())
    }

    pub fn alt_irk(&self) -> (r: Option<&[u8]>)
        ensures
            match r {
                Some(bytes) => self@.alt_irk == Some(bytes@),
                None => self@.alt_irk is None,
            },
    {
        match &self.alt_irk {
            Some(bytes) => Some(bytes.as_slice()),
            None => None,
        }
    }

    /// The same record with another address key.
    pub fn with_alt_irk(&self, alt_irk: Option<Vec<u8>>) -> (r: PairingRecord)
        ensures
            r@ == (PairingRecordView { alt_irk: optional_bytes(alt_irk), ..self@ }),
    {
        PairingRecord {
            public_key: vec_of(self.public_key.as_slice()),
            private_key: vec_of(self.private_key.as_slice()),
            identifier: self.identifier.clone(),
            alt_irk,
        }
    }
}

// ---------------------------------------------------------------- entries

/// The data under the first of some keys that has any.
pub open spec fn first_data(
    entries: Map<Seq<char>, plist::Value>,
    keys: Seq<&'static str>,
) -> Option<Seq<u8>>
    decreases keys.len(),
{
    if keys.len() == 0 {
        None
    } else if data_entry(entries, keys.first()@) is Some {
        data_entry(entries, keys.first()@)
    } else {
        first_data(entries, keys.drop_first())
    }
}

/// The text under the first of some keys that has any.
pub open spec fn first_string(
    entries: Map<Seq<char>, plist::Value>,
    keys: Seq<&'static str>,
) -> Option<Seq<char>>
    decreases keys.len(),
{
    if keys.len() == 0 {
        None
    } else if text_entry(entries, keys.first()@) is Some {
        text_entry(entries, keys.first()@)
    } else {
        first_string(entries, keys.drop_first())
    }
}

fn data_field(source: &plist::Dictionary, keys: &[&'static str]) -> (r: Option<Vec<u8>>)
    ensures
        optional_bytes(r) == first_data(dictionary_entries(*source), keys@),
{
    let ghost entries = dictionary_entries(*source);
    let mut i: usize = 0;
    assert(keys@.skip(0) =~= keys@);
    while i < keys.len()
        invariant
            i <= keys.len(),
            entries == dictionary_entries(*source),
            first_data(entries, keys@.skip(i as int)) == first_data(entries, keys@),
        decreases keys.len() - i,
    {
        assert(keys@.skip(i as int).drop_first() =~= keys@.skip(i + 1));
        if let Some(value) = source.get(keys[i]) {
            if let Some(data) = value.as_data() {
                return Some(vec_of(data));
            }
        }
        i += 1;
    }
    None
}

fn string_field(source: &plist::Dictionary, keys: &[&'static str]) -> (r: Option<String>)
    ensures
        optional_view(r) == first_string(dictionary_entries(*source), keys@),
{
    let ghost entries = dictionary_entries(*source);
    let mut i: usize = 0;
    assert(keys@.skip(0) =~= keys@);
    while i < keys.len()
        invariant
            i <= keys.len(),
            entries == dictionary_entries(*source),
            first_string(entries, keys@.skip(i as int)) == first_string(entries, keys@),
        decreases keys.len() - i,
    {
        assert(keys@.skip(i as int).drop_first() =~= keys@.skip(i + 1));
        if let Some(value) = source.get(keys[i]) {
            if let Some(text) = value.as_string() {
                return Some(text.to_string());
            }
        }
        i += 1;
    }
    None
}

// ---------------------------------------------------------------- reading

/// What is said of a file with a date that cannot be read.
pub const UNREADABLE_DATE: &'static str = "Property list holds a date that cannot be read";

/// Whether 32 bytes are an Ed25519 public key.
pub uninterp spec fn accepted_public_key(key: Seq<u8>) -> bool;

/// The record that entries spell in the library's own form, where they do.
pub open spec fn record_of(entries: Map<Seq<char>, plist::Value>) -> Option<PairingRecordView> {
    let public_key = data_entry(entries, "public_key"@);
    let private_key = data_entry(entries, "private_key"@);
    let identifier = text_entry(entries, "identifier"@);
    if public_key is Some && public_key->0.len() == 32 && accepted_public_key(public_key->0)
        && private_key is Some && private_key->0.len() == 32 && identifier is Some {
        Some(
            PairingRecordView {
                public_key: public_key->0,
                private_key: private_key->0,
                identifier: identifier->0,
                alt_irk: data_entry(entries, "alt_irk"@),
            },
        )
    } else {
        None
    }
}

/// The record that the bytes of a file spell, where they do.
pub open spec fn record_spelled(bytes: Seq<u8>) -> Option<PairingRecordView> {
    match parsed_dictionary(bytes) {
        Some(entries) => record_of(entries),
        None => None,
    }
}

/// `RpPairingFile::from_bytes`: succeeds exactly on bytes that spell a dictionary
/// with 32 bytes of public key that are an Ed25519 public key, 32 bytes of
/// private key and an identifier, and gives these, with the address key where
/// there is one. It reads the dictionary with `plist::from_bytes`, so the bytes must
/// not hold a date that this panics on.
#[verifier::external_body]
fn read_record(bytes: &[u8]) -> (r: Result<PairingRecord, idevice::IdeviceError>)
    requires
        !has_unreadable_date(bytes@),
    ensures
        match r {
            Ok(record) => record_spelled(bytes@) == Some(record@) && accepted_public_key(
                record@.public_key,
            ),
            Err(_) => record_spelled(bytes@) is None,
        },
{
    let file = idevice::remote_pairing::RpPairingFile::from_bytes(bytes)?;
    Ok(
        PairingRecord {
            public_key: file.public_key_bytes(),
            private_key: file.private_key_bytes(),
            identifier: file.identifier,
            alt_irk: file.alt_irk,
        },
    )
}

impl PairingRecord {
    /// Reads a record from the bytes of one of the library's files.
    pub fn from_bytes(bytes: &[u8]) -> (r: Result<PairingRecord, Error>)
        ensures
            if has_unreadable_date(bytes@) {
                r is Err && r->Err_0.says(UNREADABLE_DATE@)
            } else {
                match record_spelled(bytes@) {
                    Some(record) => r is Ok && r->Ok_0@ == record,
                    None => r is Err && r->Err_0 is Idevice,
                }
            },
    {
        if holds_unreadable_date(bytes) {
            return Err(other(UNREADABLE_DATE));
        }
        match read_record(bytes) {
            Ok(record) => Ok(record),
            Err(error) => Err(Error::Idevice(error)),
        }
    }

    /// The bytes of a file that holds this record.
    pub fn to_bytes(&self) -> (r: Result<Vec<u8>, Error>)
        ensures
            r is Ok,
            !has_unreadable_date(r->Ok_0@),
            record_spelled(r->Ok_0@) == (if self@.is_valid() {
                Some(self@)
            } else {
                None
            }),
    {
        let mut entries = plist::Dictionary::new();
        entries.insert(
            "public_key".to_string(),
            data_value(vec_of(self.public_key.as_slice())),
        );
        entries.insert(
            "private_key".to_string(),
            data_value(vec_of(self.private_key.as_slice())),
        );
        entries.insert("identifier".to_string(), string_value(self.identifier.clone()));
        if let Some(irk) = &self.alt_irk {
            entries.insert("alt_irk".to_string(), data_value(vec_of(irk.as_slice())));
        }
        proof {
            lemma_record_keys_differ();
        }
        match dictionary_to_xml(&entries) {
            Ok(bytes) => Ok(bytes),
            Err(error) => Err(Error::Plist(error)),
        }
    }
}

impl PairingRecordView {
    /// Whether the keys are keys.
    pub open spec fn is_valid(self) -> bool {
        &&& self.public_key.len() == 32
        &&& self.private_key.len() == 32
        &&& accepted_public_key(self.public_key)
    }
}

proof fn lemma_record_keys_differ()
    ensures
        "public_key"@ != "private_key"@,
        "public_key"@ != "identifier"@,
        "public_key"@ != "alt_irk"@,
        "private_key"@ != "identifier"@,
        "private_key"@ != "alt_irk"@,
        "identifier"@ != "alt_irk"@,
{
    reveal_strlit("public_key");
    reveal_strlit("private_key");
    reveal_strlit("identifier");
    reveal_strlit("alt_irk");
    assert("public_key"@[0] == 'p');
    assert("identifier"@[0] == 'i');
    assert("public_key"@.len() == 10);
    assert("private_key"@.len() == 11);
    assert("identifier"@.len() == 10);
    assert("alt_irk"@.len() == 7);
}

// ---------------------------------------------------------------- records of other tools

pub const NO_PUBLIC_KEY: &'static str = "External pairing record has no valid public key";

pub const NO_PRIVATE_KEY: &'static str = "External pairing record has no valid private key";

pub const NO_IDENTIFIER: &'static str = "External pairing record has no host identifier";

/// What another tool's file says of the host.
#[derive(Debug, Clone)]
pub struct ExternalRecord {
    pub public_key: Vec<u8>,
    pub private_key: Vec<u8>,
    pub identifier: Option<String>,
    pub alt_irk: Option<Vec<u8>>,
}

/// What another tool's file says of the host, as sequences.
pub struct ExternalRecordView {
    pub public_key: Seq<u8>,
    pub private_key: Seq<u8>,
    pub identifier: Option<Seq<char>>,
    pub alt_irk: Option<Seq<u8>>,
}

impl View for ExternalRecord {
    type V = ExternalRecordView;

    open spec fn view(&self) -> ExternalRecordView {
        ExternalRecordView {
            public_key: self.public_key@,
            private_key: self.private_key@,
            identifier: optional_view(self.identifier),
            alt_irk: optional_bytes(self.alt_irk),
        }
    }
}

/// Data of a given length.
pub open spec fn of_length(data: Option<Seq<u8>>, len: nat) -> Option<Seq<u8>> {
    if data is Some && data->0.len() == len {
        data
    } else {
        None
    }
}

/// The public key of a file, under either of its names.
pub open spec fn external_public_key(entries: Map<Seq<char>, plist::Value>) -> Option<Seq<u8>> {
    of_length(first_data(entries, seq!["public_key", "publicKey"]), 32)
}

/// The private key of a file, under either of its names.
pub open spec fn external_private_key(entries: Map<Seq<char>, plist::Value>) -> Option<Seq<u8>> {
    of_length(first_data(entries, seq!["private_key", "privateKey"]), 32)
}

/// The name that the host goes by in a file, under either of its names.
pub open spec fn external_identifier(entries: Map<Seq<char>, plist::Value>) -> Option<Seq<char>> {
    first_string(entries, seq!["identifier", "host_identifier"])
}

/// The address key of a file, under any of its names.
pub open spec fn external_alt_irk(entries: Map<Seq<char>, plist::Value>) -> Option<Seq<u8>> {
    of_length(first_data(entries, seq!["alt_irk", "irk", "host_alt_irk"]), 16)
}

/// What is read from another tool's file, or the message of what is wrong with it.
pub open spec fn external_record(entries: Map<Seq<char>, plist::Value>) -> Result<
    ExternalRecordView,
    Seq<char>,
> {
    if external_public_key(entries) is None {
        Err(NO_PUBLIC_KEY@)
    } else if external_private_key(entries) is None {
        Err(NO_PRIVATE_KEY@)
    } else {
        Ok(
            ExternalRecordView {
                public_key: external_public_key(entries)->0,
                private_key: external_private_key(entries)->0,
                identifier: external_identifier(entries),
                alt_irk: external_alt_irk(entries),
            },
        )
    }
}

fn with_length(data: Option<Vec<u8>>, len: usize) -> (r: Option<Vec<u8>>)
    ensures
        optional_bytes(r) == of_length(optional_bytes(data), len as nat),
{
    match data {
        Some(bytes) => if bytes.len() == len {
            Some(bytes)
        } else {
            None
        },
        None => None,
    }
}

impl ExternalRecordView {
    /// The pairing record that comes of it once the host's name is settled: the
    /// one in the file, else the local one. `None` where neither is there.
    pub open spec fn completed(self, local_identifier: Option<Seq<char>>) -> Option<
        PairingRecordView,
    > {
        let identifier = if self.identifier is Some {
            self.identifier
        } else {
            local_identifier
        };
        match identifier {
            Some(name) => Some(
                PairingRecordView {
                    public_key: self.public_key,
                    private_key: self.private_key,
                    identifier: name,
                    alt_irk: self.alt_irk,
                },
            ),
            None => None,
        }
    }
}

impl ExternalRecord {
    /// Reads what another tool's file says of the host.
    pub fn from_bytes(bytes: &[u8]) -> (r: Result<ExternalRecord, Error>)
        ensures
            if has_unreadable_date(bytes@) {
                r is Err && r->Err_0.says(UNREADABLE_DATE@)
            } else {
                match parsed_dictionary(bytes@) {
                    None => r is Err && r->Err_0 is Plist,
                    Some(entries) => match external_record(entries) {
                        Ok(record) => r is Ok && r->Ok_0@ == record,
                        Err(message) => r is Err && r->Err_0.says(message),
                    },
                }
            },
    {
        if holds_unreadable_date(bytes) {
            return Err(other(UNREADABLE_DATE));
        }
        let source = match dictionary_from_bytes(bytes) {
            Ok(source) => source,
            Err(error) => {
                return Err(Error::Plist(error));
            },
        };
        let public_key = match with_length(data_field(&source, &["public_key", "publicKey"]), 32) {
            Some(key) => key,
            None => {
                return Err(other(NO_PUBLIC_KEY));
            },
        };
        let private_key = match with_length(
            data_field(&source, &["private_key", "privateKey"]),
            32,
        ) {
            Some(key) => key,
            None => {
                return Err(other(NO_PRIVATE_KEY));
            },
        };
        let identifier = string_field(&source, &["identifier", "host_identifier"]);
        let alt_irk = with_length(data_field(&source, &["alt_irk", "irk", "host_alt_irk"]), 16);
        Ok(ExternalRecord { public_key, private_key, identifier, alt_irk })
    }

    /// Settles the host's name and makes a pairing record of it, which takes keys
    /// that are keys.
    pub fn complete(self, local_identifier: Option<String>) -> (r: Result<PairingRecord, Error>)
        ensures
            match self@.completed(optional_view(local_identifier)) {
                None => r is Err && r->Err_0.says(NO_IDENTIFIER@),
                Some(record) => if record.is_valid() {
                    r is Ok && r->Ok_0@ == record
                } else {
                    r is Err && r->Err_0 is Idevice
                },
            },
    {
        let identifier = match self.identifier {
            Some(name) => name,
            None => match local_identifier {
                Some(name) => name,
                None => {
                    return Err(other(NO_IDENTIFIER));
                },
            },
        };
        let record = PairingRecord {
            public_key: self.public_key,
            private_key: self.private_key,
            identifier,
            alt_irk: self.alt_irk,
        };
        match record.to_bytes() {
            Ok(normalized) => PairingRecord::from_bytes(normalized.as_slice()),
            Err(error) => Err(error),
        }
    }
}

/// The pairing record of another tool's file, where the local identifier stands
/// in for one that the file does not give.
pub fn external_pairing_file_from_bytes(bytes: &[u8], local_identifier: Option<String>) -> (r:
    Result<PairingRecord, Error>)
    ensures
        if has_unreadable_date(bytes@) {
            r is Err && r->Err_0.says(UNREADABLE_DATE@)
        } else {
            match parsed_dictionary(bytes@) {
                None => r is Err && r->Err_0 is Plist,
                Some(entries) => match external_record(entries) {
                    Err(message) => r is Err && r->Err_0.says(message),
                    Ok(external) => match external.completed(optional_view(local_identifier)) {
                        None => r is Err && r->Err_0.says(NO_IDENTIFIER@),
                        Some(record) => if record.is_valid() {
                            r is Ok && r->Ok_0@ == record
                        } else {
                            r is Err && r->Err_0 is Idevice
                        },
                    },
                },
            }
        },
{
    match ExternalRecord::from_bytes(bytes) {
        Ok(external) => external.complete(local_identifier),
        Err(error) => Err(error),
    }
}

// ---------------------------------------------------------------- candidates

/// The data under the first of some keys that has any of a given length.
pub open spec fn first_sized(
    entries: Map<Seq<char>, plist::Value>,
    keys: Seq<&'static str>,
    len: nat,
) -> Option<Seq<u8>>
    decreases keys.len(),
{
    if keys.len() == 0 {
        None
    } else if of_length(data_entry(entries, keys.first()@), len) is Some {
        data_entry(entries, keys.first()@)
    } else {
        first_sized(entries, keys.drop_first(), len)
    }
}

/// The address key in the file of a peer. A file that cannot be read has none.
pub open spec fn peer_alt_irk(bytes: Seq<u8>) -> Option<Seq<u8>> {
    if has_unreadable_date(bytes) {
        None
    } else {
        match parsed_dictionary(bytes) {
            Some(entries) => first_sized(entries, seq!["irk", "altIRK", "alt_irk"], 16),
            None => None,
        }
    }
}

/// Whether a file beside the host's is one of a peer, which its extension tells.
pub fn is_peer_file(extension: Option<&str>) -> (r: bool)
    ensures
        r == (extension is Some && extension->0@ == "plist"@),
{
    match extension {
        Some(extension) => same_text(extension, "plist"),
        None => false,
    }
}

/// The bytes of some files.
pub open spec fn files(contents: Seq<&[u8]>) -> Seq<Seq<u8>> {
    contents.map_values(|b: &[u8]| b@)
}

/// The records to try for a host: the host's own without an address key, then one
/// for each peer that has one, in order.
pub open spec fn candidates(host: PairingRecordView, peers: Seq<Seq<u8>>) -> Seq<
    PairingRecordView,
> {
    seq![PairingRecordView { alt_irk: None, ..host }] + peers.filter(
        |bytes: Seq<u8>| peer_alt_irk(bytes) is Some,
    ).map_values(|bytes: Seq<u8>| PairingRecordView { alt_irk: peer_alt_irk(bytes), ..host })
}

fn read_peer_alt_irk(bytes: &[u8]) -> (r: Option<Vec<u8>>)
    ensures
        optional_bytes(r) == peer_alt_irk(bytes@),
{
    if holds_unreadable_date(bytes) {
        return None;
    }
    let peer = match dictionary_from_bytes(bytes) {
        Ok(peer) => peer,
        Err(_) => {
            return None;
        },
    };
    let ghost entries = dictionary_entries(peer);
    let keys: [&'static str; 3] = ["irk", "altIRK", "alt_irk"];
    let mut i: usize = 0;
    assert(keys@.skip(0) =~= seq!["irk", "altIRK", "alt_irk"]);
    while i < keys.len()
        invariant
            i <= keys.len(),
            entries == dictionary_entries(peer),
            !has_unreadable_date(bytes@),
            parsed_dictionary(bytes@) == Some(entries),
            first_sized(entries, keys@.skip(i as int), 16) == peer_alt_irk(bytes@),
        decreases keys.len() - i,
    {
        assert(keys@.skip(i as int).drop_first() =~= keys@.skip(i + 1));
        if let Some(value) = peer.get(keys[i]) {
            if let Some(data) = value.as_data() {
                if data.len() == 16 {
                    return Some(vec_of(data));
                }
            }
        }
        i += 1;
    }
    None
}

/// The records to try for a host whose own record has been read.
pub fn pairing_candidates(host: &PairingRecord, peer_bytes: &[&[u8]]) -> (r: Vec<PairingRecord>)
    ensures
        record_views(r@) == candidates(host@, files(peer_bytes@)),
{
    let ghost peers = files(peer_bytes@);
    let ghost has_key = |bytes: Seq<u8>| peer_alt_irk(bytes) is Some;
    let ghost make = |bytes: Seq<u8>|
        PairingRecordView { alt_irk: peer_alt_irk(bytes), ..host@ };
    let mut found: Vec<PairingRecord> = vec![host.with_alt_irk(None)];
    let ghost first = seq![PairingRecordView { alt_irk: None, ..host@ }];
    let mut i: usize = 0;
    assert(record_views(found@) =~= first + peers.take(0).filter(has_key).map_values(make)) by {
        reveal(Seq::filter);
    }
    while i < peer_bytes.len()
        invariant
            i <= peer_bytes.len(),
            peers == files(peer_bytes@),
            has_key == (|bytes: Seq<u8>| peer_alt_irk(bytes) is Some),
            make == (|bytes: Seq<u8>|
                PairingRecordView { alt_irk: peer_alt_irk(bytes), ..host@ }),
            record_views(found@) == first + peers.take(i as int).filter(has_key).map_values(make),
        decreases peer_bytes.len() - i,
    {
        let ghost before = found@;
        let ghost kept = peers.take(i as int).filter(has_key);
        proof {
            lemma_filter_grows(peers, i as int, has_key);
        }
        if let Some(irk) = read_peer_alt_irk(peer_bytes[i]) {
            let candidate = host.with_alt_irk(Some(irk));
            found.push(candidate);
            proof {
                assert(record_views(found@) =~= record_views(before).push(candidate@));
                assert(candidate@ == make(peers[i as int]));
                assert(kept.push(peers[i as int]).map_values(make) =~= kept.map_values(make).push(
                    make(peers[i as int]),
                ));
            }
        }
        i += 1;
    }
    assert(peers.take(i as int) =~= peers);
    found
}

/// The records to try for the host and the peers that these files are of.
pub fn native_pairing_candidates_from_bytes(
    host_bytes: &[u8],
    peer_bytes: &[&[u8]],
    local_identifier: Option<String>,
) -> (r: Result<Vec<PairingRecord>, Error>)
    ensures
        if has_unreadable_date(host_bytes@) {
            r is Err && r->Err_0.says(UNREADABLE_DATE@)
        } else {
            match parsed_dictionary(host_bytes@) {
                None => r is Err && r->Err_0 is Plist,
                Some(entries) => match external_record(entries) {
                    Err(message) => r is Err && r->Err_0.says(message),
                    Ok(external) => match external.completed(optional_view(local_identifier)) {
                        None => r is Err && r->Err_0.says(NO_IDENTIFIER@),
                        Some(host) => if host.is_valid() {
                            r is Ok && record_views(r->Ok_0@) == candidates(
                                host,
                                files(peer_bytes@),
                            )
                        } else {
                            r is Err && r->Err_0 is Idevice
                        },
                    },
                },
            }
        },
{
    match external_pairing_file_from_bytes(host_bytes, local_identifier) {
        Ok(host) => Ok(pairing_candidates(&host, peer_bytes)),
        Err(error) => Err(error),
    }
}

/// What a candidate is called: the path of the host's file for the first, and the
/// path of a peer's file for each later one as far as there are paths.
pub open spec fn candidate_label(index: int, host_path: Seq<char>, peer_paths: Seq<String>) -> Seq<
    char,
> {
    if 0 < index <= peer_paths.len() {
        peer_paths[index - 1]@
    } else {
        host_path
    }
}

pub fn candidate_source<'a>(index: usize, host_path: &'a str, peer_paths: &'a Vec<String>) -> (r:
    &'a str)
    ensures
        r@ == candidate_label(index as int, host_path@, peer_paths@),
{
    if index > 0 && index - 1 < peer_paths.len() {
        peer_paths[index - 1].as_str()
    } else {
        host_path
    }
}

/// The candidates of one host, each with what it is called.
pub fn label_candidates(
    host_path: &str,
    peer_paths: &Vec<String>,
    found: Vec<PairingRecord>,
) -> (r: Vec<(String, PairingRecord)>)
    ensures
        r.len() == found.len(),
        forall|i: int|
            0 <= i < found.len() ==> (#[trigger] r@[i]).1 == found@[i] && r@[i].0@
                == candidate_label(i, host_path@, peer_paths@),
{
    let mut labelled: Vec<(String, PairingRecord)> = Vec::new();
    for record in it: found
        invariant
            it.seq() == found@,
            labelled.len() == it.index(),
            forall|i: int|
                0 <= i < it.index() ==> (#[trigger] labelled@[i]).1 == found@[i]
                    && labelled@[i].0@ == candidate_label(i, host_path@, peer_paths@),
    {
        let index: usize = labelled.len();
        let source = candidate_source(index, host_path, peer_paths);
        labelled.push((source.to_string(), record));
    }
    labelled
}

// ---------------------------------------------------------------- laws

/// Every candidate is the host's own record but for the address key, the first
/// one has none, and every later one has one of 16 bytes.
pub proof fn lemma_candidates_share_host(host: PairingRecordView, peers: Seq<Seq<u8>>, at: int)
    requires
        0 <= at < candidates(host, peers).len(),
    ensures
        candidates(host, peers)[at] == (PairingRecordView {
            alt_irk: candidates(host, peers)[at].alt_irk,
            ..host
        }),
        candidates(host, peers)[at].alt_irk is None <==> at == 0,
        at > 0 ==> candidates(host, peers)[at].alt_irk->0.len() == 16,
{
    if at > 0 {
        let has_key = |bytes: Seq<u8>| peer_alt_irk(bytes) is Some;
        peers.lemma_filter_pred(has_key, at - 1);
        let bytes = peers.filter(has_key)[at - 1];
        lemma_sized(parsed_dictionary(bytes)->0, seq!["irk", "altIRK", "alt_irk"], 16);
    }
}

/// There is one candidate more than there are peers with an address key.
pub proof fn lemma_candidate_count(host: PairingRecordView, peers: Seq<Seq<u8>>)
    ensures
        candidates(host, peers).len() == 1 + peers.filter(
            |bytes: Seq<u8>| peer_alt_irk(bytes) is Some,
        ).len(),
        candidates(host, peers).len() <= 1 + peers.len(),
{
    peers.lemma_filter_len(|bytes: Seq<u8>| peer_alt_irk(bytes) is Some);
}

proof fn lemma_sized(entries: Map<Seq<char>, plist::Value>, keys: Seq<&'static str>, len: nat)
    ensures
        first_sized(entries, keys, len) is Some ==> first_sized(entries, keys, len)->0.len()
            == len,
    decreases keys.len(),
{
    if keys.len() > 0 {
        lemma_sized(entries, keys.drop_first(), len);
    }
}

/// What is read from another tool's file has 32 bytes of each key, and 16 bytes of
/// address key where it has one.
pub proof fn lemma_external_record_has_keys(entries: Map<Seq<char>, plist::Value>)
    ensures
        external_record(entries) is Ok ==> external_record(entries)->Ok_0.public_key.len() == 32
            && external_record(entries)->Ok_0.private_key.len() == 32 && (
        external_record(entries)->Ok_0.alt_irk is Some
            ==> external_record(entries)->Ok_0.alt_irk->0.len() == 16),
{
}

/// Whether some entries hold data under a key.
pub open spec fn holds_data(
    entries: Map<Seq<char>, plist::Value>,
    key: Seq<char>,
    data: Seq<u8>,
) -> bool {
    entries.contains_key(key) && value_data(entries[key]) == Some(data)
}

/// Whether some entries hold no data under a key.
pub open spec fn lacks_data(entries: Map<Seq<char>, plist::Value>, key: Seq<char>) -> bool {
    entries.contains_key(key) ==> value_data(entries[key]) is None
}

/// Whether some entries hold a text under a key.
pub open spec fn holds_text(
    entries: Map<Seq<char>, plist::Value>,
    key: Seq<char>,
    text: Seq<char>,
) -> bool {
    entries.contains_key(key) && value_text(entries[key]) == Some(text)
}

/// Entries are read as a record if and only if they hold two keys of thirty-two bytes,
/// the public one a key that is accepted, and the name of the host; the record then
/// has these, and the other key where there is one, of any length.
pub proof fn lemma_entries_of_record(
    entries: Map<Seq<char>, plist::Value>,
    record: PairingRecordView,
)
    ensures
        record_of(entries) == Some(record) <==> {
            &&& holds_data(entries, "public_key"@, record.public_key)
            &&& record.public_key.len() == 32
            &&& accepted_public_key(record.public_key)
            &&& holds_data(entries, "private_key"@, record.private_key)
            &&& record.private_key.len() == 32
            &&& holds_text(entries, "identifier"@, record.identifier)
            &&& match record.alt_irk {
                Some(key) => holds_data(entries, "alt_irk"@, key),
                None => lacks_data(entries, "alt_irk"@),
            }
        },
{
    if record_of(entries) is Some {
        let read = record_of(entries)->0;
        if read.public_key == record.public_key && read.private_key == record.private_key
            && read.identifier == record.identifier && read.alt_irk == record.alt_irk {
            assert(read == record);
        }
    }
}

/// What is spelled is a record just where it can be read as entries and these are.
pub proof fn lemma_record_is_spelled(bytes: Seq<u8>)
    ensures
        parsed_dictionary(bytes) is None ==> record_spelled(bytes) is None,
        parsed_dictionary(bytes) is Some ==> record_spelled(bytes) == record_of(
            parsed_dictionary(bytes)->0,
        ),
{
}

/// The keys of a record of another tool come under either of two names. The first
/// that holds data counts, and the key is there if and only if that data has
/// thirty-two bytes.
pub proof fn lemma_keys_of_external_record(entries: Map<Seq<char>, plist::Value>, data: Seq<u8>)
    ensures
        ({
            let public = external_public_key(entries);
            let private = external_private_key(entries);
            let lacks = |key: Seq<char>| lacks_data(entries, key);
            &&& holds_data(entries, "public_key"@, data) || (lacks("public_key"@) && holds_data(
                entries,
                "publicKey"@,
                data,
            )) ==> (data.len() == 32 ==> public == Some(data)) && (data.len() != 32
                ==> public is None)
            &&& lacks("public_key"@) && lacks("publicKey"@) ==> public is None
            &&& holds_data(entries, "private_key"@, data) || (lacks("private_key"@) && holds_data(
                entries,
                "privateKey"@,
                data,
            )) ==> (data.len() == 32 ==> private == Some(data)) && (data.len() != 32
                ==> private is None)
            &&& lacks("private_key"@) && lacks("privateKey"@) ==> private is None
        }),
{
    reveal_with_fuel(first_data, 3);
    let public: Seq<&'static str> = seq!["public_key", "publicKey"];
    assert(public.drop_first() =~= seq!["publicKey"]);
    let private: Seq<&'static str> = seq!["private_key", "privateKey"];
    assert(private.drop_first() =~= seq!["privateKey"]);
}

/// The name of the host comes under either of two names, and the key to resolve
/// addresses with under any of three; the first that holds one counts, though the key
/// only where it has sixteen bytes.
pub proof fn lemma_rest_of_external_record(
    entries: Map<Seq<char>, plist::Value>,
    text: Seq<char>,
    data: Seq<u8>,
)
    ensures
        ({
            let name = external_identifier(entries);
            let irk = external_alt_irk(entries);
            let silent = |key: Seq<char>| forall|t: Seq<char>| !holds_text(entries, key, t);
            let lacks = |key: Seq<char>| lacks_data(entries, key);
            &&& holds_text(entries, "identifier"@, text) || (silent("identifier"@) && holds_text(
                entries,
                "host_identifier"@,
                text,
            )) ==> name == Some(text)
            &&& silent("identifier"@) && silent("host_identifier"@) ==> name is None
            &&& holds_data(entries, "alt_irk"@, data) || (lacks("alt_irk"@) && holds_data(
                entries,
                "irk"@,
                data,
            )) || (lacks("alt_irk"@) && lacks("irk"@) && holds_data(entries, "host_alt_irk"@, data))
                ==> (data.len() == 16 ==> irk == Some(data)) && (data.len() != 16 ==> irk is None)
            &&& lacks("alt_irk"@) && lacks("irk"@) && lacks("host_alt_irk"@) ==> irk is None
        }),
{
    reveal_with_fuel(first_data, 4);
    reveal_with_fuel(first_string, 3);
    let names: Seq<&'static str> = seq!["identifier", "host_identifier"];
    assert(names.drop_first() =~= seq!["host_identifier"]);
    let own = text_entry(entries, "identifier"@);
    if own is Some {
        assert(holds_text(entries, "identifier"@, own->0));
    }
    let other = text_entry(entries, "host_identifier"@);
    if other is Some {
        assert(holds_text(entries, "host_identifier"@, other->0));
    }
    let keys: Seq<&'static str> = seq!["alt_irk", "irk", "host_alt_irk"];
    assert(keys.drop_first() =~= seq!["irk", "host_alt_irk"]);
    assert(keys.drop_first().drop_first() =~= seq!["host_alt_irk"]);
}

/// A record of another tool is taken if and only if it has both keys, and what it
/// lacks is told, the public key first; nothing else is asked of it.
pub proof fn lemma_external_record_needs_keys(entries: Map<Seq<char>, plist::Value>)
    ensures
        ({
            let record = external_record(entries);
            let public = external_public_key(entries);
            let private = external_private_key(entries);
            &&& record is Ok <==> public is Some && private is Some
            &&& record is Ok ==> record->Ok_0.public_key == public->0 && record->Ok_0.private_key
                == private->0 && record->Ok_0.identifier == external_identifier(entries)
                && record->Ok_0.alt_irk == external_alt_irk(entries)
            &&& public is None ==> record == Result::<ExternalRecordView, Seq<char>>::Err(
                "External pairing record has no valid public key"@,
            )
            &&& public is Some && private is None ==> record == Result::<
                ExternalRecordView,
                Seq<char>,
            >::Err("External pairing record has no valid private key"@)
        }),
{
}

/// A record keeps the name that it has; without one it is completed with that of the
/// host at hand, and without that it cannot be. Its keys are not touched.
pub proof fn lemma_completed_with_local_name(record: ExternalRecordView, local: Seq<char>)
    ensures
        record.completed(Some(local)) is Some,
        record.completed(None) is Some <==> record.identifier is Some,
        record.identifier is Some ==> record.completed(Some(local)) == record.completed(None)
            && record.completed(None)->0.identifier == record.identifier->0,
        record.identifier is None ==> record.completed(Some(local))->0.identifier == local,
        record.completed(Some(local))->0.public_key == record.public_key,
        record.completed(Some(local))->0.private_key == record.private_key,
        record.completed(Some(local))->0.alt_irk == record.alt_irk,
{
}

/// The key of a peer comes under any of three names; the first with sixteen bytes
/// counts, whatever stands under the others, and there is none in a file that cannot
/// be read.
pub proof fn lemma_key_of_peer(
    bytes: Seq<u8>,
    entries: Map<Seq<char>, plist::Value>,
    data: Seq<u8>,
)
    ensures
        parsed_dictionary(bytes) is None || has_unreadable_date(bytes) ==> peer_alt_irk(
            bytes,
        ) is None,
        parsed_dictionary(bytes) == Some(entries) && !has_unreadable_date(bytes) ==> {
            let key = peer_alt_irk(bytes);
            let fits = |name: Seq<char>|
                entries.contains_key(name) && value_data(entries[name]) is Some && value_data(
                    entries[name],
                )->0.len() == 16;
            &&& fits("irk"@) ==> key == value_data(entries["irk"@])
            &&& !fits("irk"@) && fits("altIRK"@) ==> key == value_data(entries["altIRK"@])
            &&& !fits("irk"@) && !fits("altIRK"@) && fits("alt_irk"@) ==> key == value_data(
                entries["alt_irk"@],
            )
            &&& !fits("irk"@) && !fits("altIRK"@) && !fits("alt_irk"@) ==> key is None
        },
{
    reveal_with_fuel(first_sized, 4);
    let keys: Seq<&'static str> = seq!["irk", "altIRK", "alt_irk"];
    assert(keys.drop_first() =~= seq!["altIRK", "alt_irk"]);
    assert(keys.drop_first().drop_first() =~= seq!["alt_irk"]);
}

/// The candidates are the record of the host itself and then one for each peer with a
/// key, in order and with that key: where these peers stand.
pub proof fn lemma_candidates_follow_peers(
    host: PairingRecordView,
    peers: Seq<Seq<u8>>,
) -> (places: Seq<int>)
    ensures
        candidates(host, peers).len() == 1 + places.len(),
        candidates(host, peers)[0] == (PairingRecordView { alt_irk: None, ..host }),
        forall|j: int|
            0 <= j < places.len() ==> 0 <= #[trigger] places[j] < peers.len() && peer_alt_irk(
                peers[places[j]],
            ) is Some && candidates(host, peers)[j + 1] == (PairingRecordView {
                alt_irk: peer_alt_irk(peers[places[j]]),
                ..host
            }),
        forall|j: int, k: int| 0 <= j < k < places.len() ==> places[j] < places[k],
        forall|i: int|
            0 <= i < peers.len() && peer_alt_irk(peers[i]) is Some ==> #[trigger] places.contains(i),
{
    lemma_filter_places(peers, |bytes: Seq<u8>| peer_alt_irk(bytes) is Some)
}

/// The first candidate is called by the file of the host, and each further one by the
/// file of a peer.
pub proof fn lemma_candidates_are_called(host_path: Seq<char>, peer_paths: Seq<String>, i: int)
    requires
        0 <= i < peer_paths.len(),
    ensures
        candidate_label(0, host_path, peer_paths) == host_path,
        candidate_label(i + 1, host_path, peer_paths) == peer_paths[i]@,
{
}

/// A record is valid if and only if both its keys have thirty-two bytes and its public
/// key is one that is accepted; every record that is read is, and so is every
/// candidate made of it.
pub proof fn lemma_read_record_is_valid(
    entries: Map<Seq<char>, plist::Value>,
    record: PairingRecordView,
    peers: Seq<Seq<u8>>,
    i: int,
)
    requires
        0 <= i < candidates(record, peers).len(),
    ensures
        record.is_valid() <==> record.public_key.len() == 32 && record.private_key.len() == 32
            && accepted_public_key(record.public_key),
        record_of(entries) == Some(record) ==> record.is_valid(),
        candidates(record, peers)[i].is_valid() == record.is_valid(),
{
    lemma_candidates_share_host(record, peers, i);
}

/// Records as bytes and characters have each part from the record itself, and of
/// several records there is one for each, in order.
pub proof fn lemma_records_as_bytes(records: Seq<PairingRecord>, i: int)
    requires
        0 <= i < records.len(),
    ensures
        record_views(records).len() == records.len(),
        record_views(records)[i].public_key == records[i].public_key@,
        record_views(records)[i].private_key == records[i].private_key@,
        record_views(records)[i].identifier == records[i].identifier@,
        match records[i].alt_irk {
            Some(key) => record_views(records)[i].alt_irk == Some(key@),
            None => record_views(records)[i].alt_irk is None,
        },
{
}

} // verus!
