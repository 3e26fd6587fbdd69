//! The names that this host goes by.
use vstd::prelude::*;
use vstd::utf8::{decode_utf8, valid_utf8};
use crate::pairing_file::{accepted_public_key, PairingRecord};
use crate::text::{
    lemma_trimmed_between_white_space, optional_view, to_ascii_uppercase, trim, trimmed, uppered,
    white_space,
};

verus! {

/// Whether a character is a hexadecimal digit, letters in lower case.
pub open spec fn lower_hex(c: char) -> bool {
    '0' <= c <= '9' || 'a' <= c <= 'f'
}

/// Whether a text is a hyphenated UUID in lower case.
pub open spec fn uuid_text(s: Seq<char>) -> bool {
    s.len() == 36 && forall|i: int|
        0 <= i < 36 ==> if i == 8 || i == 13 || i == 18 || i == 23 {
            #[trigger] s[i] == '-'
        } else {
            lower_hex(s[i])
        }
}

/// The hyphenated text of the version 3 UUID of a name in the DNS namespace.
pub uninterp spec fn dns_uuid_text(name: Seq<char>) -> Seq<char>;

/// `Uuid::new_v3` in the DNS namespace, written with `Uuid`'s `to_string`: a
/// hyphenated UUID in lower case that the name alone decides.
#[verifier::external_body]
fn dns_uuid(name: &str) -> (r: String)
    ensures
        r@ == dns_uuid_text(name@),
        uuid_text(r@),
{
    uuid::Uuid::new_v3(&uuid::Uuid::NAMESPACE_DNS, name.as_bytes()).to_string()
}

/// `Uuid::new_v4`, written with `Uuid`'s `to_string`: some hyphenated UUID in lower
/// case. Which one is left to chance.
#[verifier::external_body]
fn random_uuid() -> (r: String)
    ensures
        uuid_text(r@),
{
    uuid::Uuid::new_v4().to_string()
}

/// `Uuid::new_v4`, written with `simple`: 32 hexadecimal digits in lower case.
/// Which ones is left to chance.
#[verifier::external_body]
fn random_simple_uuid() -> (r: String)
    ensures
        r@.len() == 32,
        forall|i: int| 0 <= i < 32 ==> lower_hex(#[trigger] r@[i]),
{
    uuid::Uuid::new_v4().simple().to_string()
}

/// `String::from_utf8`: the characters that the bytes encode, or nothing where
/// they are not UTF-8.
#[verifier::external_body]
fn text_from_utf8(bytes: Vec<u8>) -> (r: Option<String>)
    ensures
        match r {
            Some(text) => valid_utf8(bytes@) && text@ == decode_utf8(bytes@),
            None => !valid_utf8(bytes@),
        },
{
    String::from_utf8(bytes).ok()
}

// ---------------------------------------------------------------- random names

/// The host name with the first six characters of an identifier.
pub open spec fn host_name_for(id: Seq<char>) -> Seq<char> {
    if id.len() < 6 {
        "plume-"@ + id
    } else {
        "plume-"@ + id.take(6)
    }
}

pub fn host_name(id: &str) -> (r: String)
    ensures
        r@ == host_name_for(id@),
{
    let mut name = "plume-".to_string();
    if id.unicode_len() < 6 {
        name.append(id);
    } else {
        name.append(id.substring_char(0, 6));
        assert(id@.subrange(0, 6) =~= id@.take(6));
    }
    name
}

/// A host name that is not likely to be in use.
pub fn random_host_name() -> (r: String)
    ensures
        r@.len() == "plume-"@.len() + 6,
        "plume-"@.is_prefix_of(r@),
        forall|i: int| "plume-"@.len() <= i < r@.len() ==> lower_hex(#[trigger] r@[i]),
{
    let id = random_simple_uuid();
    let name = host_name(id.as_str());
    assert(name@.subrange(0, "plume-"@.len() as int) =~= "plume-"@);
    name
}

/// An identifier that is not likely to be in use, in upper case.
pub fn random_upper_id() -> (r: String)
    ensures
        exists|id: Seq<char>| #[trigger] uuid_text(id) && r@ == uppered(id),
{
    let id = random_uuid();
    to_ascii_uppercase(id.as_str())
}

/// `RpPairingFile::generate`: a new key pair for a host, with the DNS name UUID of
/// the host as its identifier and without an address key. Which keys is left to
/// chance.
#[verifier::external_body]
fn generate_record(host: &str) -> (r: PairingRecord)
    ensures
        r@.is_valid(),
        accepted_public_key(r@.public_key),
        r@.identifier == dns_uuid_text(host@),
        r@.alt_irk is None,
{
    let file = idevice::remote_pairing::RpPairingFile::generate(host);
    PairingRecord {
        public_key: file.public_key_bytes(),
        private_key: file.private_key_bytes(),
        identifier: file.identifier,
        alt_irk: file.alt_irk,
    }
}

/// A new pairing record, and the name of the host that it is for.
pub fn new_pairing_identity() -> (r: (PairingRecord, String))
    ensures
        r.0@.is_valid(),
        accepted_public_key(r.0@.public_key),
        r.0@.identifier == dns_uuid_text(r.1@),
        r.0@.alt_irk is None,
        r.1@.len() == "plume-"@.len() + 6,
        "plume-"@.is_prefix_of(r.1@),
        forall|i: int| "plume-"@.len() <= i < r.1@.len() ==> lower_hex(#[trigger] r.1@[i]),
{
    let host = random_host_name();
    let record = generate_record(host.as_str());
    (record, host)
}

// ---------------------------------------------------------------- the local name

/// The name of this host: what the environment says where that is not blank, else
/// what the name command printed, without white space around it.
pub open spec fn local_host_name(
    environment: Option<Seq<char>>,
    printed: Option<Seq<u8>>,
) -> Option<Seq<char>> {
    if environment is Some && trimmed(environment->0).len() > 0 {
        environment
    } else if printed is Some && valid_utf8(printed->0) && trimmed(decode_utf8(printed->0)).len()
        > 0 {
        Some(trimmed(decode_utf8(printed->0)))
    } else {
        None
    }
}

/// The bytes that a command printed, where it ran.
pub open spec fn printed_bytes(printed: Option<Vec<u8>>) -> Option<Seq<u8>> {
    match printed {
        Some(bytes) => Some(bytes@),
        None => None,
    }
}

/// Whether the environment says what this host is called, so that the name command
/// need not be run.
pub fn environment_names_host(environment: &Option<String>) -> (r: bool)
    ensures
        r == (*environment is Some && trimmed(optional_view(*environment)->0).len() > 0),
{
    match environment {
        Some(name) => !trim(name.as_str()).is_empty(),
        None => false,
    }
}

/// The identifier of this host in pairing records that do not name their host:
/// the UUID of its name in upper case. `environment` is the host name variable,
/// and `printed` is what the name command printed if it succeeded.
pub fn local_remote_pairing_identifier(environment: Option<String>, printed: Option<Vec<u8>>) -> (r:
    Option<String>)
    ensures
        optional_view(r) == (match local_host_name(
            optional_view(environment),
            printed_bytes(printed),
        ) {
            Some(name) => Some(uppered(dns_uuid_text(name))),
            None => None,
        }),
{
    if let Some(name) = environment {
        if !trim(name.as_str()).is_empty() {
            let id = dns_uuid(name.as_str());
            return Some(to_ascii_uppercase(id.as_str()));
        }
    }
    if let Some(bytes) = printed {
        if let Some(text) = text_from_utf8(bytes) {
            let name = trim(text.as_str());
            if !name.is_empty() {
                let id = dns_uuid(name);
                return Some(to_ascii_uppercase(id.as_str()));
            }
        }
    }
    None
}

// ---------------------------------------------------------------- laws

/// Where the environment says what this host is called, what the name command
/// prints makes no difference.
pub proof fn lemma_environment_decides(
    environment: Seq<char>,
    first: Option<Seq<u8>>,
    second: Option<Seq<u8>>,
)
    requires
        trimmed(environment).len() > 0,
    ensures
        local_host_name(Some(environment), first) == local_host_name(Some(environment), second),
{
}

/// The host name made from an identifier is its first six characters, or all of a
/// shorter one, after the name of the program.
pub proof fn lemma_host_name_made_of_identifier(id: Seq<char>)
    ensures
        ({
            let name = host_name_for(id);
            &&& "plume-"@.is_prefix_of(name)
            &&& name.skip(6).is_prefix_of(id)
            &&& id.len() >= 6 ==> name.len() == 12
            &&& id.len() < 6 ==> name.skip(6) == id
        }),
{
    reveal_strlit("plume-");
    let name = host_name_for(id);
    assert(name.subrange(0, 6) =~= "plume-"@);
    assert(name.skip(6) =~= id.subrange(0, name.len() - 6));
    if id.len() < 6 {
        assert(name.skip(6) =~= id);
    }
}

/// A host name that the environment gives is taken as it is, unless it is nothing but
/// white space. Otherwise what was printed is taken, as text and without the white
/// space at its ends, unless nothing is left of it; and otherwise there is none.
pub proof fn lemma_where_host_name_comes_from(
    environment: Option<Seq<char>>,
    printed: Option<Seq<u8>>,
)
    ensures
        ({
            let name = local_host_name(environment, printed);
            let given = environment is Some && exists|i: int|
                0 <= i < environment->0.len() && !white_space(#[trigger] environment->0[i]);
            let shown = printed is Some && valid_utf8(printed->0) && exists|i: int|
                0 <= i < decode_utf8(printed->0).len() && !white_space(
                    #[trigger] decode_utf8(printed->0)[i],
                );
            &&& given ==> name == environment
            &&& !given && shown ==> name == Some(trimmed(decode_utf8(printed->0)))
            &&& !given && !shown ==> name is None
        }),
{
    if environment is Some {
        lemma_something_is_left(environment->0);
    }
    if printed is Some && valid_utf8(printed->0) {
        lemma_something_is_left(decode_utf8(printed->0));
    }
}

/// Something is left of a text without the white space at its ends just where it
/// holds anything but white space.
proof fn lemma_something_is_left(s: Seq<char>)
    ensures
        trimmed(s).len() > 0 <==> exists|i: int| 0 <= i < s.len() && !white_space(#[trigger] s[i]),
{
    lemma_trimmed_between_white_space(s);
    let (from, to) = choose|from: int, to: int|
        {
            &&& 0 <= from <= to <= s.len()
            &&& trimmed(s) == #[trigger] s.subrange(from, to)
            &&& forall|i: int| 0 <= i < from ==> white_space(#[trigger] s[i])
            &&& forall|i: int| to <= i < s.len() ==> white_space(#[trigger] s[i])
            &&& from < to ==> !white_space(s[from]) && !white_space(s[to - 1])
        };
    if from < to {
        assert(!white_space(s[from]));
    }
}

} // verus!
