//! Property lists: what the library reads from and writes to `plist` values.
use plist::Error as PlistError;
use vstd::prelude::*;
use crate::list_dates::has_unreadable_date;

verus! {

/// One property list value.
#[verifier::external_type_specification]
#[verifier::external_body]
pub struct ExValue(plist::Value);

/// A property list dictionary.
#[verifier::external_type_specification]
#[verifier::external_body]
pub struct ExDictionary(plist::Dictionary);

/// What reading or writing a property list fails with.
#[verifier::external_type_specification]
#[verifier::external_body]
pub struct ExPlistError(PlistError);

/// The characters that a value holds, where it is a string.
pub uninterp spec fn value_text(v: plist::Value) -> Option<Seq<char>>;

/// The bytes that a value holds, where it is data.
pub uninterp spec fn value_data(v: plist::Value) -> Option<Seq<u8>>;

/// The dictionary that a value holds, where it is one.
pub uninterp spec fn value_dictionary(v: plist::Value) -> Option<plist::Dictionary>;

/// The entries of a dictionary, each key by its characters.
pub uninterp spec fn dictionary_entries(d: plist::Dictionary) -> Map<Seq<char>, plist::Value>;

/// The entries of the dictionary that bytes spell as a property list of any
/// encoding; `None` where they spell none. It says nothing of bytes with a date that
/// cannot be read.
pub uninterp spec fn parsed_dictionary(bytes: Seq<u8>) -> Option<Map<Seq<char>, plist::Value>>;

/// The text under one key.
pub open spec fn text_entry(entries: Map<Seq<char>, plist::Value>, key: Seq<char>) -> Option<
    Seq<char>,
> {
    if entries.contains_key(key) {
        value_text(entries[key])
    } else {
        None
    }
}

/// The data under one key.
pub open spec fn data_entry(entries: Map<Seq<char>, plist::Value>, key: Seq<char>) -> Option<
    Seq<u8>,
> {
    if entries.contains_key(key) {
        value_data(entries[key])
    } else {
        None
    }
}

/// `plist::Value::as_string` gives the characters of a string value, and nothing
/// of any other value.
pub assume_specification[ plist::Value::as_string ](v: &plist::Value) -> (r: Option<&str>)
    ensures
        match r {
            Some(t) => value_text(*v) == Some(t@),
            None => value_text(*v) is None,
        },
;

/// `plist::Value::as_data` gives the bytes of a data value, and nothing of any
/// other value.
pub assume_specification[ plist::Value::as_data ](v: &plist::Value) -> (r: Option<&[u8]>)
    ensures
        match r {
            Some(b) => value_data(*v) == Some(b@),
            None => value_data(*v) is None,
        },
;

/// `plist::Value::as_dictionary` gives the dictionary of a dictionary value, and
/// nothing of any other value.
pub assume_specification[ plist::Value::as_dictionary ](v: &plist::Value) -> (r: Option<
    &plist::Dictionary,
>)
    ensures
        match r {
            Some(d) => value_dictionary(*v) == Some(*d),
            None => value_dictionary(*v) is None,
        },
;

/// `plist::Dictionary::new` makes a dictionary without entries.
pub assume_specification[ plist::Dictionary::new ]() -> (r: plist::Dictionary)
    ensures
        dictionary_entries(r).dom() == Set::<Seq<char>>::empty(),
;

/// `plist::Dictionary::get` looks one key up.
pub assume_specification<'a, 'b>[ plist::Dictionary::get ](
    d: &'a plist::Dictionary,
    key: &'b str,
) -> (r: Option<&'a plist::Value>)
    ensures
        match r {
            Some(v) => dictionary_entries(*d).contains_key(key@) && dictionary_entries(*d)[key@]
                == *v,
            None => !dictionary_entries(*d).contains_key(key@),
        },
;

/// `plist::Dictionary::insert` sets one key, gives back what it held before, and
/// leaves every other key as it was.
pub assume_specification[ plist::Dictionary::insert ](
    d: &mut plist::Dictionary,
    k: String,
    v: plist::Value,
) -> (r: Option<plist::Value>)
    ensures
        dictionary_entries(*final(d)) == dictionary_entries(*old(d)).insert(k@, v),
        r == (if dictionary_entries(*old(d)).contains_key(k@) {
            Some(dictionary_entries(*old(d))[k@])
        } else {
            None
        }),
;

/// `plist::Value::String`: the value that holds these characters.
#[verifier::external_body]
pub(crate) fn string_value(s: String) -> (r: plist::Value)
    ensures
        value_text(r) == Some(s@),
        value_data(r) is None,
        value_dictionary(r) is None,
{
    plist::Value::String(s)
}

/// `plist::Value::Data`: the value that holds these bytes.
#[verifier::external_body]
pub(crate) fn data_value(bytes: Vec<u8>) -> (r: plist::Value)
    ensures
        value_data(r) == Some(bytes@),
        value_text(r) is None,
        value_dictionary(r) is None,
{
    plist::Value::Data(bytes)
}

/// `plist::from_bytes`, read as a dictionary: succeeds exactly on bytes that
/// spell one, and gives its entries. It panics on some dates, which the bytes must
/// not hold: on one in XML that is outside the years 0 to 9999 in UTC, and on one
/// before year 0 in a binary list. Every date inside these years is taken to fit
/// into the system's own type for times.
#[verifier::external_body]
pub(crate) fn dictionary_from_bytes(bytes: &[u8]) -> (r: Result<plist::Dictionary, PlistError>)
    requires
        !has_unreadable_date(bytes@),
    ensures
        match r {
            Ok(d) => parsed_dictionary(bytes@) == Some(dictionary_entries(d)),
            Err(_) => parsed_dictionary(bytes@) is None,
        },
{
    plist::from_bytes::<plist::Dictionary>(bytes)
}

/// Whether every entry is a string or data.
pub open spec fn flat(entries: Map<Seq<char>, plist::Value>) -> bool {
    forall|k: Seq<char>| #[trigger]
        entries.contains_key(k) ==> value_text(entries[k]) is Some || value_data(entries[k]) is Some
}

/// Whether two sets of entries hold the same strings and data under the same keys.
pub open spec fn same_contents(
    a: Map<Seq<char>, plist::Value>,
    b: Map<Seq<char>, plist::Value>,
) -> bool {
    forall|k: Seq<char>|
        {
            &&& #[trigger] a.contains_key(k) == b.contains_key(k)
            &&& a.contains_key(k) ==> value_text(a[k]) == value_text(b[k]) && value_data(a[k])
                == value_data(b[k])
        }
}

/// `plist::to_writer_xml` into a vector: a dictionary of strings and data is
/// written, and what is written spells a dictionary of the same strings and data.
/// It holds no date, for nothing but keys, strings and data is written into it, with
/// every `<` in them escaped. A dictionary of anything else is left out: one with a
/// date before year 0 makes the call panic.
#[verifier::external_body]
pub(crate) fn dictionary_to_xml(d: &plist::Dictionary) -> (r: Result<Vec<u8>, PlistError>)
    requires
        flat(dictionary_entries(*d)),
    ensures
        r is Ok,
        !has_unreadable_date(r->Ok_0@),
        parsed_dictionary(r->Ok_0@) is Some,
        same_contents(parsed_dictionary(r->Ok_0@)->0, dictionary_entries(*d)),
{
    let mut bytes: Vec<u8> = Vec::new();
    plist::to_writer_xml(&mut bytes, d)?;
    Ok(bytes)
}

} // verus!
