//! Where the pairing record of a device is kept, and how it is written there.
use std::path::PathBuf;
use vstd::prelude::*;
use crate::device::Device;
use crate::error::{other, Error};
use crate::text::{chars_of, contains_char};

verus! {

/// The place of a device's pairing record: a file in a directory.
#[derive(Debug, Clone)]
pub struct PairingCachePath {
    pub directory: PathBuf,
    pub file_name: String,
}

/// The text that `str`'s `Debug` writes: the characters in quotes, some of them
/// escaped.
pub uninterp spec fn debug_text(s: Seq<char>) -> Seq<char>;

/// `format!` with `{:?}` on a text.
#[verifier::external_body]
fn quoted(s: &str) -> (r: String)
    ensures
        r@ == debug_text(s@),
{
    format!("{s:?}")
}

/// What a record is kept under: the pairing identity, else the identifier.
pub open spec fn cache_key(pairing_identity: Option<Seq<char>>, udid: Seq<char>) -> Seq<char> {
    match pairing_identity {
        Some(identity) => identity,
        None => udid,
    }
}

/// Whether a key can be part of a file name: it is not empty, does not lead out of
/// the directory, and is not made of dots alone.
pub open spec fn valid_key(key: Seq<char>) -> bool {
    &&& key.len() > 0
    &&& !key.contains('/')
    &&& !key.contains('\\')
    &&& !key.contains(':')
    &&& exists|i: int| 0 <= i < key.len() && #[trigger] key[i] != '.'
}

/// The name of the file that a key's record is in.
pub open spec fn record_file_name(key: Seq<char>) -> Seq<char> {
    "plume_"@ + key + ".plist"@
}

pub const NO_KEY: &'static str =
    "Device has neither a pairing identity nor a UDID; cannot locate its pairing file cache";

/// What is said of a key that cannot be part of a file name.
pub open spec fn key_refusal(key: Seq<char>) -> Seq<char> {
    "Pairing identity "@ + debug_text(key) + " is not a valid cache key"@
}

/// Whether a text is made of dots alone.
fn only_dots(s: &str) -> (r: bool)
    ensures
        r == !(exists|i: int| 0 <= i < s@.len() && #[trigger] s@[i] != '.'),
{
    let x: Vec<char> = chars_of(s);
    let mut i: usize = 0;
    while i < x.len()
        invariant
            x@ == s@,
            i <= x.len(),
            forall|k: int| 0 <= k < i ==> s@[k] == '.',
        decreases x.len() - i,
    {
        if x[i] != '.' {
            assert(s@[i as int] != '.');
            return false;
        }
        i += 1;
    }
    true
}

/// The name of the file that the record of any key is in.
pub fn file_name_for(key: &str) -> (r: String)
    ensures
        r@ == record_file_name(key@),
{
    let mut name = "plume_".to_string();
    name.append(key);
    name.append(".plist");
    name
}

/// The place of the pairing record of a device with this pairing identity or this
/// identifier.
pub fn pairing_cache_path_for(
    pairing_identity: Option<&str>,
    udid: &str,
    cache_dir: &PathBuf,
) -> (r: Result<PairingCachePath, Error>)
    ensures
        ({
            let key = cache_key(
                match pairing_identity {
                    Some(identity) => Some(identity@),
                    None => None,
                },
                udid@,
            );
            if key.len() == 0 {
                r is Err && r->Err_0.says(NO_KEY@)
            } else if !valid_key(key) {
                r is Err && r->Err_0.says(key_refusal(key))
            } else {
                r is Ok && r->Ok_0.wf() && r->Ok_0.directory == *cache_dir
                    && r->Ok_0.file_name@ == record_file_name(key)
            }
        }),
{
    let key = match pairing_identity {
        Some(identity) => identity,
        None => udid,
    };
    if key.is_empty() {
        return Err(other(NO_KEY));
    }
    if contains_char(key, '/') || contains_char(key, '\\') || contains_char(key, ':')
        || only_dots(key) {
        let mut message = "Pairing identity ".to_string();
        message.append(quoted(key).as_str());
        message.append(" is not a valid cache key");
        return Err(Error::Other(message));
    }
    proof {
        lemma_record_names_a_file(key@);
    }
    Ok(PairingCachePath { directory: cache_dir.clone(), file_name: file_name_for(key) })
}

impl Device {
    /// The place of this device's pairing record.
    pub fn pairing_cache_path(&self, cache_dir: &PathBuf) -> (r: Result<PairingCachePath, Error>)
        ensures
            ({
                let key = cache_key(self@.pairing_identity, self@.udid);
                if key.len() == 0 {
                    r is Err && r->Err_0.says(NO_KEY@)
                } else if !valid_key(key) {
                    r is Err && r->Err_0.says(key_refusal(key))
                } else {
                    r is Ok && r->Ok_0.wf() && r->Ok_0.directory == *cache_dir
                        && r->Ok_0.file_name@ == record_file_name(key)
                }
            }),
    {
        let identity: Option<&str> = match &self.pairing_identity {
            Some(identity) => Some(identity.as_str()),
            None => None,
        };
        pairing_cache_path_for(identity, self.udid.as_str(), cache_dir)
    }
}

impl Device {
    /// The place of the record that a device on a cable is paired with for the
    /// network. It goes by the identifier alone.
    pub fn rsd_pairing_path(&self, directory: PathBuf) -> (r: PairingCachePath)
        ensures
            r.wf(),
            r.directory == directory,
            r.file_name@ == record_file_name(self@.udid),
    {
        proof {
            lemma_record_names_a_file(self@.udid);
        }
        PairingCachePath { directory, file_name: file_name_for(self.udid.as_str()) }
    }
}

// ---------------------------------------------------------------- writing

/// The permissions of a directory that only its owner may use.
pub const OWNER_DIRECTORY_MODE: u32 = 0o700;

/// The permissions of a file that only its owner may read and write.
pub const OWNER_FILE_MODE: u32 = 0o600;

/// One step of writing a pairing record.
#[derive(Debug, Clone, Copy, PartialEq, Eq, Structural)]
pub enum StorageStep {
    /// Make the directory and those above it.
    CreateDirectory,
    /// Give the directory these permissions.
    RestrictDirectory(u32),
    /// Write the record under its temporary name.
    WriteTemporary,
    /// Give the file with the temporary name these permissions.
    RestrictTemporary(u32),
    /// Give the file its own name.
    Rename,
    /// Give the file with its own name these permissions.
    RestrictRecord(u32),
}

/// The steps in which a record is written, where files have permissions and where
/// they do not.
pub open spec fn storage_plan(has_permissions: bool) -> Seq<StorageStep> {
    if has_permissions {
        seq![
            StorageStep::CreateDirectory,
            StorageStep::RestrictDirectory(OWNER_DIRECTORY_MODE),
            StorageStep::WriteTemporary,
            StorageStep::RestrictTemporary(OWNER_FILE_MODE),
            StorageStep::Rename,
            StorageStep::RestrictRecord(OWNER_FILE_MODE),
        ]
    } else {
        seq![StorageStep::CreateDirectory, StorageStep::WriteTemporary, StorageStep::Rename]
    }
}

pub fn storage_steps(has_permissions: bool) -> (r: Vec<StorageStep>)
    ensures
        r@ == storage_plan(has_permissions),
{
    if has_permissions {
        vec![
            StorageStep::CreateDirectory,
            StorageStep::RestrictDirectory(OWNER_DIRECTORY_MODE),
            StorageStep::WriteTemporary,
            StorageStep::RestrictTemporary(OWNER_FILE_MODE),
            StorageStep::Rename,
            StorageStep::RestrictRecord(OWNER_FILE_MODE),
        ]
    } else {
        vec![StorageStep::CreateDirectory, StorageStep::WriteTemporary, StorageStep::Rename]
    }
}

/// Where the last of some characters in a text is, or -1.
pub open spec fn last_place(text: Seq<char>, c: char) -> int
    decreases text.len(),
{
    if text.len() == 0 {
        -1
    } else if text.last() == c {
        text.len() - 1
    } else {
        last_place(text.drop_last(), c)
    }
}

/// The last part of a file name, which may lead through directories. Parts are
/// separated by `/`.
pub open spec fn last_part(file_name: Seq<char>) -> Seq<char> {
    file_name.skip(last_place(file_name, '/') + 1)
}

/// A file name without its extension: without the last dot in its last part and
/// what follows it, unless that part begins with this dot.
pub open spec fn without_extension(file_name: Seq<char>) -> Seq<char> {
    let dot = last_place(file_name, '.');
    if dot > last_place(file_name, '/') + 1 {
        file_name.take(dot)
    } else {
        file_name
    }
}

/// The name under which a record is written before it gets its own: the same with
/// `plist.tmp` as its extension.
pub open spec fn temporary_name(file_name: Seq<char>) -> Seq<char> {
    without_extension(file_name) + ".plist.tmp"@
}

/// How many characters there are up to the last one that is `c`, this one
/// included.
fn length_to_last(text: &[char], c: char) -> (r: usize)
    ensures
        r == last_place(text@, c) + 1,
        r <= text.len(),
{
    let mut n: usize = text.len();
    assert(text@.take(n as int) =~= text@);
    while n > 0
        invariant
            n <= text.len(),
            last_place(text@.take(n as int), c) == last_place(text@, c),
        decreases n,
    {
        assert(text@.take(n as int).drop_last() =~= text@.take(n - 1));
        if text[n - 1] == c {
            return n;
        }
        n -= 1;
    }
    0
}

impl PairingCachePath {
    /// Whether the last part of the file name names a file.
    pub open spec fn wf(self) -> bool {
        let part = last_part(self.file_name@);
        part.len() > 0 && part != "."@ && part != ".."@
    }

    /// The name under which a record is written before it gets its own.
    pub fn temporary_file_name(&self) -> (r: String)
        requires
            self.wf(),
        ensures
            r@ == temporary_name(self.file_name@),
    {
        let file_name = self.file_name.as_str();
        let x: Vec<char> = chars_of(file_name);
        let part: usize = length_to_last(x.as_slice(), '/');
        let dot: usize = length_to_last(x.as_slice(), '.');
        let kept = if dot > 0 && dot - 1 > part {
            file_name.substring_char(0, dot - 1)
        } else {
            file_name
        };
        let mut name = kept.to_string();
        name.append(".plist.tmp");
        assert(name@ =~= temporary_name(self.file_name@));
        name
    }
}

proof fn lemma_last_place(text: Seq<char>, c: char)
    ensures
        -1 <= last_place(text, c) < text.len(),
        last_place(text, c) >= 0 ==> text[last_place(text, c)] == c,
        forall|i: int| last_place(text, c) < i < text.len() ==> text[i] != c,
    decreases text.len(),
{
    if text.len() > 0 && text.last() != c {
        lemma_last_place(text.drop_last(), c);
        assert forall|i: int| last_place(text, c) < i < text.len() implies text[i] != c by {
            if i < text.len() - 1 {
                assert(text.drop_last()[i] == text[i]);
            }
        }
    }
}

proof fn lemma_record_names_a_file(key: Seq<char>)
    ensures
        last_place(record_file_name(key), '/') < record_file_name(key).len() - 6,
        last_place(record_file_name(key), '.') == record_file_name(key).len() - 6,
        last_part(record_file_name(key)).len() >= 6,
        last_part(record_file_name(key)) != "."@,
        last_part(record_file_name(key)) != ".."@,
{
    reveal_strlit(".plist");
    reveal_strlit(".");
    reveal_strlit("..");
    let name = record_file_name(key);
    let end = name.len() - 6;
    assert forall|i: int| end <= i < name.len() implies name[i] == ".plist"@[i - end] by {}
    lemma_last_place(name, '/');
    lemma_last_place(name, '.');
    assert(name[end] == '.');
    assert(name[end + 1] == 'p' && name[end + 2] == 'l' && name[end + 3] == 'i' && name[end + 4]
        == 's' && name[end + 5] == 't');
    assert(last_part(name).len() >= 6 && "."@.len() == 1 && ".."@.len() == 2);
}

// ---------------------------------------------------------------- laws

/// A record is written under its own name with `.tmp` after it, unless its key ends
/// in a separator. Then there is no name before the extension, and `.plist.tmp`
/// comes after the whole.
pub proof fn lemma_temporary_name_of_record(key: Seq<char>)
    ensures
        temporary_name(record_file_name(key)) == record_file_name(key) + (if key.len() > 0
            && key.last() == '/' {
            ".plist.tmp"@
        } else {
            ".tmp"@
        }),
{
    lemma_record_names_a_file(key);
    reveal_strlit("plume_");
    reveal_strlit(".plist");
    reveal_strlit(".tmp");
    reveal_strlit(".plist.tmp");
    let name = record_file_name(key);
    let dot = name.len() - 6;
    lemma_last_place(name, '/');
    assert(".plist.tmp"@ =~= ".plist"@ + ".tmp"@);
    if key.len() > 0 {
        assert(name[dot - 1] == key.last());
    } else {
        assert(name[dot - 1] == "plume_"@[5]);
    }
    if !(key.len() > 0 && key.last() == '/') {
        assert(name.take(dot) + ".plist"@ =~= name);
        assert(temporary_name(name) =~= name + ".tmp"@);
    }
}

/// A record is never written under its own name before it is complete.
pub proof fn lemma_temporary_name_differs(key: Seq<char>)
    ensures
        temporary_name(record_file_name(key)) != record_file_name(key),
{
    lemma_temporary_name_of_record(key);
    reveal_strlit(".tmp");
    reveal_strlit(".plist.tmp");
}

/// The records of two keys are in two files.
pub proof fn lemma_keys_have_their_own_files(first: Seq<char>, second: Seq<char>)
    requires
        first != second,
    ensures
        record_file_name(first) != record_file_name(second),
{
    let (a, b) = (record_file_name(first), record_file_name(second));
    let start = "plume_"@.len() as int;
    if a == b {
        assert(a.len() == b.len());
        assert(first.len() == second.len());
        assert(a.subrange(start, start + first.len()) =~= first);
        assert(b.subrange(start, start + second.len()) =~= second);
    }
}

/// The file of a valid key stays in its directory: its name has no separator in it
/// and is neither `.` nor `..`.
pub proof fn lemma_record_stays_in_directory(key: Seq<char>)
    requires
        valid_key(key),
    ensures
        !record_file_name(key).contains('/'),
        !record_file_name(key).contains('\\'),
        !record_file_name(key).contains(':'),
        record_file_name(key) != "."@,
        record_file_name(key) != ".."@,
{
    reveal_strlit("plume_");
    reveal_strlit(".plist");
    reveal_strlit(".");
    reveal_strlit("..");
    let name = record_file_name(key);
    assert(name.len() == 12 + key.len());
    assert forall|i: int| 0 <= i < name.len() implies name[i] != '/' && name[i] != '\\' && name[i]
        != ':' by {
        if i < 6 {
            assert(name[i] == "plume_"@[i]);
        } else if i < 6 + key.len() {
            assert(name[i] == key[i - 6]);
            assert(key.contains(key[i - 6]));
        } else {
            assert(name[i] == ".plist"@[i - 6 - key.len()]);
        }
    }
}

/// Where files have permissions, a record gets its own name only after it has been
/// closed to everyone but its owner, in a directory that has been closed too.
pub proof fn lemma_record_is_closed_before_it_is_named(rename: int)
    requires
        0 <= rename < storage_plan(true).len(),
        storage_plan(true)[rename] == StorageStep::Rename,
    ensures
        exists|i: int|
            0 <= i < rename && #[trigger] storage_plan(true)[i] == StorageStep::RestrictTemporary(
                OWNER_FILE_MODE,
            ),
        exists|i: int|
            0 <= i < rename && #[trigger] storage_plan(true)[i] == StorageStep::RestrictDirectory(
                OWNER_DIRECTORY_MODE,
            ),
{
    assert(storage_plan(true)[1] == StorageStep::RestrictDirectory(OWNER_DIRECTORY_MODE));
    assert(storage_plan(true)[3] == StorageStep::RestrictTemporary(OWNER_FILE_MODE));
}

/// A record is kept under the pairing identity wherever there is one, even an empty
/// one, and under the identifier only else.
pub proof fn lemma_kept_under_identity(identity: Seq<char>, udid: Seq<char>)
    ensures
        cache_key(Some(identity), udid) == identity,
        cache_key(None, udid) == udid,
{
}

/// A key will do for a file name if and only if none of its characters is a slash, a
/// backslash or a colon and at least one is not a dot.
pub proof fn lemma_key_will_do(key: Seq<char>)
    ensures
        valid_key(key) <==> (forall|i: int|
            0 <= i < key.len() ==> #[trigger] key[i] != '/' && key[i] != '\\' && key[i] != ':') && (
        exists|i: int| 0 <= i < key.len() && #[trigger] key[i] != '.'),
{
    if forall|i: int|
        0 <= i < key.len() ==> #[trigger] key[i] != '/' && key[i] != '\\' && key[i] != ':' {
        assert(!key.contains('/'));
        assert(!key.contains('\\'));
        assert(!key.contains(':'));
    }
    if valid_key(key) {
        assert forall|i: int| 0 <= i < key.len() implies #[trigger] key[i] != '/' && key[i] != '\\'
            && key[i] != ':' by {
            assert(key.contains(key[i]));
        }
    }
}

/// The file of a key holds the whole key between its beginning and its ending.
pub proof fn lemma_file_named_by_key(key: Seq<char>)
    ensures
        ({
            let name = record_file_name(key);
            &&& name.len() == 6 + key.len() + 6
            &&& name.take(6) == "plume_"@
            &&& name.subrange(6, 6 + key.len() as int) == key
            &&& name.skip(6 + key.len() as int) == ".plist"@
        }),
{
    reveal_strlit("plume_");
    reveal_strlit(".plist");
    let name = record_file_name(key);
    assert(name.take(6) =~= "plume_"@);
    assert(name.subrange(6, 6 + key.len() as int) =~= key);
    assert(name.skip(6 + key.len() as int) =~= ".plist"@);
}

/// What is said of a key that will not do holds the key, in quotes.
pub proof fn lemma_refused_key_is_told(key: Seq<char>)
    ensures
        ({
            let text = key_refusal(key);
            let start = "Pairing identity "@.len() as int;
            &&& "Pairing identity "@.is_prefix_of(text)
            &&& text.subrange(start, start + debug_text(key).len() as int) == debug_text(key)
            &&& text.skip(start + debug_text(key).len() as int) == " is not a valid cache key"@
        }),
{
    let text = key_refusal(key);
    let start = "Pairing identity "@.len() as int;
    assert(text.subrange(0, start) =~= "Pairing identity "@);
    assert(text.subrange(start, start + debug_text(key).len() as int) =~= debug_text(key));
    assert(text.skip(start + debug_text(key).len() as int) =~= " is not a valid cache key"@);
}

/// A record is stored by making the directory, writing the record under its temporary
/// name and giving it its own, in this order. Where there are permissions, the
/// directory, the new file and the named file are each closed to others as soon as
/// they are there; where there are none, nothing more is done.
pub proof fn lemma_record_is_stored_in_order()
    ensures
        ({
            let open = storage_plan(false);
            let closed = storage_plan(true);
            &&& open.len() == 3
            &&& open[0] is CreateDirectory && open[1] is WriteTemporary && open[2] is Rename
            &&& closed.len() == 6
            &&& closed[0] is CreateDirectory && closed[2] is WriteTemporary && closed[4] is Rename
            &&& closed[1] == StorageStep::RestrictDirectory(448)
            &&& closed[3] == StorageStep::RestrictTemporary(384)
            &&& closed[5] == StorageStep::RestrictRecord(384)
        }),
{
}

/// The last place of a character holds it, and no place after that does; without any
/// place no character is it.
pub proof fn lemma_last_place_is_last(text: Seq<char>, c: char)
    ensures
        -1 <= last_place(text, c) < text.len(),
        last_place(text, c) >= 0 ==> text[last_place(text, c)] == c,
        forall|i: int| last_place(text, c) < i < text.len() ==> #[trigger] text[i] != c,
    decreases text.len(),
{
    if text.len() > 0 && text.last() != c {
        let shorter = text.drop_last();
        lemma_last_place_is_last(shorter, c);
        assert forall|i: int| last_place(text, c) < i < text.len() implies #[trigger] text[i] != c by {
            if i < shorter.len() {
                assert(shorter[i] == text[i]);
            }
        }
        if last_place(shorter, c) >= 0 {
            assert(shorter[last_place(shorter, c)] == text[last_place(shorter, c)]);
        }
    }
}

/// The last part of a file name is its end, holds no slash, and has a slash or nothing
/// before it.
pub proof fn lemma_last_part_of_name(name: Seq<char>)
    ensures
        last_part(name).is_suffix_of(name),
        !last_part(name).contains('/'),
        last_part(name).len() < name.len() ==> name[name.len() - last_part(name).len() - 1] == '/',
{
    lemma_last_place_is_last(name, '/');
    let part = last_part(name);
    assert(name.subrange(name.len() - part.len(), name.len() as int) =~= part);
}

/// The temporary name of a file takes the place of the ending after the last dot,
/// unless that dot begins the name; a name without an ending is kept whole.
pub proof fn lemma_temporary_name_replaces_ending(stem: Seq<char>, ending: Seq<char>)
    requires
        !ending.contains('.'),
        !ending.contains('/'),
    ensures
        stem.len() > 0 && stem.last() != '/' ==> temporary_name(stem.push('.') + ending) == stem
            + ".plist.tmp"@,
        stem.len() == 0 || stem.last() == '/' ==> temporary_name(stem.push('.') + ending)
            == stem.push('.') + ending + ".plist.tmp"@,
        stem.len() == 0 || stem.last() == '/' ==> temporary_name(stem + ending) == stem + ending
            + ".plist.tmp"@,
{
    let name = stem.push('.') + ending;
    let dot = last_place(name, '.');
    let slash = last_place(name, '/');
    lemma_last_place_is_last(name, '.');
    lemma_last_place_is_last(name, '/');
    assert(name[stem.len() as int] == '.');
    assert(dot == stem.len()) by {
        if dot > stem.len() {
            assert(name[dot] == ending[dot - stem.len() - 1]);
            assert(ending.contains(name[dot]));
        }
    }
    assert(slash < stem.len()) by {
        if slash > stem.len() {
            assert(name[slash] == ending[slash - stem.len() - 1]);
            assert(ending.contains(name[slash]));
        }
    }
    if stem.len() > 0 {
        assert(name[stem.len() - 1] == stem.last());
        assert(stem.last() == '/' ==> slash == stem.len() - 1);
    }
    assert(name.take(dot) =~= stem);
    if stem.len() == 0 || stem.last() == '/' {
        let plain = stem + ending;
        lemma_last_place_is_last(plain, '.');
        lemma_last_place_is_last(plain, '/');
        let d = last_place(plain, '.');
        if d >= stem.len() {
            assert(plain[d] == ending[d - stem.len()]);
            assert(ending.contains(plain[d]));
        }
        if stem.len() > 0 {
            assert(plain[stem.len() - 1] == '/');
        }
    }
}

} // verus!
