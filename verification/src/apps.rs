//! Apps that a device has installed.
use vstd::prelude::*;
use crate::property_list::{dictionary_entries, text_entry, value_dictionary, value_text};
use crate::text::{optional_view, same_optional_text};

verus! {

/// The name of an app: the one it is shown under, else that of its bundle, else
/// that of its executable.
pub open spec fn app_name(info: plist::Value) -> Option<Seq<char>> {
    match value_dictionary(info) {
        None => None,
        Some(dict) => {
            let entries = dictionary_entries(dict);
            if text_entry(entries, "CFBundleDisplayName"@) is Some {
                text_entry(entries, "CFBundleDisplayName"@)
            } else if text_entry(entries, "CFBundleName"@) is Some {
                text_entry(entries, "CFBundleName"@)
            } else {
                text_entry(entries, "CFBundleExecutable"@)
            }
        },
    }
}

fn string_entry(dict: &plist::Dictionary, key: &str) -> (r: Option<String>)
    ensures
        optional_view(r) == text_entry(dictionary_entries(*dict), key@),
{
    match dict.get(key) {
        Some(value) => match value.as_string() {
            Some(text) => Some(text.to_string()),
            None => None,
        },
        None => None,
    }
}

pub fn get_app_name_from_info(info: &plist::Value) -> (r: Option<String>)
    ensures
        optional_view(r) == app_name(*info),
{
    let dict = match info.as_dictionary() {
        Some(dict) => dict,
        None => {
            return None;
        },
    };
    let shown = string_entry(dict, "CFBundleDisplayName");
    if shown.is_some() {
        return shown;
    }
    let bundle = string_entry(dict, "CFBundleName");
    if bundle.is_some() {
        return bundle;
    }
    string_entry(dict, "CFBundleExecutable")
}

/// An installed app with what decides whether it is listed.
pub struct InstalledApp<T> {
    pub bundle_id: Option<String>,
    /// Whether the app can use a pairing file.
    pub supports_pairing_file: bool,
    pub app: T,
}

/// Whether the app at a place is the first of its bundle identifier that can use a
/// pairing file.
pub open spec fn is_listed<T>(apps: Seq<InstalledApp<T>>, i: int) -> bool {
    &&& apps[i].supports_pairing_file
    &&& forall|j: int|
        0 <= j < i && (#[trigger] apps[j]).supports_pairing_file ==> optional_view(
            apps[j].bundle_id,
        ) != optional_view(apps[i].bundle_id)
}

/// The apps that are listed, in order.
pub open spec fn listed<T>(apps: Seq<InstalledApp<T>>) -> Seq<InstalledApp<T>>
    decreases apps.len(),
{
    if apps.len() == 0 {
        Seq::empty()
    } else if is_listed(apps, apps.len() - 1) {
        listed(apps.drop_last()).push(apps.last())
    } else {
        listed(apps.drop_last())
    }
}

/// The bundle identifiers of what is listed are those of the apps that can use a
/// pairing file.
proof fn lemma_listed_ids<T>(apps: Seq<InstalledApp<T>>, id: Option<Seq<char>>)
    ensures
        (exists|i: int|
            0 <= i < listed(apps).len() && optional_view((#[trigger] listed(apps)[i]).bundle_id)
                == id) == (exists|i: int|
            0 <= i < apps.len() && (#[trigger] apps[i]).supports_pairing_file && optional_view(
                apps[i].bundle_id,
            ) == id),
        forall|i: int|
            0 <= i < listed(apps).len() ==> (#[trigger] listed(apps)[i]).supports_pairing_file,
    decreases apps.len(),
{
    if apps.len() > 0 {
        let shorter = apps.drop_last();
        let n = shorter.len() as int;
        let before = listed(shorter);
        let after = listed(apps);
        lemma_listed_ids(shorter, id);
        if exists|i: int| 0 <= i < before.len() && optional_view((#[trigger] before[i]).bundle_id)
            == id {
            let i = choose|i: int|
                0 <= i < before.len() && optional_view((#[trigger] before[i]).bundle_id) == id;
            assert(after[i] == before[i]);
            let j = choose|j: int|
                0 <= j < shorter.len() && (#[trigger] shorter[j]).supports_pairing_file
                    && optional_view(shorter[j].bundle_id) == id;
            assert(apps[j] == shorter[j]);
        } else if apps[n].supports_pairing_file && optional_view(apps[n].bundle_id) == id {
            assert forall|j: int| 0 <= j < n && (#[trigger] apps[j]).supports_pairing_file implies
                optional_view(apps[j].bundle_id) != id by {
                assert(apps[j] == shorter[j]);
            }
            assert(is_listed(apps, n));
            assert(after[before.len() as int] == apps[n]);
        } else {
            assert forall|i: int| 0 <= i < after.len() implies optional_view(
                (#[trigger] after[i]).bundle_id,
            ) != id by {
                if i < before.len() {
                    assert(after[i] == before[i]);
                }
            }
            assert forall|j: int|
                0 <= j < apps.len() && (#[trigger] apps[j]).supports_pairing_file implies
                optional_view(apps[j].bundle_id) != id by {
                if j < n {
                    assert(apps[j] == shorter[j]);
                }
            }
        }
        assert forall|i: int| 0 <= i < after.len() implies (
        #[trigger] after[i]).supports_pairing_file by {
            if i < before.len() {
                assert(after[i] == before[i]);
            }
        }
    }
}

fn has_bundle_id<T>(apps: &Vec<InstalledApp<T>>, id: &Option<String>) -> (r: bool)
    ensures
        r == exists|i: int|
            0 <= i < apps.len() && optional_view((#[trigger] apps@[i]).bundle_id) == optional_view(
                *id,
            ),
{
    let mut i: usize = 0;
    while i < apps.len()
        invariant
            i <= apps.len(),
            forall|k: int|
                0 <= k < i ==> optional_view((#[trigger] apps@[k]).bundle_id) != optional_view(*id),
        decreases apps.len() - i,
    {
        if same_optional_text(&apps[i].bundle_id, id) {
            assert(optional_view(apps@[i as int].bundle_id) == optional_view(*id));
            return true;
        }
        i += 1;
    }
    false
}

/// The apps that can use a pairing file, one for each bundle identifier.
pub fn list_apps<T>(apps: Vec<InstalledApp<T>>) -> (r: Vec<InstalledApp<T>>)
    ensures
        r@ == listed(apps@),
{
    let mut found: Vec<InstalledApp<T>> = Vec::new();
    for app in it: apps
        invariant
            it.seq() == apps@,
            found@ == listed(apps@.take(it.index())),
    {
        proof {
            let n = it.index();
            let seen = apps@.take(n);
            let next = apps@.take(n + 1);
            assert(next.drop_last() =~= seen);
            lemma_listed_ids(seen, optional_view(app.bundle_id));
            if is_listed(next, n) {
                assert forall|j: int|
                    0 <= j < n && (#[trigger] seen[j]).supports_pairing_file implies optional_view(
                    seen[j].bundle_id,
                ) != optional_view(app.bundle_id) by {
                    assert(next[j] == seen[j]);
                }
            } else if app.supports_pairing_file {
                let j = choose|j: int|
                    0 <= j < n && (#[trigger] next[j]).supports_pairing_file && optional_view(
                        next[j].bundle_id,
                    ) == optional_view(next[n].bundle_id);
                assert(seen[j] == next[j]);
            }
        }
        if app.supports_pairing_file && !has_bundle_id(&found, &app.bundle_id) {
            found.push(app);
        }
    }
    assert(apps@.take(apps@.len() as int) =~= apps@);
    found
}

// ---------------------------------------------------------------- laws

/// No two listed apps share a bundle identifier.
pub proof fn lemma_listed_ids_differ<T>(apps: Seq<InstalledApp<T>>, i: int, j: int)
    requires
        0 <= i < j < listed(apps).len(),
    ensures
        optional_view(listed(apps)[i].bundle_id) != optional_view(listed(apps)[j].bundle_id),
    decreases apps.len(),
{
    if apps.len() > 0 {
        let shorter = apps.drop_last();
        let n = shorter.len() as int;
        let before = listed(shorter);
        if j < before.len() {
            lemma_listed_ids_differ(shorter, i, j);
        } else {
            let id = optional_view(before[i].bundle_id);
            lemma_listed_ids(shorter, id);
            assert(optional_view(before[i].bundle_id) == id);
            let k = choose|k: int|
                0 <= k < shorter.len() && (#[trigger] shorter[k]).supports_pairing_file
                    && optional_view(shorter[k].bundle_id) == id;
            assert(apps[k] == shorter[k]);
        }
    }
}

/// Every app that can use a pairing file has its bundle identifier listed, and
/// every listed app can use one.
pub proof fn lemma_listed_covers<T>(apps: Seq<InstalledApp<T>>, i: int)
    requires
        0 <= i < apps.len(),
        apps[i].supports_pairing_file,
    ensures
        exists|j: int|
            0 <= j < listed(apps).len() && optional_view((#[trigger] listed(apps)[j]).bundle_id)
                == optional_view(apps[i].bundle_id),
        forall|j: int|
            0 <= j < listed(apps).len() ==> (#[trigger] listed(apps)[j]).supports_pairing_file,
{
    lemma_listed_ids(apps, optional_view(apps[i].bundle_id));
}

/// Whether the information of an app holds a text under a key.
pub open spec fn info_says(info: plist::Value, key: Seq<char>, text: Seq<char>) -> bool {
    value_dictionary(info) is Some && {
        let entries = dictionary_entries(value_dictionary(info)->0);
        entries.contains_key(key) && value_text(entries[key]) == Some(text)
    }
}

/// An app is called as it is shown; without such a name it is called as its bundle
/// is, without that as its executable is, and nothing else names it.
pub proof fn lemma_app_is_called(info: plist::Value, text: Seq<char>)
    ensures
        ({
            let silent = |key: Seq<char>| forall|t: Seq<char>| !info_says(info, key, t);
            &&& info_says(info, "CFBundleDisplayName"@, text) ==> app_name(info) == Some(text)
            &&& silent("CFBundleDisplayName"@) && info_says(info, "CFBundleName"@, text)
                ==> app_name(info) == Some(text)
            &&& silent("CFBundleDisplayName"@) && silent("CFBundleName"@) && info_says(
                info,
                "CFBundleExecutable"@,
                text,
            ) ==> app_name(info) == Some(text)
            &&& app_name(info) == Some(text) ==> info_says(info, "CFBundleDisplayName"@, text)
                || info_says(info, "CFBundleName"@, text) || info_says(
                info,
                "CFBundleExecutable"@,
                text,
            )
        }),
{
    if value_dictionary(info) is Some {
        let entries = dictionary_entries(value_dictionary(info)->0);
        let shown = text_entry(entries, "CFBundleDisplayName"@);
        if shown is Some {
            assert(info_says(info, "CFBundleDisplayName"@, shown->0));
        }
        let bundle = text_entry(entries, "CFBundleName"@);
        if bundle is Some {
            assert(info_says(info, "CFBundleName"@, bundle->0));
        }
    }
}

/// Where the listed apps stand among the installed ones: in order, and each is the
/// first of its bundle identifier that can use a pairing file.
pub proof fn lemma_first_of_each_id_is_listed<T>(apps: Seq<InstalledApp<T>>) -> (places: Seq<int>)
    ensures
        places.len() == listed(apps).len(),
        forall|j: int|
            0 <= j < places.len() ==> {
                &&& 0 <= #[trigger] places[j] < apps.len()
                &&& listed(apps)[j] == apps[places[j]]
                &&& apps[places[j]].supports_pairing_file
            },
        forall|j: int, i: int|
            0 <= j < places.len() && 0 <= i < places[j] && apps[i].supports_pairing_file
                ==> optional_view((#[trigger] apps[i]).bundle_id) != optional_view(
                apps[#[trigger] places[j]].bundle_id,
            ),
        forall|j: int, k: int| 0 <= j < k < places.len() ==> places[j] < places[k],
    decreases apps.len(),
{
    if apps.len() == 0 {
        Seq::empty()
    } else {
        let shorter = apps.drop_last();
        let n = shorter.len() as int;
        let before = lemma_first_of_each_id_is_listed(shorter);
        assert forall|i: int| 0 <= i < n implies #[trigger] apps[i] == shorter[i] by {}
        if is_listed(apps, n) {
            let places = before.push(n);
            assert forall|j: int, i: int|
                0 <= j < places.len() && 0 <= i < places[j]
                    && apps[i].supports_pairing_file implies optional_view(
                (#[trigger] apps[i]).bundle_id,
            ) != optional_view(apps[#[trigger] places[j]].bundle_id) by {
                if j < before.len() {
                    assert(places[j] == before[j]);
                    assert(shorter[i].supports_pairing_file);
                    assert(apps[before[j]] == shorter[before[j]]);
                }
            }
            places
        } else {
            assert forall|j: int, i: int|
                0 <= j < before.len() && 0 <= i < before[j]
                    && apps[i].supports_pairing_file implies optional_view(
                (#[trigger] apps[i]).bundle_id,
            ) != optional_view(apps[#[trigger] before[j]].bundle_id) by {
                assert(shorter[i].supports_pairing_file);
                assert(apps[before[j]] == shorter[before[j]]);
            }
            before
        }
    }
}

} // verus!
