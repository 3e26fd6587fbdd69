//! One entry per device, where several ways of discovery found the same one.
use vstd::prelude::*;
use crate::device::{device_views, Device, DeviceView, UsbmuxdDevice};
use crate::net::IpAddr;
use crate::string_map::StringMap;
use crate::text::{lowered, to_ascii_lowercase};
use crate::udid::{is_valid_device_udid, lemma_identifier_shapes, valid_udid};

verus! {

/// What tells one device from another: a valid identifier, or the pairing
/// identity of a network device, folded. Of other devices nothing does.
pub open spec fn device_key(device: DeviceView) -> Option<Seq<char>> {
    if valid_udid(device.udid) {
        Some("udid:"@ + lowered(device.udid))
    } else if device.is_network() && device.pairing_identity is Some
        && device.pairing_identity->0.len() > 0 {
        Some("pairing:"@ + lowered(device.pairing_identity->0))
    } else {
        None
    }
}

pub fn dedup_key_for_device(device: &Device) -> (r: Option<String>)
    ensures
        match r {
            Some(key) => device_key(device@) == Some(key@),
            None => device_key(device@) is None,
        },
{
    if is_valid_device_udid(device.udid.as_str()) {
        let mut key = "udid:".to_string();
        key.append(to_ascii_lowercase(device.udid.as_str()).as_str());
        return Some(key);
    }
    if device.is_network() {
        if let Some(identity) = &device.pairing_identity {
            if !identity.as_str().is_empty() {
                let mut key = "pairing:".to_string();
                key.append(to_ascii_lowercase(identity.as_str()).as_str());
                return Some(key);
            }
        }
    }
    None
}

/// A number where something is known, and zero where it is not.
#[verifier::opaque]
pub open spec fn points(known: bool, worth: nat) -> nat {
    if known {
        worth
    } else {
        0
    }
}

/// How much is known of a device.
pub open spec fn quality(device: DeviceView) -> nat {
    points(valid_udid(device.udid), 100) + points(
        device.is_network() && device.pairing_identity is Some,
        40,
    ) + points(device.usbmuxd_device is Some, 20) + points(device.product_type is Some, 10)
        + points(device.device_class is Some, 8) + points(device.os_version is Some, 4) + points(
        device.serial_number is Some,
        4,
    ) + points(device.reconnect_address is Some, 3) + points(device.pairing_address is Some, 2)
}

fn score(known: bool, worth: usize) -> (r: usize)
    ensures
        r == points(known, worth as nat),
        r <= worth,
{
    reveal(points);
    if known {
        worth
    } else {
        0
    }
}

pub fn device_quality(device: &Device) -> (r: usize)
    ensures
        r == quality(device@),
{
    let identity: usize = score(is_valid_device_udid(device.udid.as_str()), 100);
    let pairing: usize = score(device.is_network() && device.pairing_identity.is_some(), 40);
    let usb: usize = score(device.usbmuxd_device.is_some(), 20);
    let product: usize = score(device.product_type.is_some(), 10);
    let class: usize = score(device.device_class.is_some(), 8);
    let version: usize = score(device.os_version.is_some(), 4);
    let serial: usize = score(device.serial_number.is_some(), 4);
    let reconnect: usize = score(device.reconnect_address.is_some(), 3);
    let manual: usize = score(device.pairing_address.is_some(), 2);
    identity + pairing + usb + product + class + version + serial + reconnect + manual
}

/// Whether the device at a place is the first of its key, or has none.
pub open spec fn leads(devices: Seq<DeviceView>, i: int) -> bool {
    device_key(devices[i]) is None || forall|j: int|
        0 <= j < i ==> device_key(#[trigger] devices[j]) != device_key(devices[i])
}

/// The places of the devices that are the first of their key or have none.
pub open spec fn leading(devices: Seq<DeviceView>) -> Seq<int>
    decreases devices.len(),
{
    if devices.len() == 0 {
        Seq::empty()
    } else {
        let before = leading(devices.drop_last());
        if leads(devices, devices.len() - 1) {
            before.push(devices.len() - 1)
        } else {
            before
        }
    }
}

/// The devices of one key, in order.
pub open spec fn of_key(devices: Seq<DeviceView>, key: Seq<char>) -> Seq<DeviceView> {
    devices.filter(|d: DeviceView| device_key(d) == Some(key))
}

/// The device of which most is known; of several, the first.
pub open spec fn best(devices: Seq<DeviceView>) -> DeviceView
    decreases devices.len(),
{
    if devices.len() <= 1 {
        devices.first()
    } else {
        let before = best(devices.drop_last());
        if quality(devices.last()) > quality(before) {
            devices.last()
        } else {
            before
        }
    }
}

/// The device that stands for the one at a place: itself where it has no key,
/// else the best of its key.
pub open spec fn representative(devices: Seq<DeviceView>, i: int) -> DeviceView {
    match device_key(devices[i]) {
        None => devices[i],
        Some(key) => best(of_key(devices, key)),
    }
}

/// One device for each key, where the key first stands, and every device that has
/// no key.
pub open spec fn deduplicated(devices: Seq<DeviceView>) -> Seq<DeviceView> {
    leading(devices).map_values(|i: int| representative(devices, i))
}

/// The leading places are places, each one leads, and none stands twice.
proof fn lemma_leading(devices: Seq<DeviceView>)
    ensures
        forall|j: int|
            0 <= j < leading(devices).len() ==> 0 <= #[trigger] leading(devices)[j] < devices.len()
                && leads(devices, leading(devices)[j]),
        forall|j: int, k: int|
            0 <= j < k < leading(devices).len() ==> leading(devices)[j] < leading(devices)[k],
        forall|i: int|
            0 <= i < devices.len() && leads(devices, i) ==> #[trigger] leading(devices).contains(i),
    decreases devices.len(),
{
    if devices.len() > 0 {
        let shorter = devices.drop_last();
        lemma_leading(shorter);
        let before = leading(shorter);
        let after = leading(devices);
        assert forall|i: int| 0 <= i < shorter.len() implies leads(shorter, i) == leads(
            devices,
            i,
        ) by {
            if leads(shorter, i) && device_key(devices[i]) is Some {
                assert forall|j: int| 0 <= j < i implies device_key(#[trigger] devices[j])
                    != device_key(devices[i]) by {
                    assert(shorter[j] == devices[j]);
                }
            }
            if leads(devices, i) && device_key(devices[i]) is Some {
                assert forall|j: int| 0 <= j < i implies device_key(#[trigger] shorter[j])
                    != device_key(shorter[i]) by {
                    assert(shorter[j] == devices[j]);
                }
            }
        }
        assert forall|j: int| 0 <= j < after.len() implies 0 <= #[trigger] after[j] < devices.len()
            && leads(devices, after[j]) by {
            if j < before.len() {
                assert(after[j] == before[j]);
            }
        }
        assert forall|i: int| 0 <= i < devices.len() && leads(devices, i) implies
            #[trigger] after.contains(i) by {
            if i < shorter.len() {
                assert(before.contains(i));
                let j = choose|j: int| 0 <= j < before.len() && before[j] == i;
                assert(after[j] == i);
            } else {
                assert(after[before.len() as int] == i);
            }
        }
    }
}

/// Two leading places do not share a key.
proof fn lemma_leaders_differ(devices: Seq<DeviceView>, j: int, k: int)
    requires
        0 <= j < leading(devices).len(),
        0 <= k < leading(devices).len(),
        device_key(devices[leading(devices)[j]]) is Some,
        device_key(devices[leading(devices)[j]]) == device_key(devices[leading(devices)[k]]),
    ensures
        j == k,
{
    lemma_leading(devices);
    if j < k {
        assert(leads(devices, leading(devices)[k]));
    } else if k < j {
        assert(leads(devices, leading(devices)[j]));
    }
}

/// The best of some devices is one of them, and nothing is better.
proof fn lemma_best(devices: Seq<DeviceView>)
    requires
        devices.len() > 0,
    ensures
        devices.contains(best(devices)),
        forall|i: int|
            0 <= i < devices.len() ==> quality(#[trigger] devices[i]) <= quality(best(devices)),
    decreases devices.len(),
{
    if devices.len() == 1 {
        assert(devices[0] == best(devices));
    } else {
        let shorter = devices.drop_last();
        lemma_best(shorter);
        let b = best(shorter);
        let i = choose|i: int| 0 <= i < shorter.len() && shorter[i] == b;
        assert(devices[i] == b);
        assert(devices[devices.len() - 1] == devices.last());
        assert forall|i: int| 0 <= i < devices.len() implies quality(#[trigger] devices[i])
            <= quality(best(devices)) by {
            if i < shorter.len() {
                assert(shorter[i] == devices[i]);
            }
        }
    }
}

/// The device that stands for a leading one has the same key.
proof fn lemma_representative_key(devices: Seq<DeviceView>, i: int)
    requires
        0 <= i < devices.len(),
    ensures
        device_key(representative(devices, i)) == device_key(devices[i]),
        devices.contains(representative(devices, i)),
        quality(devices[i]) <= quality(representative(devices, i)),
{
    match device_key(devices[i]) {
        None => {},
        Some(key) => {
            let same = |d: DeviceView| device_key(d) == Some(key);
            let members = of_key(devices, key);
            devices.lemma_filter_contains(same, i);
            assert(members.contains(devices[i]));
            lemma_best(members);
            let j = choose|j: int| 0 <= j < members.len() && members[j] == best(members);
            devices.lemma_filter_pred(same, j);
            devices.lemma_filter_contains_rev(same, best(members));
            let k = choose|k: int| 0 <= k < members.len() && members[k] == devices[i];
        },
    }
}

/// How the devices of a key grow with one more device.
proof fn lemma_of_key_grows(devices: Seq<DeviceView>, next: DeviceView, key: Seq<char>)
    ensures
        of_key(devices.push(next), key) == (if device_key(next) == Some(key) {
            of_key(devices, key).push(next)
        } else {
            of_key(devices, key)
        }),
{
    reveal(Seq::filter);
    assert(devices.push(next).drop_last() =~= devices);
}

/// Whether the list and the index are those of the devices seen so far.
spec fn in_step(
    result: Seq<DeviceView>,
    indexes: Map<Seq<char>, usize>,
    devices: Seq<DeviceView>,
) -> bool {
    &&& result == deduplicated(devices)
    &&& forall|key: Seq<char>| #[trigger]
        indexes.contains_key(key) ==> indexes[key] < result.len() && device_key(
            devices[leading(devices)[indexes[key] as int]],
        ) == Some(key)
    &&& forall|j: int|
        0 <= j < result.len() && device_key(devices[#[trigger] leading(devices)[j]]) is Some
            ==> indexes.contains_key(device_key(devices[leading(devices)[j]])->0)
}

/// The next device has no key, or is the first of its key: it comes at the end.
proof fn lemma_next_leads(
    result: Seq<DeviceView>,
    indexes: Map<Seq<char>, usize>,
    devices: Seq<DeviceView>,
    next: DeviceView,
)
    requires
        in_step(result, indexes, devices),
        device_key(next) is Some ==> !indexes.contains_key(device_key(next)->0),
        result.len() <= usize::MAX,
    ensures
        device_key(next) is None ==> in_step(result.push(next), indexes, devices.push(next)),
        device_key(next) is Some ==> in_step(
            result.push(next),
            indexes.insert(device_key(next)->0, result.len() as usize),
            devices.push(next),
        ),
{
    let longer = devices.push(next);
    let before = leading(devices);
    assert(longer.drop_last() =~= devices);
    lemma_leading(devices);
    if device_key(next) is Some {
        let key = device_key(next)->0;
        assert forall|j: int| 0 <= j < devices.len() implies device_key(#[trigger] longer[j])
            != device_key(next) by {
            if device_key(devices[j]) == Some(key) {
                lemma_key_has_leader(devices, j);
                let k = choose|k: int|
                    0 <= k < before.len() && device_key(devices[before[k]]) == device_key(
                        devices[j],
                    );
                assert(indexes.contains_key(key));
            }
        }
        reveal(Seq::filter);
        assert forall|i: int| 0 <= i < devices.len() implies device_key(#[trigger] devices[i])
            != Some(key) by {
            assert(longer[i] == devices[i]);
        }
        devices.lemma_all_neg_filter_empty(|d: DeviceView| device_key(d) == Some(key));
        lemma_of_key_grows(devices, next, key);
        assert(representative(longer, devices.len() as int) == next);
    }
    assert(leads(longer, devices.len() as int));
    let after = leading(longer);
    assert(after == before.push(devices.len() as int));
    assert forall|j: int| 0 <= j < before.len() implies representative(longer, before[j])
        == representative(devices, #[trigger] before[j]) by {
        if let Some(k) = device_key(devices[before[j]]) {
            lemma_of_key_grows(devices, next, k);
            if device_key(next) == Some(k) {
                assert(device_key(longer[before[j]]) != device_key(next));
            }
        }
    }
    assert(deduplicated(longer) =~= result.push(next));
    assert forall|j: int|
        0 <= j < after.len() && device_key(longer[#[trigger] after[j]]) is Some && j
            < before.len() implies indexes.contains_key(device_key(longer[after[j]])->0) by {
        assert(after[j] == before[j]);
        assert(longer[after[j]] == devices[before[j]]);
    }
    assert forall|key: Seq<char>| #[trigger] indexes.contains_key(key) implies device_key(
        longer[after[indexes[key] as int]],
    ) == Some(key) by {
        assert(after[indexes[key] as int] == before[indexes[key] as int]);
    }
}

/// Every key has a leading device.
proof fn lemma_key_has_leader(devices: Seq<DeviceView>, i: int)
    requires
        0 <= i < devices.len(),
        device_key(devices[i]) is Some,
    ensures
        exists|k: int|
            0 <= k < leading(devices).len() && device_key(devices[leading(devices)[k]])
                == device_key(devices[i]),
    decreases i,
{
    lemma_leading(devices);
    if leads(devices, i) {
        assert(leading(devices).contains(i));
        let k = choose|k: int| 0 <= k < leading(devices).len() && leading(devices)[k] == i;
        assert(device_key(devices[leading(devices)[k]]) == device_key(devices[i]));
    } else {
        let j = choose|j: int| 0 <= j < i && device_key(#[trigger] devices[j]) == device_key(
            devices[i],
        );
        lemma_key_has_leader(devices, j);
    }
}

/// The next device has the key of an earlier one: the better of the two stays.
proof fn lemma_next_follows(
    result: Seq<DeviceView>,
    indexes: Map<Seq<char>, usize>,
    devices: Seq<DeviceView>,
    next: DeviceView,
)
    requires
        in_step(result, indexes, devices),
        device_key(next) is Some,
        indexes.contains_key(device_key(next)->0),
    ensures
        ({
            let at = indexes[device_key(next)->0] as int;
            in_step(
                if quality(next) > quality(result[at]) {
                    result.update(at, next)
                } else {
                    result
                },
                indexes,
                devices.push(next),
            )
        }),
{
    let longer = devices.push(next);
    let key = device_key(next)->0;
    let at = indexes[key] as int;
    let before = leading(devices);
    let now = if quality(next) > quality(result[at]) {
        result.update(at, next)
    } else {
        result
    };
    assert(longer.drop_last() =~= devices);
    lemma_leading(devices);
    assert(device_key(longer[before[at]]) == device_key(longer[devices.len() as int]));
    assert(!leads(longer, devices.len() as int));
    assert(leading(longer) == before);
    assert forall|j: int| 0 <= j < before.len() implies representative(longer, #[trigger] before[j])
        == now[j] by {
        if let Some(k) = device_key(devices[before[j]]) {
            lemma_of_key_grows(devices, next, k);
            if k == key {
                lemma_leaders_differ(devices, j, at);
                devices.lemma_filter_contains(
                    |d: DeviceView| device_key(d) == Some(key),
                    before[at],
                );
                assert(of_key(devices, key).contains(devices[before[at]]));
                assert(of_key(longer, key).drop_last() =~= of_key(devices, key));
            } else if j == at {
                assert(false);
            }
        }
    }
    assert(deduplicated(longer) =~= now);
    assert forall|j: int|
        0 <= j < now.len() && device_key(longer[#[trigger] before[j]]) is Some implies
        indexes.contains_key(device_key(longer[before[j]])->0) by {
        assert(longer[before[j]] == devices[before[j]]);
    }
    assert forall|k: Seq<char>| #[trigger] indexes.contains_key(k) implies device_key(
        longer[before[indexes[k] as int]],
    ) == Some(k) by {
        assert(longer[before[indexes[k] as int]] == devices[before[indexes[k] as int]]);
    }
}

/// Keeps one entry per device: the one of which most is known.
pub fn deduplicate_devices(devices: Vec<Device>) -> (r: Vec<Device>)
    ensures
        device_views(r@) == deduplicated(device_views(devices@)),
{
    let ghost all = device_views(devices@);
    let mut result: Vec<Device> = Vec::new();
    let mut indexes: StringMap<usize> = StringMap::new();
    assert(device_views(result@) =~= deduplicated(all.take(0)));
    for device in it: devices
        invariant
            it.seq() == devices@,
            all == device_views(devices@),
            in_step(device_views(result@), indexes@, all.take(it.index())),
    {
        let ghost n = it.index();
        let ghost seen = all.take(n);
        let ghost before = result@;
        let end: usize = result.len();
        assert(all.take(n + 1) =~= seen.push(device@));
        match dedup_key_for_device(&device) {
            None => {
                proof {
                    lemma_next_leads(device_views(before), indexes@, seen, device@);
                }
                result.push(device);
                assert(device_views(result@) =~= device_views(before).push(device@));
            },
            Some(key) => {
                if let Some(index) = indexes.get(key.as_str()) {
                    let index: usize = *index;
                    proof {
                        lemma_next_follows(device_views(before), indexes@, seen, device@);
                    }
                    if device_quality(&device) > device_quality(&result[index]) {
                        result.set(index, device);
                        assert(device_views(result@) =~= device_views(before).update(
                            index as int,
                            device@,
                        ));
                    }
                } else {
                    proof {
                        lemma_next_leads(device_views(before), indexes@, seen, device@);
                    }
                    indexes.insert(key, end);
                    result.push(device);
                    assert(device_views(result@) =~= device_views(before).push(device@));
                }
            },
        }
    }
    assert(all.take(all.len() as int) =~= all);
    result
}

// ---------------------------------------------------------------- laws

/// No two devices that come out share a key.
pub proof fn lemma_deduplicated_keys_differ(devices: Seq<DeviceView>, j: int, k: int)
    requires
        0 <= j < k < deduplicated(devices).len(),
        device_key(deduplicated(devices)[j]) is Some,
    ensures
        device_key(deduplicated(devices)[j]) != device_key(deduplicated(devices)[k]),
{
    lemma_leading(devices);
    lemma_representative_key(devices, leading(devices)[j]);
    lemma_representative_key(devices, leading(devices)[k]);
    if device_key(deduplicated(devices)[j]) == device_key(deduplicated(devices)[k]) {
        lemma_leaders_differ(devices, j, k);
    }
}

/// What comes out went in.
pub proof fn lemma_deduplicated_was_there(devices: Seq<DeviceView>, j: int)
    requires
        0 <= j < deduplicated(devices).len(),
    ensures
        devices.contains(deduplicated(devices)[j]),
{
    lemma_leading(devices);
    lemma_representative_key(devices, leading(devices)[j]);
}

/// Every device that goes in comes out, or one of its key of which no less is
/// known.
pub proof fn lemma_deduplicated_keeps_the_best(devices: Seq<DeviceView>, i: int)
    requires
        0 <= i < devices.len(),
    ensures
        device_key(devices[i]) is None ==> deduplicated(devices).contains(devices[i]),
        device_key(devices[i]) is Some ==> exists|j: int|
            0 <= j < deduplicated(devices).len() && device_key(
                #[trigger] deduplicated(devices)[j],
            ) == device_key(devices[i]) && quality(devices[i]) <= quality(deduplicated(devices)[j]),
{
    lemma_leading(devices);
    if device_key(devices[i]) is None {
        assert(leads(devices, i));
        assert(leading(devices).contains(i));
        let j = choose|j: int| 0 <= j < leading(devices).len() && leading(devices)[j] == i;
        assert(deduplicated(devices)[j] == devices[i]);
    } else {
        lemma_key_has_leader(devices, i);
        let j = choose|j: int|
            0 <= j < leading(devices).len() && device_key(devices[leading(devices)[j]])
                == device_key(devices[i]);
        lemma_representative_key(devices, leading(devices)[j]);
        lemma_representative_key(devices, i);
        assert(deduplicated(devices)[j] == representative(devices, i));
    }
}

/// Devices of which no two share a key stay as they are.
pub proof fn lemma_distinct_devices_stay(devices: Seq<DeviceView>)
    requires
        forall|j: int, k: int|
            0 <= j < k < devices.len() && device_key(devices[j]) is Some ==> device_key(
                #[trigger] devices[j],
            ) != device_key(#[trigger] devices[k]),
    ensures
        deduplicated(devices) == devices,
    decreases devices.len(),
{
    if devices.len() > 0 {
        let shorter = devices.drop_last();
        let n = shorter.len() as int;
        assert forall|j: int, k: int|
            0 <= j < k < shorter.len() && device_key(shorter[j]) is Some implies device_key(
            #[trigger] shorter[j],
        ) != device_key(#[trigger] shorter[k]) by {
            assert(shorter[j] == devices[j]);
            assert(shorter[k] == devices[k]);
        }
        lemma_distinct_devices_stay(shorter);
        lemma_leading(shorter);
        assert(deduplicated(shorter).len() == leading(shorter).len());
        assert(leads(devices, n)) by {
            if device_key(devices[n]) is Some {
                assert forall|j: int| 0 <= j < n implies device_key(#[trigger] devices[j])
                    != device_key(devices[n]) by {}
            }
        }
        lemma_leading(devices);
        let all = leading(devices);
        assert(all.len() == devices.len());
        assert forall|j: int| 0 <= j < all.len() implies deduplicated(devices)[j]
            == devices[j] by {
            lemma_places_in_order(all, devices.len() as int, j);
            lemma_representative_key(devices, j);
            let r = representative(devices, j);
            let i = choose|i: int| 0 <= i < devices.len() && devices[i] == r;
            if device_key(devices[j]) is Some && i != j {
                if i < j {
                    assert(device_key(devices[i]) != device_key(devices[j]));
                } else {
                    assert(device_key(devices[j]) != device_key(devices[i]));
                }
            }
        }
        assert(deduplicated(devices) =~= devices);
    } else {
        assert(deduplicated(devices) =~= devices);
    }
}

/// As many rising places as there are places are all of them in order.
proof fn lemma_places_in_order(places: Seq<int>, n: int, j: int)
    requires
        places.len() == n,
        0 <= j < n,
        forall|k: int| 0 <= k < n ==> 0 <= #[trigger] places[k] < n,
        forall|k: int, l: int| 0 <= k < l < n ==> places[k] < places[l],
    ensures
        places[j] == j,
{
    lemma_places_at_least(places, n, j);
    lemma_places_at_most(places, n, j);
}

proof fn lemma_places_at_least(places: Seq<int>, n: int, j: int)
    requires
        places.len() == n,
        0 <= j < n,
        forall|k: int| 0 <= k < n ==> 0 <= #[trigger] places[k] < n,
        forall|k: int, l: int| 0 <= k < l < n ==> places[k] < places[l],
    ensures
        places[j] >= j,
    decreases j,
{
    if j > 0 {
        lemma_places_at_least(places, n, j - 1);
        assert(places[j - 1] < places[j]);
    }
}

proof fn lemma_places_at_most(places: Seq<int>, n: int, j: int)
    requires
        places.len() == n,
        0 <= j < n,
        forall|k: int| 0 <= k < n ==> 0 <= #[trigger] places[k] < n,
        forall|k: int, l: int| 0 <= k < l < n ==> places[k] < places[l],
    ensures
        places[j] <= j,
    decreases n - j,
{
    if j < n - 1 {
        lemma_places_at_most(places, n, j + 1);
        assert(places[j] < places[j + 1]);
    }
}

/// Removing duplicates twice is removing them once.
pub proof fn lemma_deduplicated_idempotent(devices: Seq<DeviceView>)
    ensures
        deduplicated(deduplicated(devices)) == deduplicated(devices),
{
    let once = deduplicated(devices);
    assert forall|j: int, k: int|
        0 <= j < k < once.len() && device_key(once[j]) is Some implies device_key(
        #[trigger] once[j],
    ) != device_key(#[trigger] once[k]) by {
        lemma_deduplicated_keys_differ(devices, j, k);
    }
    lemma_distinct_devices_stay(once);
}

/// Two devices with valid identifiers are the same device if and only if the whole
/// identifiers agree, but for the case of their letters, however they are reached.
pub proof fn lemma_identifiers_tell_devices_apart(a: DeviceView, b: DeviceView)
    requires
        valid_udid(a.udid),
        valid_udid(b.udid),
    ensures
        device_key(a) is Some,
        device_key(a) == device_key(b) <==> lowered(a.udid) == lowered(b.udid),
{
    lemma_same_ending("udid:"@, lowered(a.udid), lowered(b.udid));
}

/// Two devices without valid identifiers that are reached over the network are the
/// same device if and only if their pairing identities agree, but for the case of
/// their letters.
pub proof fn lemma_identities_tell_devices_apart(a: DeviceView, b: DeviceView)
    requires
        !valid_udid(a.udid),
        !valid_udid(b.udid),
        a.is_network() && b.is_network(),
        a.pairing_identity is Some && a.pairing_identity->0.len() > 0,
        b.pairing_identity is Some && b.pairing_identity->0.len() > 0,
    ensures
        device_key(a) is Some,
        device_key(a) == device_key(b) <==> lowered(a.pairing_identity->0) == lowered(
            b.pairing_identity->0,
        ),
{
    lemma_same_ending("pairing:"@, lowered(a.pairing_identity->0), lowered(b.pairing_identity->0));
}

/// A device that is known by a valid identifier is never taken for one that is known
/// by its pairing identity alone.
pub proof fn lemma_identifier_is_no_identity(a: DeviceView, b: DeviceView)
    requires
        valid_udid(a.udid),
        !valid_udid(b.udid),
    ensures
        device_key(a) != device_key(b),
{
    reveal_strlit("udid:");
    reveal_strlit("pairing:");
    if device_key(b) is Some {
        assert(device_key(a)->0[0] == 'u');
        assert(device_key(b)->0[0] == 'p');
    }
}

/// Nothing tells a device apart that has neither a valid identifier nor a pairing
/// identity over the network: a USB device without a valid identifier, an empty
/// identity.
pub proof fn lemma_without_identifier_or_identity(device: DeviceView)
    requires
        !valid_udid(device.udid),
        device.usbmuxd_device is Some || device.pairing_identity is None
            || device.pairing_identity->0.len() == 0 || (!device.core_device_authenticated
            && device.pairing_address is None && device.reconnect_address is None),
    ensures
        device_key(device) is None,
{
}

proof fn lemma_same_ending(start: Seq<char>, a: Seq<char>, b: Seq<char>)
    ensures
        start + a == start + b <==> a == b,
{
    if start + a == start + b {
        assert((start + a).skip(start.len() as int) =~= a);
        assert((start + b).skip(start.len() as int) =~= b);
    }
}

/// Of two devices with different valid identifiers each comes out, as a device of
/// its own.
pub proof fn lemma_different_identifiers_both_come_out(devices: Seq<DeviceView>, i: int, j: int)
    requires
        0 <= i < devices.len(),
        0 <= j < devices.len(),
        valid_udid(devices[i].udid),
        valid_udid(devices[j].udid),
        lowered(devices[i].udid) != lowered(devices[j].udid),
    ensures
        exists|a: int, b: int|
            {
                &&& 0 <= a < deduplicated(devices).len()
                &&& 0 <= b < deduplicated(devices).len()
                &&& a != b
                &&& lowered((#[trigger] deduplicated(devices)[a]).udid) == lowered(devices[i].udid)
                &&& lowered((#[trigger] deduplicated(devices)[b]).udid) == lowered(devices[j].udid)
            },
{
    let a = lemma_identifier_comes_out(devices, i);
    let b = lemma_identifier_comes_out(devices, j);
    assert(lowered(deduplicated(devices)[a].udid) != lowered(deduplicated(devices)[b].udid));
}

proof fn lemma_identifier_comes_out(devices: Seq<DeviceView>, i: int) -> (a: int)
    requires
        0 <= i < devices.len(),
        valid_udid(devices[i].udid),
    ensures
        0 <= a < deduplicated(devices).len(),
        lowered(deduplicated(devices)[a].udid) == lowered(devices[i].udid),
{
    lemma_deduplicated_keeps_the_best(devices, i);
    let a = choose|a: int|
        0 <= a < deduplicated(devices).len() && device_key(#[trigger] deduplicated(devices)[a])
            == device_key(devices[i]) && quality(devices[i]) <= quality(deduplicated(devices)[a]);
    let out = deduplicated(devices)[a];
    if !valid_udid(out.udid) {
        lemma_identifier_is_no_identity(devices[i], out);
    }
    lemma_identifiers_tell_devices_apart(devices[i], out);
    a
}

/// A device comes out no more than once: of two that come out with valid
/// identifiers, the identifiers differ.
pub proof fn lemma_identifier_comes_out_once(devices: Seq<DeviceView>, a: int, b: int)
    requires
        0 <= a < b < deduplicated(devices).len(),
        valid_udid(deduplicated(devices)[a].udid),
        valid_udid(deduplicated(devices)[b].udid),
    ensures
        lowered(deduplicated(devices)[a].udid) != lowered(deduplicated(devices)[b].udid),
{
    lemma_identifiers_tell_devices_apart(deduplicated(devices)[a], deduplicated(devices)[b]);
    lemma_deduplicated_keys_differ(devices, a, b);
}

/// Of the entries of one device the one that comes out is the first of those of
/// which the most is known.
pub proof fn lemma_first_of_the_best_comes_out(devices: Seq<DeviceView>, j: int)
    requires
        0 <= j < deduplicated(devices).len(),
        device_key(deduplicated(devices)[j]) is Some,
    ensures
        exists|i: int|
            0 <= i < devices.len() && #[trigger] devices[i] == deduplicated(devices)[j] && (forall|
                k: int,
            |
                0 <= k < devices.len() && device_key(devices[k]) == device_key(devices[i])
                    ==> quality(#[trigger] devices[k]) <= quality(devices[i])) && (forall|k: int|
                0 <= k < i && device_key(devices[k]) == device_key(devices[i]) ==> quality(
                    #[trigger] devices[k],
                ) < quality(devices[i])),
{
    lemma_leading(devices);
    let lead = leading(devices)[j];
    lemma_representative_key(devices, lead);
    let key = device_key(devices[lead])->0;
    assert(device_key(devices[lead]) == Some(key));
    lemma_best_is_first(devices, key, lead);
}

/// Where the first of the best of a key stands.
proof fn lemma_best_is_first(devices: Seq<DeviceView>, key: Seq<char>, lead: int) -> (i: int)
    requires
        0 <= lead < devices.len(),
        device_key(devices[lead]) == Some(key),
    ensures
        0 <= i < devices.len(),
        devices[i] == best(of_key(devices, key)),
        device_key(devices[i]) == Some(key),
        forall|k: int|
            0 <= k < devices.len() && device_key(devices[k]) == Some(key) ==> quality(
                #[trigger] devices[k],
            ) <= quality(devices[i]),
        forall|k: int|
            0 <= k < i && device_key(devices[k]) == Some(key) ==> quality(#[trigger] devices[k])
                < quality(devices[i]),
    decreases devices.len(),
{
    let shorter = devices.drop_last();
    let next = devices.last();
    let n = shorter.len() as int;
    lemma_of_key_grows(shorter, next, key);
    assert(shorter.push(next) =~= devices);
    if exists|k: int| 0 <= k < n && device_key(#[trigger] shorter[k]) == Some(key) {
        let k = choose|k: int| 0 <= k < n && device_key(#[trigger] shorter[k]) == Some(key);
        let i = lemma_best_is_first(shorter, key, k);
        assert(of_key(shorter, key).len() > 0) by {
            shorter.lemma_filter_contains(|d: DeviceView| device_key(d) == Some(key), k);
        }
        assert(devices[i] == shorter[i]);
        assert forall|k: int| 0 <= k < n implies #[trigger] devices[k] == shorter[k] by {}
        if device_key(next) == Some(key) {
            assert(of_key(devices, key).drop_last() =~= of_key(shorter, key));
            if quality(next) > quality(shorter[i]) {
                n
            } else {
                i
            }
        } else {
            i
        }
    } else {
        assert(lead == n);
        assert(of_key(shorter, key) =~= Seq::empty()) by {
            assert forall|k: int| 0 <= k < n implies device_key(#[trigger] shorter[k]) != Some(
                key,
            ) by {}
            lemma_nothing_of_key(shorter, key);
        }
        assert(of_key(devices, key) =~= seq![next]);
        n
    }
}

proof fn lemma_nothing_of_key(devices: Seq<DeviceView>, key: Seq<char>)
    requires
        forall|k: int| 0 <= k < devices.len() ==> device_key(#[trigger] devices[k]) != Some(key),
    ensures
        of_key(devices, key).len() == 0,
    decreases devices.len(),
{
    reveal(Seq::filter);
    if devices.len() > 0 {
        let shorter = devices.drop_last();
        assert forall|k: int| 0 <= k < shorter.len() implies device_key(#[trigger] shorter[k])
            != Some(key) by {
            assert(shorter[k] == devices[k]);
        }
        lemma_nothing_of_key(shorter, key);
    }
}

/// Devices come out in the order in which each was first seen.
pub proof fn lemma_first_seen_comes_out_first(devices: Seq<DeviceView>, j: int, k: int)
    requires
        0 <= j < k < deduplicated(devices).len(),
    ensures
        exists|a: int, b: int|
            {
                &&& 0 <= a < b < devices.len()
                &&& device_key(#[trigger] devices[a]) == device_key(deduplicated(devices)[j])
                &&& device_key(#[trigger] devices[b]) == device_key(deduplicated(devices)[k])
                &&& device_key(devices[a]) is None ==> devices[a] == deduplicated(devices)[j]
                &&& device_key(devices[b]) is None ==> devices[b] == deduplicated(devices)[k]
                &&& device_key(devices[b]) is Some ==> forall|c: int|
                    0 <= c < b ==> device_key(#[trigger] devices[c]) != device_key(devices[b])
            },
{
    lemma_leading(devices);
    let a = leading(devices)[j];
    let b = leading(devices)[k];
    lemma_representative_key(devices, a);
    lemma_representative_key(devices, b);
    assert(leads(devices, b));
    assert(device_key(devices[a]) == device_key(deduplicated(devices)[j]));
    assert(device_key(devices[b]) == device_key(deduplicated(devices)[k]));
}

/// A valid identifier outweighs everything else that can be known of a device.
pub proof fn lemma_identifier_outweighs_the_rest(a: DeviceView, b: DeviceView)
    requires
        valid_udid(a.udid),
        !valid_udid(b.udid),
    ensures
        quality(a) > quality(b),
{
    reveal(points);
}

/// A valid identifier adds a hundred to what is known of a device, and one that is not
/// valid adds nothing.
pub proof fn lemma_worth_of_identifier(device: DeviceView, udid: Seq<char>)
    ensures
        ({
            let with = DeviceView { udid, ..device };
            let without = DeviceView { udid: Seq::empty(), ..device };
            &&& valid_udid(udid) ==> quality(with) == quality(without) + 100
            &&& !valid_udid(udid) ==> quality(with) == quality(without)
        }),
{
    reveal(points);
    lemma_identifier_shapes(Seq::empty());
}

/// The product adds ten and the class eight.
pub proof fn lemma_worth_of_kind(device: DeviceView, text: Seq<char>)
    ensures
        quality(DeviceView { product_type: Some(text), ..device }) == quality(
            DeviceView { product_type: None, ..device },
        ) + 10,
        quality(DeviceView { device_class: Some(text), ..device }) == quality(
            DeviceView { device_class: None, ..device },
        ) + 8,
{
    reveal(points);
}

/// The version and the serial number add four each.
pub proof fn lemma_worth_of_numbers(device: DeviceView, text: Seq<char>)
    ensures
        quality(DeviceView { os_version: Some(text), ..device }) == quality(
            DeviceView { os_version: None, ..device },
        ) + 4,
        quality(DeviceView { serial_number: Some(text), ..device }) == quality(
            DeviceView { serial_number: None, ..device },
        ) + 4,
{
    reveal(points);
}

/// The address for saved records adds three and the one for pairing two, where it is
/// not the first thing to put the device on the network.
pub proof fn lemma_worth_of_addresses(device: DeviceView, address: (IpAddr, u16))
    requires
        device.usbmuxd_device is Some || device.core_device_authenticated || (
        device.pairing_address is Some && device.reconnect_address is Some)
            || device.pairing_identity is None,
    ensures
        quality(DeviceView { reconnect_address: Some(address), ..device }) == quality(
            DeviceView { reconnect_address: None, ..device },
        ) + 3,
        quality(DeviceView { pairing_address: Some(address), ..device }) == quality(
            DeviceView { pairing_address: None, ..device },
        ) + 2,
{
    reveal(points);
}

/// The number, the name and where records are kept add nothing.
pub proof fn lemma_worth_of_the_rest(device: DeviceView, name: Seq<char>, number: u32)
    ensures
        quality(DeviceView { name, device_id: number, pairing_cache_dir: None, ..device })
            == quality(device),
{
    reveal(points);
}

/// What the way to a device adds: being listed by usbmuxd twenty; a pairing identity
/// forty, where the device is reached over the network and nowhere else.
pub proof fn lemma_worth_of_the_way(
    device: DeviceView,
    listed: UsbmuxdDevice,
    identity: Seq<char>,
)
    ensures
        quality(
            DeviceView {
                usbmuxd_device: Some(listed),
                pairing_identity: Some(identity),
                ..device
            },
        ) == quality(DeviceView { usbmuxd_device: None, pairing_identity: None, ..device }) + 20,
        device.usbmuxd_device is None && (device.core_device_authenticated
            || device.pairing_address is Some || device.reconnect_address is Some) ==> quality(
            DeviceView { pairing_identity: Some(identity), ..device },
        ) == quality(DeviceView { pairing_identity: None, ..device }) + 40,
        device.usbmuxd_device is Some || (!device.core_device_authenticated
            && device.pairing_address is None && device.reconnect_address is None) ==> quality(
            DeviceView { pairing_identity: Some(identity), ..device },
        ) == quality(DeviceView { pairing_identity: None, ..device }),
{
    reveal(points);
}

/// Of a device of which nothing is known, nothing counts.
pub proof fn lemma_nothing_known_is_worth_nothing(device: DeviceView)
    requires
        !valid_udid(device.udid),
        device.usbmuxd_device is None,
        device.product_type is None,
        device.device_class is None,
        device.os_version is None,
        device.serial_number is None,
        device.pairing_address is None,
        device.reconnect_address is None,
        device.pairing_identity is None,
    ensures
        quality(device) == 0,
{
    reveal(points);
}

} // verus!
