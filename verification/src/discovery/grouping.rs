//! One device out of the several services that an Apple TV advertises.
use std::path::PathBuf;
use vstd::prelude::*;
use vstd::utf8::encode_utf8;
use crate::device::{at_port, device_views, Device, DeviceView};
use crate::device_id::{synthetic_device_id, synthetic_id};
use crate::discovery::enrichment::{
    correlation_key, device_correlation_key, lemma_host_names_tell_devices_apart,
};
use crate::discovery::{
    views, DeviceType, DiscoveredDevice, DiscoveredDeviceView, APPLE_MOBDEV2_SERVICE,
    REMOTEPAIRING_MANUAL_PAIRING_SERVICE, REMOTEPAIRING_SERVICE,
};
use crate::net::IpAddr;
use crate::sequences::{lemma_filter_keeps_distinct, lemma_filter_places};
use crate::text::{lowered, replace_char, replaced, same_text};

verus! {

/// An advertisement with the address that its text stands for, where it has one
/// that can be read.
pub struct Sighting {
    pub device: DiscoveredDeviceView,
    pub ip: Option<IpAddr>,
}

/// The address read from the advertisement at place `i`.
pub open spec fn address_read(
    discovered: Seq<DiscoveredDeviceView>,
    resolved: Seq<Option<IpAddr>>,
    i: int,
) -> Option<IpAddr> {
    if discovered[i].ip_address is Some && i < resolved.len() {
        resolved[i]
    } else {
        None
    }
}

/// Advertisements together with the addresses read from them.
pub open spec fn sightings(
    discovered: Seq<DiscoveredDeviceView>,
    resolved: Seq<Option<IpAddr>>,
) -> Seq<Sighting> {
    Seq::new(
        discovered.len(),
        |i: int| Sighting { device: discovered[i], ip: address_read(discovered, resolved, i) },
    )
}

/// Whether an advertisement is of an Apple TV with a name, under a service that
/// the library can use.
pub open spec fn groupable(device: DiscoveredDeviceView) -> bool {
    &&& device.device_type == DeviceType::AppleTV
    &&& {
        ||| device.service_type == REMOTEPAIRING_SERVICE@
        ||| device.service_type == REMOTEPAIRING_MANUAL_PAIRING_SERVICE@
        ||| device.service_type == APPLE_MOBDEV2_SERVICE@
    }
    &&& device.name.len() > 0
}

/// The keys of the devices seen, in the order in which each was first seen.
pub open spec fn group_keys(seen: Seq<Sighting>) -> Seq<Seq<char>>
    decreases seen.len(),
{
    if seen.len() == 0 {
        Seq::empty()
    } else {
        let before = group_keys(seen.drop_last());
        let key = correlation_key(seen.last().device);
        if groupable(seen.last().device) && !before.contains(key) {
            before.push(key)
        } else {
            before
        }
    }
}

/// The usable advertisements of the device of one key, in order.
pub open spec fn group_members(seen: Seq<Sighting>, key: Seq<char>) -> Seq<Sighting> {
    seen.filter(|s: Sighting| groupable(s.device) && correlation_key(s.device) == key)
}

/// The first address read from any of the advertisements.
pub open spec fn group_address(members: Seq<Sighting>) -> Option<IpAddr> {
    let with_address = members.filter(|s: Sighting| s.ip is Some);
    if with_address.len() > 0 {
        with_address.first().ip
    } else {
        None
    }
}

/// The port of the last advertisement under one service.
pub open spec fn group_port(members: Seq<Sighting>, service_type: Seq<char>) -> Option<u16> {
    let under_service = members.filter(|s: Sighting| s.device.service_type == service_type);
    if under_service.len() > 0 {
        under_service.last().device.port
    } else {
        None
    }
}

/// What a device is paired under: its host name, or its name with hyphens for
/// spaces where it has none.
pub open spec fn identity_of(name: Seq<char>, hostname: Seq<char>) -> Seq<char> {
    if hostname.len() == 0 {
        replaced(name, ' ', '-')
    } else {
        hostname
    }
}

/// The device that advertisements with an address stand for. Name and host name
/// are those of the first one.
pub open spec fn group_device(members: Seq<Sighting>, cache_dir: PathBuf) -> DeviceView {
    let leader = members.first().device;
    let identity = identity_of(leader.name, leader.hostname);
    let ip = group_address(members)->0;
    DeviceView {
        name: leader.name,
        udid: Seq::empty(),
        product_type: None,
        device_class: Some("AppleTV"@),
        os_version: None,
        serial_number: None,
        device_id: synthetic_id(encode_utf8(identity)),
        usbmuxd_device: None,
        is_mac: false,
        pairing_address: at_port(ip, group_port(members, REMOTEPAIRING_MANUAL_PAIRING_SERVICE@)),
        reconnect_address: at_port(ip, group_port(members, REMOTEPAIRING_SERVICE@)),
        pairing_identity: Some(identity),
        pairing_cache_dir: Some(cache_dir),
        core_device_authenticated: false,
    }
}

/// The keys of the devices with an address.
pub open spec fn addressed_keys(seen: Seq<Sighting>) -> Seq<Seq<char>> {
    group_keys(seen).filter(|key: Seq<char>| group_address(group_members(seen, key)) is Some)
}

/// The devices that advertisements stand for, in the order in which each was
/// first seen; a device without an address is left out.
pub open spec fn grouped_devices(seen: Seq<Sighting>, cache_dir: PathBuf) -> Seq<DeviceView> {
    addressed_keys(seen).map_values(
        |key: Seq<char>| group_device(group_members(seen, key), cache_dir),
    )
}

struct NetworkDeviceGroup {
    key: String,
    name: String,
    hostname: String,
    ip: Option<IpAddr>,
    pairing_port: Option<u16>,
    reconnect_port: Option<u16>,
}

impl NetworkDeviceGroup {
    /// Whether the group holds what some advertisements say.
    spec fn sums_up(self, members: Seq<Sighting>) -> bool {
        &&& members.len() > 0
        &&& self.name@ == members.first().device.name
        &&& self.hostname@ == members.first().device.hostname
        &&& self.ip == group_address(members)
        &&& self.pairing_port == group_port(members, REMOTEPAIRING_MANUAL_PAIRING_SERVICE@)
        &&& self.reconnect_port == group_port(members, REMOTEPAIRING_SERVICE@)
    }
}

/// Whether the groups sum up all that was seen.
spec fn sum_up_all(groups: Seq<NetworkDeviceGroup>, seen: Seq<Sighting>) -> bool {
    &&& groups.len() == group_keys(seen).len()
    &&& forall|j: int|
        0 <= j < groups.len() ==> {
            &&& (#[trigger] groups[j]).key@ == group_keys(seen)[j]
            &&& groups[j].sums_up(group_members(seen, group_keys(seen)[j]))
        }
}

/// No key stands twice among the keys.
pub proof fn lemma_group_keys_distinct(seen: Seq<Sighting>)
    ensures
        group_keys(seen).no_duplicates(),
    decreases seen.len(),
{
    if seen.len() > 0 {
        lemma_group_keys_distinct(seen.drop_last());
    }
}

/// How the members of a key grow with one more sighting.
proof fn lemma_members_grow(seen: Seq<Sighting>, next: Sighting, key: Seq<char>)
    ensures
        group_members(seen.push(next), key) == (if groupable(next.device) && correlation_key(
            next.device,
        ) == key {
            group_members(seen, key).push(next)
        } else {
            group_members(seen, key)
        }),
{
    reveal(Seq::filter);
    assert(seen.push(next).drop_last() =~= seen);
}

/// A key stands among the keys just where it has members.
proof fn lemma_key_has_members(seen: Seq<Sighting>, key: Seq<char>)
    ensures
        group_keys(seen).contains(key) == (group_members(seen, key).len() > 0),
    decreases seen.len(),
{
    reveal(Seq::filter);
    if seen.len() > 0 {
        let shorter = seen.drop_last();
        lemma_key_has_members(shorter, key);
        lemma_members_grow(shorter, seen.last(), key);
        assert(shorter.push(seen.last()) =~= seen);
        let before = group_keys(shorter);
        let last_key = correlation_key(seen.last().device);
        if groupable(seen.last().device) && !before.contains(last_key) {
            let after = before.push(last_key);
            if before.contains(key) {
                let j = choose|j: int| 0 <= j < before.len() && before[j] == key;
                assert(after[j] == key);
            }
            if key == last_key {
                assert(after[before.len() as int] == key);
            }
            if after.contains(key) && key != last_key {
                let j = choose|j: int| 0 <= j < after.len() && after[j] == key;
                assert(before[j] == key);
            }
        }
    }
}

/// How address and ports change with one more member.
proof fn lemma_summary_grows(members: Seq<Sighting>, next: Sighting, service_type: Seq<char>)
    ensures
        group_address(members.push(next)) == (if group_address(members) is Some {
            group_address(members)
        } else {
            next.ip
        }),
        group_port(members.push(next), service_type) == (if next.device.service_type
            == service_type {
            next.device.port
        } else {
            group_port(members, service_type)
        }),
{
    reveal(Seq::filter);
    assert(members.push(next).drop_last() =~= members);
    let with_address = |s: Sighting| s.ip is Some;
    if members.filter(with_address).len() > 0 {
        members.lemma_filter_pred(with_address, 0);
    }
}

proof fn lemma_services_differ()
    ensures
        REMOTEPAIRING_SERVICE@ != REMOTEPAIRING_MANUAL_PAIRING_SERVICE@,
{
    reveal_strlit("_remotepairing._tcp.local.");
    reveal_strlit("_remotepairing-manual-pairing._tcp.local.");
    assert(REMOTEPAIRING_SERVICE@.len() != REMOTEPAIRING_MANUAL_PAIRING_SERVICE@.len());
}

fn is_groupable(device: &DiscoveredDevice) -> (r: bool)
    ensures
        r == groupable(device@),
{
    if device.device_type != DeviceType::AppleTV {
        return false;
    }
    let service = device.service_type.as_str();
    let is_remote_pairing = same_text(service, REMOTEPAIRING_SERVICE) || same_text(
        service,
        REMOTEPAIRING_MANUAL_PAIRING_SERVICE,
    );
    let is_core_device = same_text(service, APPLE_MOBDEV2_SERVICE);
    if !is_remote_pairing && !is_core_device {
        return false;
    }
    !device.name.as_str().is_empty()
}

/// Takes over one usable advertisement into its group.
fn note_member(
    group: &mut NetworkDeviceGroup,
    device: &DiscoveredDevice,
    ip: Option<IpAddr>,
    Ghost(members): Ghost<Seq<Sighting>>,
)
    requires
        old(group).sums_up(members) || (members.len() == 0 && old(group).name@ == device@.name
            && old(group).hostname@ == device@.hostname && old(group).ip is None && old(
            group,
        ).pairing_port is None && old(group).reconnect_port is None),
    ensures
        final(group).key@ == old(group).key@,
        final(group).sums_up(members.push(Sighting { device: device@, ip })),
{
    proof {
        reveal(Seq::filter);
        let next = Sighting { device: device@, ip };
        lemma_summary_grows(members, next, REMOTEPAIRING_MANUAL_PAIRING_SERVICE@);
        lemma_summary_grows(members, next, REMOTEPAIRING_SERVICE@);
        lemma_services_differ();
    }
    if group.ip.is_none() {
        group.ip = ip;
    }
    if same_text(device.service_type.as_str(), REMOTEPAIRING_MANUAL_PAIRING_SERVICE) {
        group.pairing_port = device.port;
    } else if same_text(device.service_type.as_str(), REMOTEPAIRING_SERVICE) {
        group.reconnect_port = device.port;
    }
}

/// The place of the group of one key.
fn find_group(groups: &Vec<NetworkDeviceGroup>, key: &str) -> (r: Option<usize>)
    ensures
        match r {
            Some(j) => j < groups.len() && groups@[j as int].key@ == key@,
            None => forall|j: int| 0 <= j < groups.len() ==> (#[trigger] groups@[j]).key@ != key@,
        },
{
    let mut j: usize = 0;
    while j < groups.len()
        invariant
            j <= groups.len(),
            forall|k: int| 0 <= k < j ==> (#[trigger] groups@[k]).key@ != key@,
        decreases groups.len() - j,
    {
        if same_text(groups[j].key.as_str(), key) {
            return Some(j);
        }
        j += 1;
    }
    None
}

/// Takes over one advertisement into the groups.
fn note_sighting(
    groups: &mut Vec<NetworkDeviceGroup>,
    device: &DiscoveredDevice,
    ip: Option<IpAddr>,
    Ghost(seen): Ghost<Seq<Sighting>>,
)
    requires
        sum_up_all(old(groups)@, seen),
    ensures
        sum_up_all(final(groups)@, seen.push(Sighting { device: device@, ip })),
{
    let ghost next = Sighting { device: device@, ip };
    let ghost keys = group_keys(seen);
    proof {
        assert(seen.push(next).drop_last() =~= seen);
        lemma_group_keys_distinct(seen);
        assert forall|k: Seq<char>| true implies #[trigger] group_members(seen.push(next), k) == (
        if groupable(next.device) && correlation_key(next.device) == k {
            group_members(seen, k).push(next)
        } else {
            group_members(seen, k)
        }) by {
            lemma_members_grow(seen, next, k);
        }
    }
    if !is_groupable(device) {
        return;
    }
    let key = device_correlation_key(device);
    let ghost members = group_members(seen, key@);
    proof {
        lemma_key_has_members(seen, key@);
    }
    match find_group(groups, key.as_str()) {
        Some(j) => {
            proof {
                assert(keys[j as int] == key@);
                assert(keys.contains(key@));
            }
            note_member(&mut groups[j], device, ip, Ghost(members));
        },
        None => {
            proof {
                if keys.contains(key@) {
                    let j = choose|j: int| 0 <= j < keys.len() && keys[j] == key@;
                    assert(groups@[j].key@ != key@);
                }
            }
            let mut group = NetworkDeviceGroup {
                key,
                name: device.name.clone(),
                hostname: device.hostname.clone(),
                ip: None,
                pairing_port: None,
                reconnect_port: None,
            };
            note_member(&mut group, device, ip, Ghost(members));
            groups.push(group);
        },
    }
}

/// The device of a group with an address.
fn device_of(group: NetworkDeviceGroup, ip: IpAddr, cache_dir: &PathBuf, Ghost(members): Ghost<
    Seq<Sighting>,
>) -> (r: Device)
    requires
        group.sums_up(members),
        group.ip == Some(ip),
    ensures
        r@ == group_device(members, *cache_dir),
{
    let pairing_identity = if group.hostname.as_str().is_empty() {
        replace_char(group.name.as_str(), ' ', '-')
    } else {
        group.hostname
    };
    let id: u32 = synthetic_device_id(pairing_identity.as_str());
    let mut device = Device::new_tvos(
        group.name,
        pairing_identity,
        ip,
        group.pairing_port,
        group.reconnect_port,
        cache_dir.clone(),
    );
    device.device_id = id;
    device
}

/// Groups advertisements by device. `resolved` holds, place for place, the
/// address that the text in `ip_address` stands for, where it can be read; a
/// missing place counts as an address that cannot be read.
pub fn group_network_devices(
    discovered: &[DiscoveredDevice],
    resolved: &[Option<IpAddr>],
    cache_dir: &PathBuf,
) -> (r: Vec<Device>)
    ensures
        device_views(r@) == grouped_devices(
            sightings(views(discovered@), resolved@),
            *cache_dir,
        ),
{
    let ghost seen = sightings(views(discovered@), resolved@);
    let mut groups: Vec<NetworkDeviceGroup> = Vec::new();
    let mut i: usize = 0;
    while i < discovered.len()
        invariant
            i <= discovered.len(),
            seen == sightings(views(discovered@), resolved@),
            sum_up_all(groups@, seen.take(i as int)),
        decreases discovered.len() - i,
    {
        let ip: Option<IpAddr> = if discovered[i].ip_address.is_some() && i < resolved.len() {
            resolved[i]
        } else {
            None
        };
        note_sighting(&mut groups, &discovered[i], ip, Ghost(seen.take(i as int)));
        assert(seen.take(i as int).push(seen[i as int]) =~= seen.take(i + 1));
        i += 1;
    }
    assert(seen.take(i as int) =~= seen);

    let ghost keys = group_keys(seen);
    let ghost addressed = |key: Seq<char>| group_address(group_members(seen, key)) is Some;
    let ghost make = |key: Seq<char>| group_device(group_members(seen, key), *cache_dir);
    let mut devices: Vec<Device> = Vec::new();
    assert(device_views(devices@) =~= keys.take(0).filter(addressed).map_values(make)) by {
        reveal(Seq::filter);
    }
    for group in it: groups
        invariant
            it.seq() == groups@,
            keys == group_keys(seen),
            sum_up_all(groups@, seen),
            addressed == (|key: Seq<char>| group_address(group_members(seen, key)) is Some),
            make == (|key: Seq<char>| group_device(group_members(seen, key), *cache_dir)),
            device_views(devices@) == keys.take(it.index()).filter(addressed).map_values(make),
    {
        let ghost n = it.index();
        let ghost before = keys.take(n).filter(addressed);
        proof {
            reveal(Seq::filter);
            assert(keys.take(n + 1).drop_last() =~= keys.take(n));
            assert(keys.take(n + 1).last() == keys[n]);
            assert(groups@[n].key@ == keys[n]);
        }
        if let Some(ip) = group.ip {
            let ghost had = devices@;
            let device = device_of(group, ip, cache_dir, Ghost(group_members(seen, keys[n])));
            devices.push(device);
            proof {
                assert(device_views(devices@) =~= device_views(had).push(device@));
                assert(before.push(keys[n]).map_values(make) =~= before.map_values(make).push(
                    make(keys[n]),
                ));
            }
        }
    }
    assert(keys.take(keys.len() as int) =~= keys);
    devices
}

// ---------------------------------------------------------------- laws

/// Every usable advertisement with an address is part of exactly one device that
/// comes out: the one of its key, and no two devices share a key.
pub proof fn lemma_every_addressed_sighting_is_grouped(seen: Seq<Sighting>, at: int)
    requires
        0 <= at < seen.len(),
        groupable(seen[at].device),
        seen[at].ip is Some,
    ensures
        addressed_keys(seen).contains(correlation_key(seen[at].device)),
        addressed_keys(seen).no_duplicates(),
{
    let key = correlation_key(seen[at].device);
    let members = group_members(seen, key);
    seen.lemma_filter_contains(
        |s: Sighting| groupable(s.device) && correlation_key(s.device) == key,
        at,
    );
    assert(members.contains(seen[at]));
    lemma_key_has_members(seen, key);
    let j = choose|j: int| 0 <= j < members.len() && members[j] == seen[at];
    let with_address = |s: Sighting| s.ip is Some;
    members.lemma_filter_contains(with_address, j);
    assert(members.filter(with_address).contains(members[j]));
    members.lemma_filter_pred(with_address, 0);
    let keys = group_keys(seen);
    let addressed = |k: Seq<char>| group_address(group_members(seen, k)) is Some;
    let i = choose|i: int| 0 <= i < keys.len() && keys[i] == key;
    keys.lemma_filter_contains(addressed, i);
    lemma_group_keys_distinct(seen);
    lemma_filter_keeps_distinct(keys, addressed);
}

/// A device that comes out has an address, was seen under its key, is an Apple TV
/// found on the network, and is neither authenticated nor given an identifier.
pub proof fn lemma_grouped_device_is_unauthenticated(
    seen: Seq<Sighting>,
    cache_dir: PathBuf,
    at: int,
)
    requires
        0 <= at < grouped_devices(seen, cache_dir).len(),
    ensures
        group_address(group_members(seen, addressed_keys(seen)[at])) is Some,
        group_keys(seen).contains(addressed_keys(seen)[at]),
        !grouped_devices(seen, cache_dir)[at].core_device_authenticated,
        grouped_devices(seen, cache_dir)[at].udid.len() == 0,
        grouped_devices(seen, cache_dir)[at].pairing_identity is Some,
{
    let addressed = |k: Seq<char>| group_address(group_members(seen, k)) is Some;
    group_keys(seen).lemma_filter_pred(addressed, at);
    assert(addressed_keys(seen).contains(addressed_keys(seen)[at]));
    group_keys(seen).lemma_filter_contains_rev(addressed, addressed_keys(seen)[at]);
}

/// Two devices with different host names, up to ASCII case, stay separate even
/// where they share a name: their pairing identities differ.
pub proof fn lemma_hosts_stay_separate(seen: Seq<Sighting>, cache_dir: PathBuf, i: int, j: int)
    requires
        0 <= i < j < grouped_devices(seen, cache_dir).len(),
        group_members(seen, addressed_keys(seen)[i]).first().device.hostname.len() > 0,
        group_members(seen, addressed_keys(seen)[j]).first().device.hostname.len() > 0,
    ensures
        grouped_devices(seen, cache_dir)[i].pairing_identity != grouped_devices(
            seen,
            cache_dir,
        )[j].pairing_identity,
{
    let addressed = |k: Seq<char>| group_address(group_members(seen, k)) is Some;
    lemma_group_keys_distinct(seen);
    lemma_filter_keeps_distinct(group_keys(seen), addressed);
    lemma_grouped_device_is_unauthenticated(seen, cache_dir, i);
    lemma_grouped_device_is_unauthenticated(seen, cache_dir, j);
    lemma_leader_has_key(seen, addressed_keys(seen)[i]);
    lemma_leader_has_key(seen, addressed_keys(seen)[j]);
}

proof fn lemma_leader_has_key(seen: Seq<Sighting>, key: Seq<char>)
    requires
        group_keys(seen).contains(key),
    ensures
        correlation_key(group_members(seen, key).first().device) == key,
{
    lemma_key_has_members(seen, key);
    seen.lemma_filter_pred(
        |s: Sighting| groupable(s.device) && correlation_key(s.device) == key,
        0,
    );
}

/// An advertisement is usable if and only if it is of an Apple TV, has a name, and
/// comes under the service for saved records, the one for pairing, or the one of
/// mobile devices.
pub proof fn lemma_usable_advertisement(device: DiscoveredDeviceView)
    ensures
        groupable(device) <==> device.device_type == DeviceType::AppleTV && device.name.len() > 0
            && (device.service_type == "_remotepairing._tcp.local."@ || device.service_type
            == "_remotepairing-manual-pairing._tcp.local."@ || device.service_type
            == "_apple-mobdev2._tcp.local."@),
{
}

/// Each advertisement is seen once, in order, with the address read from it, if its
/// text says one and that could be read.
pub proof fn lemma_sightings_in_order(
    discovered: Seq<DiscoveredDeviceView>,
    resolved: Seq<Option<IpAddr>>,
    i: int,
)
    requires
        0 <= i < discovered.len(),
    ensures
        sightings(discovered, resolved).len() == discovered.len(),
        sightings(discovered, resolved)[i].device == discovered[i],
        discovered[i].ip_address is Some && i < resolved.len() ==> sightings(
            discovered,
            resolved,
        )[i].ip == resolved[i],
        discovered[i].ip_address is None || i >= resolved.len() ==> sightings(
            discovered,
            resolved,
        )[i].ip is None,
{
}

/// Whether the sighting at a place is a usable one of the device of a key.
pub open spec fn is_of_device(seen: Seq<Sighting>, i: int, key: Seq<char>) -> bool {
    0 <= i < seen.len() && groupable(seen[i].device) && correlation_key(seen[i].device) == key
}

/// Where each key is first seen.
proof fn lemma_key_places(seen: Seq<Sighting>) -> (places: Seq<int>)
    ensures
        places.len() == group_keys(seen).len(),
        forall|j: int|
            0 <= j < places.len() ==> is_of_device(seen, #[trigger] places[j], group_keys(seen)[j]),
        forall|j: int, i: int|
            0 <= j < places.len() && i < places[j] ==> !(#[trigger] is_of_device(
                seen,
                i,
                #[trigger] group_keys(seen)[j],
            )),
        forall|j: int, k: int| 0 <= j < k < places.len() ==> places[j] < places[k],
    decreases seen.len(),
{
    if seen.len() == 0 {
        Seq::empty()
    } else {
        let shorter = seen.drop_last();
        let n = shorter.len() as int;
        let before = lemma_key_places(shorter);
        let keys = group_keys(shorter);
        let key = correlation_key(seen.last().device);
        assert forall|i: int, k: Seq<char>| i < n implies #[trigger] is_of_device(seen, i, k)
            == is_of_device(shorter, i, k) by {
            if 0 <= i {
                assert(shorter[i] == seen[i]);
            }
        }
        if groupable(seen.last().device) && !keys.contains(key) {
            let places = before.push(n);
            assert(group_keys(seen) =~= keys.push(key));
            assert forall|i: int| i < n implies !is_of_device(shorter, i, key) by {
                if is_of_device(shorter, i, key) {
                    lemma_key_has_members(shorter, key);
                    shorter.lemma_filter_contains(
                        |s: Sighting| groupable(s.device) && correlation_key(s.device) == key,
                        i,
                    );
                    assert(group_members(shorter, key).contains(shorter[i]));
                }
            }
            assert forall|j: int, i: int|
                0 <= j < places.len() && i < places[j] implies !(#[trigger] is_of_device(
                seen,
                i,
                #[trigger] group_keys(seen)[j],
            )) by {
                if j < before.len() {
                    assert(keys[j] == group_keys(seen)[j]);
                    assert(!is_of_device(shorter, i, keys[j]));
                } else {
                    assert(!is_of_device(shorter, i, key));
                }
            }
            assert forall|j: int| 0 <= j < places.len() implies is_of_device(
                seen,
                #[trigger] places[j],
                group_keys(seen)[j],
            ) by {
                if j < before.len() {
                    assert(before[j] == places[j]);
                    assert(is_of_device(shorter, before[j], keys[j]));
                }
            }
            places
        } else {
            assert forall|j: int| 0 <= j < before.len() implies is_of_device(
                seen,
                #[trigger] before[j],
                group_keys(seen)[j],
            ) by {
                assert(is_of_device(shorter, before[j], keys[j]));
            }
            before
        }
    }
}

/// Where the devices that come out are first seen: each at a place of its own, in
/// order, before any other usable advertisement of the same device.
pub proof fn lemma_devices_come_out_in_order(seen: Seq<Sighting>, cache_dir: PathBuf) -> (leads:
    Seq<int>)
    ensures
        leads.len() == grouped_devices(seen, cache_dir).len(),
        forall|j: int|
            0 <= j < leads.len() ==> is_of_device(
                seen,
                #[trigger] leads[j],
                correlation_key(seen[leads[j]].device),
            ) && addressed_keys(seen)[j] == correlation_key(seen[leads[j]].device),
        forall|j: int, i: int|
            0 <= j < leads.len() && i < leads[j] ==> !(#[trigger] is_of_device(
                seen,
                i,
                correlation_key(seen[#[trigger] leads[j]].device),
            )),
        forall|j: int, k: int| 0 <= j < k < leads.len() ==> leads[j] < leads[k],
{
    let addressed = |k: Seq<char>| group_address(group_members(seen, k)) is Some;
    let firsts = lemma_key_places(seen);
    let kept = lemma_filter_places(group_keys(seen), addressed);
    let leads = Seq::new(kept.len(), |j: int| firsts[kept[j]]);
    assert forall|j: int| 0 <= j < leads.len() implies is_of_device(
        seen,
        #[trigger] leads[j],
        correlation_key(seen[leads[j]].device),
    ) && addressed_keys(seen)[j] == correlation_key(seen[leads[j]].device) by {
        assert(leads[j] == firsts[kept[j]]);
        assert(group_keys(seen)[kept[j]] == addressed_keys(seen)[j]);
    }
    assert forall|j: int, i: int| 0 <= j < leads.len() && i < leads[j] implies !(
    #[trigger] is_of_device(seen, i, correlation_key(seen[#[trigger] leads[j]].device))) by {
        assert(leads[j] == firsts[kept[j]]);
        assert(!is_of_device(seen, i, group_keys(seen)[kept[j]]));
    }
    assert forall|j: int, k: int| 0 <= j < k < leads.len() implies leads[j] < leads[k] by {
        assert(kept[j] < kept[k]);
    }
    leads
}

/// The name and the identity of a device that comes out are those of the sighting
/// that it was first seen by: its host name, or its name with hyphens for spaces
/// where it has none. Its number is made from the identity, and it is an Apple TV
/// whose records are kept in the given directory.
pub proof fn lemma_device_is_named_by_first_sighting(
    seen: Seq<Sighting>,
    cache_dir: PathBuf,
    j: int,
    lead: int,
)
    requires
        0 <= j < grouped_devices(seen, cache_dir).len(),
        is_of_device(seen, lead, addressed_keys(seen)[j]),
        forall|i: int| i < lead ==> !#[trigger] is_of_device(seen, i, addressed_keys(seen)[j]),
    ensures
        ({
            let out = grouped_devices(seen, cache_dir)[j];
            let first = seen[lead].device;
            &&& out.name == first.name
            &&& out.pairing_identity is Some
            &&& first.hostname.len() > 0 ==> out.pairing_identity == Some(first.hostname)
            &&& first.hostname.len() == 0 ==> out.pairing_identity->0.len() == first.name.len()
                && forall|i: int|
                0 <= i < first.name.len() ==> #[trigger] out.pairing_identity->0[i] == (
                if first.name[i] == ' ' {
                    '-'
                } else {
                    first.name[i]
                })
            &&& out.device_id == synthetic_id(encode_utf8(out.pairing_identity->0))
            &&& out.device_class == Some("AppleTV"@)
            &&& out.pairing_cache_dir == Some(cache_dir)
            &&& out.usbmuxd_device is None
            &&& !out.is_mac
            &&& !out.core_device_authenticated
            &&& out.udid.len() == 0
            &&& out.product_type is None && out.os_version is None && out.serial_number is None
        }),
{
    let key = addressed_keys(seen)[j];
    let p = |s: Sighting| groupable(s.device) && correlation_key(s.device) == key;
    let members = group_members(seen, key);
    let places = lemma_filter_places(seen, p);
    assert(p(seen[lead]));
    assert(places.contains(lead));
    assert(is_of_device(seen, places[0], key));
    let k = choose|k: int| 0 <= k < places.len() && places[k] == lead;
    assert(places[0] == lead);
    assert(members[0] == seen[lead]);
}

/// The address of a device that comes out is the first one read from its usable
/// advertisements. Under each of its two services it has the port of the last
/// advertisement under that service, and none where that has none.
pub proof fn lemma_device_is_reached_by_first_address(
    seen: Seq<Sighting>,
    cache_dir: PathBuf,
    j: int,
) -> (source: int)
    requires
        0 <= j < grouped_devices(seen, cache_dir).len(),
    ensures
        ({
            let out = grouped_devices(seen, cache_dir)[j];
            let key = addressed_keys(seen)[j];
            let manual = "_remotepairing-manual-pairing._tcp.local."@;
            let saved = "_remotepairing._tcp.local."@;
            &&& is_of_device(seen, source, key)
            &&& seen[source].ip is Some
            &&& forall|i: int|
                i < source && #[trigger] is_of_device(seen, i, key) ==> seen[i].ip is None
            &&& reached_at_last_port(seen, key, seen[source].ip->0, manual, out.pairing_address)
            &&& reached_at_last_port(seen, key, seen[source].ip->0, saved, out.reconnect_address)
        }),
{
    let key = addressed_keys(seen)[j];
    let p = |s: Sighting| groupable(s.device) && correlation_key(s.device) == key;
    let members = group_members(seen, key);
    let places = lemma_filter_places(seen, p);
    let with_ip = |s: Sighting| s.ip is Some;
    let inner = lemma_filter_places(members, with_ip);
    lemma_grouped_device_is_unauthenticated(seen, cache_dir, j);
    let source = places[inner[0]];
    assert(members[inner[0]] == seen[source]);
    assert(is_of_device(seen, source, key));
    assert forall|i: int| i < source && #[trigger] is_of_device(seen, i, key) implies seen[i].ip
        is None by {
        assert(places.contains(i));
        let m = choose|m: int| 0 <= m < places.len() && places[m] == i;
        assert(members[m] == seen[i]);
        if with_ip(members[m]) {
            assert(inner.contains(m));
            let k = choose|k: int| 0 <= k < inner.len() && inner[k] == m;
            assert(inner[0] <= inner[k]);
            assert(places[inner[0]] <= places[m]);
        }
    }
    let ip = seen[source].ip->0;
    lemma_port_is_the_last(seen, key, ip, "_remotepairing-manual-pairing._tcp.local."@);
    lemma_port_is_the_last(seen, key, ip, "_remotepairing._tcp.local."@);
    source
}

/// Whether an address is made of `ip` and the port of the last usable advertisement
/// of a device under a service, and none where there is no such port.
pub open spec fn reached_at_last_port(
    seen: Seq<Sighting>,
    key: Seq<char>,
    ip: IpAddr,
    service: Seq<char>,
    address: Option<(IpAddr, u16)>,
) -> bool {
    &&& address is Some ==> exists|i: int|
        {
            &&& #[trigger] is_of_device(seen, i, key)
            &&& seen[i].device.service_type == service
            &&& seen[i].device.port is Some
            &&& address == Some((ip, seen[i].device.port->0))
            &&& forall|k: int|
                k > i && #[trigger] is_of_device(seen, k, key) ==> seen[k].device.service_type
                    != service
        }
    &&& address is None ==> forall|i: int|
        #[trigger] is_of_device(seen, i, key) && seen[i].device.service_type == service
            && seen[i].device.port is Some ==> exists|k: int|
            k > i && #[trigger] is_of_device(seen, k, key) && seen[k].device.service_type
                == service && seen[k].device.port is None
}

proof fn lemma_port_is_the_last(
    seen: Seq<Sighting>,
    key: Seq<char>,
    ip: IpAddr,
    service: Seq<char>,
)
    ensures
        reached_at_last_port(
            seen,
            key,
            ip,
            service,
            at_port(ip, group_port(group_members(seen, key), service)),
        ),
{
    let p = |s: Sighting| groupable(s.device) && correlation_key(s.device) == key;
    let members = group_members(seen, key);
    let places = lemma_filter_places(seen, p);
    let under = |s: Sighting| s.device.service_type == service;
    let inner = lemma_filter_places(members, under);
    let found = members.filter(under);
    assert forall|i: int|
        #[trigger] is_of_device(seen, i, key) && seen[i].device.service_type == service implies
        found.len() > 0 && i <= places[inner[inner.len() - 1]] by {
        assert(places.contains(i));
        let m = choose|m: int| 0 <= m < places.len() && places[m] == i;
        assert(members[m] == seen[i]);
        assert(under(members[m]));
        assert(inner.contains(m));
        let k = choose|k: int| 0 <= k < inner.len() && inner[k] == m;
        assert(inner[k] <= inner[inner.len() - 1]);
        assert(places[m] <= places[inner[inner.len() - 1]]);
    }
    if found.len() > 0 {
        let last = places[inner[inner.len() - 1]];
        assert(members[inner[inner.len() - 1]] == seen[last]);
        assert(found.last() == seen[last]);
        assert(is_of_device(seen, last, key));
    }
}

/// Where the device of a usable advertisement with an address comes out.
proof fn lemma_host_comes_out(seen: Seq<Sighting>, cache_dir: PathBuf, i: int) -> (at: int)
    requires
        0 <= i < seen.len(),
        groupable(seen[i].device),
        seen[i].ip is Some,
    ensures
        0 <= at < grouped_devices(seen, cache_dir).len(),
        addressed_keys(seen)[at] == correlation_key(seen[i].device),
{
    lemma_every_addressed_sighting_is_grouped(seen, i);
    let key = correlation_key(seen[i].device);
    choose|at: int| 0 <= at < addressed_keys(seen).len() && addressed_keys(seen)[at] == key
}

/// Two usable advertisements with addresses and different host names come out as
/// two devices. Where every usable advertisement has a host name, the two are paired
/// under these two, but for the case of their letters.
pub proof fn lemma_different_hosts_come_out_apart(
    seen: Seq<Sighting>,
    cache_dir: PathBuf,
    i: int,
    j: int,
) -> (places: (int, int))
    requires
        0 <= i < seen.len(),
        0 <= j < seen.len(),
        groupable(seen[i].device),
        groupable(seen[j].device),
        seen[i].ip is Some,
        seen[j].ip is Some,
        seen[i].device.hostname.len() > 0,
        seen[j].device.hostname.len() > 0,
        lowered(seen[i].device.hostname) != lowered(seen[j].device.hostname),
    ensures
        0 <= places.0 < grouped_devices(seen, cache_dir).len(),
        0 <= places.1 < grouped_devices(seen, cache_dir).len(),
        places.0 != places.1,
        (forall|k: int|
            0 <= k < seen.len() && groupable(seen[k].device)
                ==> (#[trigger] seen[k]).device.hostname.len() > 0) ==> {
            let outs = grouped_devices(seen, cache_dir);
            &&& lowered(outs[places.0].pairing_identity->0) == lowered(seen[i].device.hostname)
            &&& lowered(outs[places.1].pairing_identity->0) == lowered(seen[j].device.hostname)
        },
{
    let a = lemma_host_comes_out(seen, cache_dir, i);
    let b = lemma_host_comes_out(seen, cache_dir, j);
    lemma_host_names_tell_devices_apart(seen[i].device, seen[j].device);
    assert(addressed_keys(seen)[a] != addressed_keys(seen)[b]);
    let leads = lemma_devices_come_out_in_order(seen, cache_dir);
    if forall|k: int|
        0 <= k < seen.len() && groupable(seen[k].device)
            ==> (#[trigger] seen[k]).device.hostname.len() > 0 {
        lemma_device_is_named_by_first_sighting(seen, cache_dir, a, leads[a]);
        lemma_device_is_named_by_first_sighting(seen, cache_dir, b, leads[b]);
        lemma_host_names_tell_devices_apart(seen[leads[a]].device, seen[i].device);
        lemma_host_names_tell_devices_apart(seen[leads[b]].device, seen[j].device);
    }
    (a, b)
}

/// Two usable advertisements whose host names differ at most in the case of their
/// letters are of one device: whichever of the devices that come out they are part
/// of, it is the same.
pub proof fn lemma_one_host_comes_out_once(
    seen: Seq<Sighting>,
    cache_dir: PathBuf,
    i: int,
    j: int,
    a: int,
    b: int,
)
    requires
        0 <= a < grouped_devices(seen, cache_dir).len(),
        0 <= b < grouped_devices(seen, cache_dir).len(),
        is_of_device(seen, i, addressed_keys(seen)[a]),
        is_of_device(seen, j, addressed_keys(seen)[b]),
        seen[i].device.hostname.len() > 0,
        seen[j].device.hostname.len() > 0,
        lowered(seen[i].device.hostname) == lowered(seen[j].device.hostname),
    ensures
        a == b,
{
    let addressed = |k: Seq<char>| group_address(group_members(seen, k)) is Some;
    lemma_host_names_tell_devices_apart(seen[i].device, seen[j].device);
    lemma_group_keys_distinct(seen);
    lemma_filter_keeps_distinct(group_keys(seen), addressed);
}

} // verus!
