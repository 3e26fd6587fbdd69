//! Filling in what an advertisement does not say from the ones that only
//! describe the same device.
use vstd::prelude::*;
use crate::discovery::{
    views, DeviceType, DiscoveredDevice, DiscoveredDeviceView, COMPANION_LINK_SERVICE,
    METADATA_SERVICE_TYPES,
};
use crate::sequences::{lemma_filter_keeps_all, lemma_filter_places};
use crate::string_map::StringMap;
use crate::text::{copy_optional, lowered, optional_view, same_text, to_ascii_lowercase};

verus! {

/// Whether a service only describes a device.
pub open spec fn describes_only(service_type: Seq<char>) -> bool {
    service_type == COMPANION_LINK_SERVICE@
}

pub fn is_metadata_service(service_type: &str) -> (r: bool)
    ensures
        r == describes_only(service_type@),
{
    let mut i: usize = 0;
    while i < METADATA_SERVICE_TYPES.len()
        invariant
            forall|k: int| 0 <= k < i ==> METADATA_SERVICE_TYPES@[k]@ != service_type@,
        decreases METADATA_SERVICE_TYPES.len() - i,
    {
        assert(METADATA_SERVICE_TYPES@[0]@ == COMPANION_LINK_SERVICE@);
        if same_text(METADATA_SERVICE_TYPES[i], service_type) {
            return true;
        }
        i += 1;
    }
    assert(METADATA_SERVICE_TYPES@[0]@ == COMPANION_LINK_SERVICE@);
    false
}

/// What tells one device from another: its folded host name, or its folded name
/// where it has no host name.
pub open spec fn correlation_key(device: DiscoveredDeviceView) -> Seq<char> {
    lowered(
        if device.hostname.len() == 0 {
            device.name
        } else {
            device.hostname
        },
    )
}

pub fn device_correlation_key(device: &DiscoveredDevice) -> (r: String)
    ensures
        r@ == correlation_key(device@),
{
    if device.hostname.as_str().is_empty() {
        to_ascii_lowercase(device.name.as_str())
    } else {
        to_ascii_lowercase(device.hostname.as_str())
    }
}

/// The advertisements that only describe the device of this key, in order.
pub open spec fn descriptions(devices: Seq<DiscoveredDeviceView>, key: Seq<char>) -> Seq<
    DiscoveredDeviceView,
> {
    devices.filter(
        |d: DiscoveredDeviceView| describes_only(d.service_type) && correlation_key(d) == key,
    )
}

/// Those of some advertisements that tell the kind of device.
pub open spec fn typed(devices: Seq<DiscoveredDeviceView>) -> Seq<DiscoveredDeviceView> {
    devices.filter(|d: DiscoveredDeviceView| d.device_type != DeviceType::Unknown)
}

/// The description to go by: the first that tells the kind of device, else the
/// last one.
pub open spec fn metadata_for(devices: Seq<DiscoveredDeviceView>, key: Seq<char>) -> Option<
    DiscoveredDeviceView,
> {
    let all = descriptions(devices, key);
    if typed(all).len() > 0 {
        Some(typed(all).first())
    } else if all.len() > 0 {
        Some(all.last())
    } else {
        None
    }
}

/// The device with what it lacks taken from its description, unless the two tell
/// different kinds of device.
pub open spec fn enriched(
    device: DiscoveredDeviceView,
    description: Option<DiscoveredDeviceView>,
) -> DiscoveredDeviceView {
    match description {
        Some(meta) => if device.device_type == DeviceType::Unknown || meta.device_type
            == DeviceType::Unknown || device.device_type == meta.device_type {
            DiscoveredDeviceView {
                device_type: if device.device_type == DeviceType::Unknown {
                    meta.device_type
                } else {
                    device.device_type
                },
                product_type: if device.product_type is None {
                    meta.product_type
                } else {
                    device.product_type
                },
                os_version: if device.os_version is None {
                    meta.os_version
                } else {
                    device.os_version
                },
                ..device
            }
        } else {
            device
        },
        None => device,
    }
}

/// The advertisements that are a way to reach a device, in order, each filled in
/// from its description.
pub open spec fn enriched_devices(devices: Seq<DiscoveredDeviceView>) -> Seq<
    DiscoveredDeviceView,
> {
    devices.filter(|d: DiscoveredDeviceView| !describes_only(d.service_type)).map_values(
        |d: DiscoveredDeviceView| enriched(d, metadata_for(devices, correlation_key(d))),
    )
}

/// What is kept of a description.
struct Description {
    device_type: DeviceType,
    product_type: Option<String>,
    os_version: Option<String>,
}

impl Description {
    spec fn is_of(self, device: DiscoveredDeviceView) -> bool {
        &&& self.device_type == device.device_type
        &&& optional_view(self.product_type) == device.product_type
        &&& optional_view(self.os_version) == device.os_version
    }
}

/// Whether the map holds the description to go by of every device.
spec fn holds_metadata(
    metadata: Map<Seq<char>, Description>,
    devices: Seq<DiscoveredDeviceView>,
) -> bool {
    forall|key: Seq<char>|
        {
            &&& #[trigger] metadata.contains_key(key) == (metadata_for(devices, key) is Some)
            &&& metadata.contains_key(key) ==> metadata[key].is_of(metadata_for(devices, key)->0)
        }
}

/// How one more advertisement changes the description to go by.
proof fn lemma_metadata_grows(
    devices: Seq<DiscoveredDeviceView>,
    next: DiscoveredDeviceView,
    key: Seq<char>,
)
    ensures
        metadata_for(devices.push(next), key) == (if describes_only(next.service_type)
            && correlation_key(next) == key && !(metadata_for(devices, key) is Some
            && metadata_for(devices, key)->0.device_type != DeviceType::Unknown) {
            Some(next)
        } else {
            metadata_for(devices, key)
        }),
{
    reveal(Seq::filter);
    let longer = devices.push(next);
    assert(longer.drop_last() =~= devices);
    let before = descriptions(devices, key);
    let known = |d: DiscoveredDeviceView| d.device_type != DeviceType::Unknown;
    if typed(before).len() > 0 {
        before.lemma_filter_pred(known, 0);
    }
    if describes_only(next.service_type) && correlation_key(next) == key {
        let after = descriptions(longer, key);
        assert(after == before.push(next));
        assert(after.drop_last() =~= before);
    }
}

/// Takes over one advertisement into the map of descriptions.
fn note_metadata(
    metadata: &mut StringMap<Description>,
    device: &DiscoveredDevice,
    Ghost(before): Ghost<Seq<DiscoveredDeviceView>>,
)
    requires
        holds_metadata(old(metadata)@, before),
    ensures
        holds_metadata(final(metadata)@, before.push(device@)),
{
    proof {
        assert forall|key: Seq<char>| true implies metadata_for(before.push(device@), key) == (
        if describes_only(device@.service_type) && correlation_key(device@) == key && !(
        metadata_for(before, key) is Some && metadata_for(before, key)->0.device_type
            != DeviceType::Unknown) {
            Some(device@)
        } else {
            #[trigger] metadata_for(before, key)
        }) by {
            lemma_metadata_grows(before, device@, key);
        }
    }
    if !is_metadata_service(device.service_type.as_str()) {
        return;
    }
    let key = device_correlation_key(device);
    let should_replace = match metadata.get(key.as_str()) {
        Some(existing) => existing.device_type == DeviceType::Unknown,
        None => true,
    };
    assert(metadata@.contains_key(key@) == (metadata_for(before, key@) is Some));
    if should_replace {
        metadata.insert(
            key,
            Description {
                device_type: device.device_type,
                product_type: copy_optional(&device.product_type),
                os_version: copy_optional(&device.os_version),
            },
        );
    }
}

/// Fills in one device from the map of descriptions.
fn enrich(device: &mut DiscoveredDevice, metadata: &StringMap<Description>, Ghost(all): Ghost<
    Seq<DiscoveredDeviceView>,
>)
    requires
        holds_metadata(metadata@, all),
    ensures
        final(device)@ == enriched(old(device)@, metadata_for(all, correlation_key(old(device)@))),
{
    let key = device_correlation_key(device);
    assert(metadata@.contains_key(key@) == (metadata_for(all, key@) is Some));
    if let Some(meta) = metadata.get(key.as_str()) {
        let agrees = device.device_type == DeviceType::Unknown || meta.device_type
            == DeviceType::Unknown || device.device_type == meta.device_type;
        if agrees {
            if device.device_type == DeviceType::Unknown {
                device.device_type = meta.device_type;
            }
            if device.product_type.is_none() {
                device.product_type = copy_optional(&meta.product_type);
            }
            if device.os_version.is_none() {
                device.os_version = copy_optional(&meta.os_version);
            }
        }
    }
}

pub fn enrich_and_filter(devices: Vec<DiscoveredDevice>) -> (r: Vec<DiscoveredDevice>)
    ensures
        views(r@) == enriched_devices(views(devices@)),
{
    let ghost all = views(devices@);
    let mut metadata: StringMap<Description> = StringMap::new();
    let mut i: usize = 0;
    assert forall|key: Seq<char>| metadata_for(all.take(0), key) is None by {
        reveal(Seq::filter);
    }
    while i < devices.len()
        invariant
            i <= devices.len(),
            all == views(devices@),
            holds_metadata(metadata@, all.take(i as int)),
        decreases devices.len() - i,
    {
        note_metadata(&mut metadata, &devices[i], Ghost(all.take(i as int)));
        assert(all.take(i as int).push(devices@[i as int]@) =~= all.take(i + 1));
        i += 1;
    }
    assert(all.take(i as int) =~= all);

    let mut result: Vec<DiscoveredDevice> = Vec::new();
    let ghost kept = |d: DiscoveredDeviceView| !describes_only(d.service_type);
    let ghost fill = |d: DiscoveredDeviceView|
        enriched(d, metadata_for(all, correlation_key(d)));
    assert(views(result@) =~= all.take(0).filter(kept).map_values(fill)) by {
        reveal(Seq::filter);
    }
    for device in it: devices
        invariant
            it.seq() == devices@,
            all == views(devices@),
            holds_metadata(metadata@, all),
            kept == (|d: DiscoveredDeviceView| !describes_only(d.service_type)),
            fill == (|d: DiscoveredDeviceView|
                enriched(d, metadata_for(all, correlation_key(d)))),
            views(result@) == all.take(it.index()).filter(kept).map_values(fill),
    {
        proof {
            reveal(Seq::filter);
            let n = it.index();
            assert(all.take(n + 1).drop_last() =~= all.take(n));
            assert(all.take(n + 1).last() == device@);
        }
        let ghost before = all.take(it.index()).filter(kept);
        if !is_metadata_service(device.service_type.as_str()) {
            let mut device = device;
            let ghost plain = device@;
            enrich(&mut device, &metadata, Ghost(all));
            let ghost had = result@;
            result.push(device);
            proof {
                assert(views(result@) =~= views(had).push(device@));
                assert(before.push(plain).map_values(fill) =~= before.map_values(fill).push(
                    fill(plain),
                ));
            }
        }
    }
    assert(all.take(all.len() as int) =~= all);
    result
}

// ---------------------------------------------------------------- laws

/// A description that tells the kind of device is preferred to one that does
/// not, wherever the two stand: what is gone by tells the kind as soon as any
/// description of the device does.
pub proof fn lemma_typed_description_preferred(
    devices: Seq<DiscoveredDeviceView>,
    key: Seq<char>,
    at: int,
)
    requires
        0 <= at < devices.len(),
        describes_only(devices[at].service_type),
        correlation_key(devices[at]) == key,
        devices[at].device_type != DeviceType::Unknown,
    ensures
        metadata_for(devices, key) is Some,
        metadata_for(devices, key)->0.device_type != DeviceType::Unknown,
{
    let of_key = |d: DiscoveredDeviceView|
        describes_only(d.service_type) && correlation_key(d) == key;
    let known = |d: DiscoveredDeviceView| d.device_type != DeviceType::Unknown;
    let all = descriptions(devices, key);
    devices.lemma_filter_contains(of_key, at);
    let j = choose|j: int| 0 <= j < all.len() && all[j] == devices[at];
    all.lemma_filter_contains(known, j);
    let found = typed(all);
    assert(found.contains(all[j]));
    all.lemma_filter_pred(known, 0);
}

/// Nothing that only describes a device comes out, and every other
/// advertisement does, once, in order, with its name, host name, address, port
/// and service as they were.
pub proof fn lemma_enrichment_keeps_reachable(devices: Seq<DiscoveredDeviceView>)
    ensures
        enriched_devices(devices).len() == devices.filter(
            |d: DiscoveredDeviceView| !describes_only(d.service_type),
        ).len(),
        forall|i: int|
            #![trigger enriched_devices(devices)[i]]
            0 <= i < enriched_devices(devices).len() ==> {
                let before = devices.filter(
                    |d: DiscoveredDeviceView| !describes_only(d.service_type),
                )[i];
                let after = enriched_devices(devices)[i];
                &&& !describes_only(after.service_type)
                &&& after == (DiscoveredDeviceView {
                    device_type: after.device_type,
                    product_type: after.product_type,
                    os_version: after.os_version,
                    ..before
                })
            },
{
    let kept = |d: DiscoveredDeviceView| !describes_only(d.service_type);
    assert forall|i: int| 0 <= i < enriched_devices(devices).len() implies !describes_only(
        (#[trigger] enriched_devices(devices)[i]).service_type,
    ) by {
        devices.lemma_filter_pred(kept, i);
    }
}

/// What an advertisement says itself is never overwritten.
pub proof fn lemma_enrichment_keeps_what_is_known(
    device: DiscoveredDeviceView,
    description: Option<DiscoveredDeviceView>,
)
    ensures
        device.device_type != DeviceType::Unknown ==> enriched(device, description).device_type
            == device.device_type,
        device.product_type is Some ==> enriched(device, description).product_type
            == device.product_type,
        device.os_version is Some ==> enriched(device, description).os_version
            == device.os_version,
{
}

/// Filling in a device twice from one description is filling it in once.
pub proof fn lemma_enriching_twice_is_once(
    device: DiscoveredDeviceView,
    description: Option<DiscoveredDeviceView>,
)
    ensures
        enriched(enriched(device, description), description) == enriched(device, description),
{
}

/// What comes out, put in again, comes out as it is.
pub proof fn lemma_enriched_devices_stay(devices: Seq<DiscoveredDeviceView>)
    ensures
        enriched_devices(enriched_devices(devices)) == enriched_devices(devices),
{
    let kept = |d: DiscoveredDeviceView| !describes_only(d.service_type);
    let once = enriched_devices(devices);
    lemma_enrichment_keeps_reachable(devices);
    assert forall|i: int| 0 <= i < once.len() implies kept(#[trigger] once[i]) by {}
    lemma_filter_keeps_all(once, kept);
    assert forall|key: Seq<char>| metadata_for(once, key) is None by {
        let of_key = |d: DiscoveredDeviceView|
            describes_only(d.service_type) && correlation_key(d) == key;
        assert forall|i: int| 0 <= i < once.len() implies !of_key(#[trigger] once[i]) by {
            assert(kept(once[i]));
        }
        once.lemma_all_neg_filter_empty(of_key);
        reveal(Seq::filter);
    }
    assert(enriched_devices(once) =~= once);
}

/// Two advertisements with host names are of one device if and only if the whole
/// host names agree, but for the case of their letters, whatever else they say.
/// Without host names the names tell them apart in the same way, and a name stands
/// in for a host name that is missing.
pub proof fn lemma_host_names_tell_devices_apart(a: DiscoveredDeviceView, b: DiscoveredDeviceView)
    ensures
        a.hostname.len() > 0 && b.hostname.len() > 0 ==> (correlation_key(a) == correlation_key(b)
            <==> lowered(a.hostname) == lowered(b.hostname)),
        a.hostname.len() == 0 && b.hostname.len() == 0 ==> (correlation_key(a) == correlation_key(b)
            <==> lowered(a.name) == lowered(b.name)),
        a.hostname.len() == 0 && b.hostname.len() > 0 ==> (correlation_key(a) == correlation_key(b)
            <==> lowered(a.name) == lowered(b.hostname)),
{
}

/// One service describes devices and every other one is a way to reach them.
pub proof fn lemma_describing_service(service_type: Seq<char>)
    ensures
        describes_only(service_type) <==> service_type == "_companion-link._tcp.local."@,
{
}

/// The place of the description to go by, where there is one: of those that tell the
/// kind of device the first, and where none does the last of all.
pub proof fn lemma_description_gone_by(devices: Seq<DiscoveredDeviceView>, key: Seq<char>) -> (at:
    int)
    ensures
        metadata_for(devices, key) is Some <==> exists|i: int| #[trigger]
            describes(devices, i, key),
        metadata_for(devices, key) is Some ==> {
            &&& describes(devices, at, key)
            &&& metadata_for(devices, key) == Some(devices[at])
            &&& devices[at].device_type != DeviceType::Unknown ==> forall|i: int|
                #[trigger] describes(devices, i, key) && i < at ==> devices[i].device_type
                    == DeviceType::Unknown
            &&& devices[at].device_type == DeviceType::Unknown ==> forall|i: int|
                #[trigger] describes(devices, i, key) ==> i <= at && devices[i].device_type
                    == DeviceType::Unknown
        },
{
    let of_key = |d: DiscoveredDeviceView|
        describes_only(d.service_type) && correlation_key(d) == key;
    let known = |d: DiscoveredDeviceView| d.device_type != DeviceType::Unknown;
    let all = descriptions(devices, key);
    let places = lemma_filter_places(devices, of_key);
    let found = typed(all);
    let inner = lemma_filter_places(all, known);
    assert forall|i: int| #[trigger] describes(devices, i, key) implies places.contains(i) by {
        assert(of_key(devices[i]));
    }
    if found.len() > 0 {
        let at = places[inner[0]];
        assert(all[inner[0]] == devices[at]);
        assert(describes(devices, at, key));
        assert forall|i: int|
            #[trigger] describes(devices, i, key) && i < at implies devices[i].device_type
            == DeviceType::Unknown by {
            let j = choose|j: int| 0 <= j < places.len() && places[j] == i;
            assert(all[j] == devices[i]);
            if known(all[j]) {
                assert(inner.contains(j));
                let k = choose|k: int| 0 <= k < inner.len() && inner[k] == j;
                assert(inner[0] <= inner[k]);
                assert(places[inner[0]] <= places[j]);
            }
        }
        at
    } else if all.len() > 0 {
        let at = places[all.len() - 1];
        assert(all[all.len() - 1] == devices[at]);
        assert(describes(devices, at, key));
        assert forall|i: int| #[trigger] describes(devices, i, key) implies i <= at
            && devices[i].device_type == DeviceType::Unknown by {
            let j = choose|j: int| 0 <= j < places.len() && places[j] == i;
            assert(all[j] == devices[i]);
            assert(!known(all[j])) by {
                if known(all[j]) {
                    assert(inner.contains(j));
                }
            }
        }
        at
    } else {
        assert forall|i: int| !#[trigger] describes(devices, i, key) by {
            if describes(devices, i, key) {
                assert(places.contains(i));
            }
        }
        0
    }
}

/// Whether the advertisement at a place only describes the device of a key.
pub open spec fn describes(devices: Seq<DiscoveredDeviceView>, i: int, key: Seq<char>) -> bool {
    0 <= i < devices.len() && describes_only(devices[i].service_type) && correlation_key(devices[i])
        == key
}

/// What a device does not say of itself is taken from its description, unless the
/// two tell different kinds of device; without a description it stays as it is.
pub proof fn lemma_description_fills_gaps(
    device: DiscoveredDeviceView,
    meta: DiscoveredDeviceView,
)
    ensures
        enriched(device, None) == device,
        ({
            let filled = enriched(device, Some(meta));
            let conflict = device.device_type != DeviceType::Unknown && meta.device_type
                != DeviceType::Unknown && device.device_type != meta.device_type;
            &&& conflict ==> filled == device
            &&& !conflict && device.device_type == DeviceType::Unknown ==> filled.device_type
                == meta.device_type
            &&& !conflict && device.product_type is None ==> filled.product_type
                == meta.product_type
            &&& !conflict && device.os_version is None ==> filled.os_version == meta.os_version
            &&& filled == (DiscoveredDeviceView {
                device_type: filled.device_type,
                product_type: filled.product_type,
                os_version: filled.os_version,
                ..device
            })
        }),
{
}

/// Every advertisement that is a way to reach a device comes out, in order, filled in
/// from the description of its own device: its place among those that come out.
pub proof fn lemma_reachable_comes_out(devices: Seq<DiscoveredDeviceView>) -> (places: Seq<int>)
    ensures
        places.len() == enriched_devices(devices).len(),
        forall|j: int|
            0 <= j < places.len() ==> 0 <= #[trigger] places[j] < devices.len()
                && !describes_only(devices[places[j]].service_type) && enriched_devices(devices)[j]
                == enriched(
                devices[places[j]],
                metadata_for(devices, correlation_key(devices[places[j]])),
            ),
        forall|j: int, k: int| 0 <= j < k < places.len() ==> places[j] < places[k],
        forall|i: int|
            0 <= i < devices.len() && !describes_only(devices[i].service_type)
                ==> #[trigger] places.contains(i),
{
    lemma_filter_places(
        devices,
        |d: DiscoveredDeviceView| !describes_only(d.service_type),
    )
}

/// A device whose kind is not told by its own advertisement comes out with its kind
/// as soon as any description under its host name tells one.
pub proof fn lemma_kind_comes_from_description(
    devices: Seq<DiscoveredDeviceView>,
    i: int,
    at: int,
)
    requires
        0 <= i < devices.len(),
        0 <= at < devices.len(),
        devices[i].service_type != "_companion-link._tcp.local."@,
        devices[at].service_type == "_companion-link._tcp.local."@,
        devices[i].device_type == DeviceType::Unknown,
        devices[at].device_type != DeviceType::Unknown,
        devices[i].hostname.len() > 0,
        devices[at].hostname.len() > 0,
        lowered(devices[i].hostname) == lowered(devices[at].hostname),
    ensures
        exists|j: int|
            0 <= j < enriched_devices(devices).len() && {
                let out = #[trigger] enriched_devices(devices)[j];
                &&& out.device_type != DeviceType::Unknown
                &&& out.hostname == devices[i].hostname
                &&& out.service_type == devices[i].service_type
                &&& out.ip_address == devices[i].ip_address
                &&& out.port == devices[i].port
            },
{
    let key = correlation_key(devices[i]);
    lemma_typed_description_preferred(devices, key, at);
    let places = lemma_reachable_comes_out(devices);
    assert(places.contains(i));
    let j = choose|j: int| 0 <= j < places.len() && places[j] == i;
    assert(enriched_devices(devices)[j] == enriched(devices[i], metadata_for(devices, key)));
}

} // verus!
