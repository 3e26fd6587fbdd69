//! Devices found on the network: service names, what an advertisement says of a
//! device, and how several advertisements of one device become one.
pub mod enrichment;
pub mod grouping;
pub mod mdns;
pub mod presence;

pub use crate::discovery::enrichment::{
    device_correlation_key, enrich_and_filter, is_metadata_service,
};
pub use crate::discovery::grouping::group_network_devices;
pub use crate::discovery::presence::disconnected_after_missed_scans;
use vstd::prelude::*;
use crate::net::AdvertisedAddress;
use crate::sequences::lemma_filter_grows;
use crate::string_map::StringMap;
use crate::text::{
    chars_of, contains, contains_text, lemma_trimmed_end_drops_one_run, lower, lower_char, lowered,
    optional_view, replace_char, replaced, same_text, starts_with, to_ascii_lowercase,
    trim_end_matches, trimmed_end,
};

verus! {

pub const REMOTEPAIRING_MANUAL_PAIRING_SERVICE: &'static str =
    "_remotepairing-manual-pairing._tcp.local.";

pub const REMOTEPAIRING_SERVICE: &'static str = "_remotepairing._tcp.local.";

pub const APPLE_MOBDEV2_SERVICE: &'static str = "_apple-mobdev2._tcp.local.";

pub const APPLE_PAIRABLE_SERVICE: &'static str = "_apple-pairable._tcp.local.";

pub const COMPANION_LINK_SERVICE: &'static str = "_companion-link._tcp.local.";

pub const SERVICE_TYPES: [&'static str; 4] = [
    APPLE_MOBDEV2_SERVICE,
    APPLE_PAIRABLE_SERVICE,
    REMOTEPAIRING_SERVICE,
    REMOTEPAIRING_MANUAL_PAIRING_SERVICE,
];

/// Services that only describe a device and are no way to reach it.
pub const METADATA_SERVICE_TYPES: [&'static str; 1] = [COMPANION_LINK_SERVICE];

pub const ALL_SCANNED_SERVICE_TYPES: [&'static str; 5] = [
    APPLE_MOBDEV2_SERVICE,
    APPLE_PAIRABLE_SERVICE,
    REMOTEPAIRING_SERVICE,
    REMOTEPAIRING_MANUAL_PAIRING_SERVICE,
    COMPANION_LINK_SERVICE,
];

#[derive(Debug, Clone, Copy, PartialEq, Eq, Structural)]
pub enum DeviceType {
    IPhone,
    IPad,
    AppleTV,
    AppleMac,
    Unknown,
}

/// The kind of device that a device class names.
pub open spec fn type_of_class(device_class: Seq<char>) -> DeviceType {
    if device_class == "iPhone"@ {
        DeviceType::IPhone
    } else if device_class == "iPad"@ {
        DeviceType::IPad
    } else if device_class == "AppleTV"@ {
        DeviceType::AppleTV
    } else if device_class == "Mac"@ {
        DeviceType::AppleMac
    } else {
        DeviceType::Unknown
    }
}

/// The kind of device that a product type begins with.
pub open spec fn type_of_product(product_type: Seq<char>) -> DeviceType {
    if "iPhone"@.is_prefix_of(product_type) {
        DeviceType::IPhone
    } else if "iPad"@.is_prefix_of(product_type) {
        DeviceType::IPad
    } else if "AppleTV"@.is_prefix_of(product_type) {
        DeviceType::AppleTV
    } else if "Mac"@.is_prefix_of(product_type) {
        DeviceType::AppleMac
    } else {
        DeviceType::Unknown
    }
}

impl DeviceType {
    pub fn from_device_class(device_class: &str) -> (r: DeviceType)
        ensures
            r == type_of_class(device_class@),
    {
        if same_text(device_class, "iPhone") {
            DeviceType::IPhone
        } else if same_text(device_class, "iPad") {
            DeviceType::IPad
        } else if same_text(device_class, "AppleTV") {
            DeviceType::AppleTV
        } else if same_text(device_class, "Mac") {
            DeviceType::AppleMac
        } else {
            DeviceType::Unknown
        }
    }

    pub fn from_product_type(product_type: &str) -> (r: DeviceType)
        ensures
            r == type_of_product(product_type@),
    {
        if starts_with(product_type, "iPhone") {
            DeviceType::IPhone
        } else if starts_with(product_type, "iPad") {
            DeviceType::IPad
        } else if starts_with(product_type, "AppleTV") {
            DeviceType::AppleTV
        } else if starts_with(product_type, "Mac") {
            DeviceType::AppleMac
        } else {
            DeviceType::Unknown
        }
    }

    /// The written name of the kind of device.
    pub fn label(&self) -> (r: &'static str)
        ensures
            r@ == (match self {
                DeviceType::IPhone => "iPhone"@,
                DeviceType::IPad => "iPad"@,
                DeviceType::AppleTV => "Apple TV"@,
                DeviceType::AppleMac => "Mac"@,
                DeviceType::Unknown => "Unknown"@,
            }),
    {
        match self {
            DeviceType::IPhone => "iPhone",
            DeviceType::IPad => "iPad",
            DeviceType::AppleTV => "Apple TV",
            DeviceType::AppleMac => "Mac",
            DeviceType::Unknown => "Unknown",
        }
    }
}

#[derive(Debug, Clone, Copy, PartialEq, Eq, Structural)]
pub enum ConnectionType {
    USB,
    WiFi,
}

impl ConnectionType {
    /// The written name of the kind of connection.
    pub fn label(&self) -> (r: &'static str)
        ensures
            r@ == (match self {
                ConnectionType::USB => "USB"@,
                ConnectionType::WiFi => "WiFi"@,
            }),
    {
        match self {
            ConnectionType::USB => "USB",
            ConnectionType::WiFi => "WiFi",
        }
    }
}

/// One advertisement of a device.
#[derive(Debug, Clone)]
pub struct DiscoveredDevice {
    pub name: String,
    pub hostname: String,
    pub udid: Option<String>,
    pub ip_address: Option<String>,
    pub port: Option<u16>,
    pub device_type: DeviceType,
    pub connection_type: ConnectionType,
    pub is_paired: bool,
    pub product_type: Option<String>,
    pub os_version: Option<String>,
    pub service_type: String,
}

/// An advertisement with its texts as characters.
pub struct DiscoveredDeviceView {
    pub name: Seq<char>,
    pub hostname: Seq<char>,
    pub udid: Option<Seq<char>>,
    pub ip_address: Option<Seq<char>>,
    pub port: Option<u16>,
    pub device_type: DeviceType,
    pub connection_type: ConnectionType,
    pub is_paired: bool,
    pub product_type: Option<Seq<char>>,
    pub os_version: Option<Seq<char>>,
    pub service_type: Seq<char>,
}

impl View for DiscoveredDevice {
    type V = DiscoveredDeviceView;

    open spec fn view(&self) -> DiscoveredDeviceView {
        DiscoveredDeviceView {
            name: self.name@,
            hostname: self.hostname@,
            udid: optional_view(self.udid),
            ip_address: optional_view(self.ip_address),
            port: self.port,
            device_type: self.device_type,
            connection_type: self.connection_type,
            is_paired: self.is_paired,
            product_type: optional_view(self.product_type),
            os_version: optional_view(self.os_version),
            service_type: self.service_type@,
        }
    }
}

/// Advertisements with their texts as characters.
pub open spec fn views(devices: Seq<DiscoveredDevice>) -> Seq<DiscoveredDeviceView> {
    devices.map_values(|d: DiscoveredDevice| d@)
}

// ---------------------------------------------------------------- names

/// Whether `s` ends with `suffix` up to ASCII case.
pub open spec fn ends_ignoring_case(s: Seq<char>, suffix: Seq<char>) -> bool {
    suffix.len() <= s.len() && lowered(s.skip(s.len() - suffix.len())) == lowered(suffix)
}

pub fn ends_with_ignore_case(s: &str, suffix: &str) -> (r: bool)
    ensures
        r == ends_ignoring_case(s@, suffix@),
{
    let haystack: Vec<char> = chars_of(s);
    let needle: Vec<char> = chars_of(suffix);
    if needle.len() > haystack.len() {
        return false;
    }
    let start: usize = haystack.len() - needle.len();
    let mut i: usize = 0;
    while i < needle.len()
        invariant
            haystack@ == s@,
            needle@ == suffix@,
            start == haystack.len() - needle.len(),
            i <= needle.len(),
            forall|k: int| 0 <= k < i ==> lower(haystack@[start + k]) == lower(#[trigger] needle@[k]),
        decreases needle.len() - i,
    {
        if lower_char(haystack[start + i]) != lower_char(needle[i]) {
            proof {
                assert(lowered(s@.skip(start as int))[i as int] == lower(haystack@[start + i]));
                assert(lowered(suffix@)[i as int] == lower(needle@[i as int]));
            }
            return false;
        }
        i += 1;
    }
    assert(lowered(s@.skip(start as int)) =~= lowered(suffix@));
    true
}

/// The instance label of a full service name: what stands before the dot and the
/// service type, or the full name where it does not end so. Dots at the end of
/// either count for nothing.
pub open spec fn instance_label(full_name: Seq<char>, service_type: Seq<char>) -> Seq<char> {
    let full = trimmed_end(full_name, '.');
    let service = trimmed_end(service_type, '.');
    let cut = full.len() - service.len() - 1;
    if service.len() > 0 && cut > 0 && ends_ignoring_case(full, service) && full[cut] == '.' {
        full.take(cut)
    } else {
        full
    }
}

pub fn parse_instance_name(full_name: &str, service_type: &str) -> (r: String)
    ensures
        r@ == instance_label(full_name@, service_type@),
{
    let full = trim_end_matches(full_name, '.');
    let service = trim_end_matches(service_type, '.');
    let full_len: usize = full.unicode_len();
    let service_len: usize = service.unicode_len();
    if service_len > 0 && service_len < full_len {
        let cut: usize = full_len - service_len - 1;
        if cut > 0 && ends_with_ignore_case(full, service) && full.get_char(cut) == '.' {
            return full.substring_char(0, cut).to_string();
        }
    }
    full.to_string()
}

/// A host name without dots at its end and without `.local` before them.
pub open spec fn short_host(hostname: Seq<char>) -> Seq<char> {
    let host = trimmed_end(hostname, '.');
    if ends_ignoring_case(host, ".local"@) {
        host.take(host.len() - ".local"@.len())
    } else {
        host
    }
}

pub fn short_hostname<'a>(hostname: &'a str) -> (r: &'a str)
    ensures
        r@ == short_host(hostname@),
{
    let host = trim_end_matches(hostname, '.');
    if ends_with_ignore_case(host, ".local") {
        let kept: usize = host.unicode_len() - ".local".unicode_len();
        host.substring_char(0, kept)
    } else {
        host
    }
}

/// The host name, or the instance label where there is none, folded; with the
/// service type.
pub open spec fn advertisement_key(
    hostname: Seq<char>,
    instance_name: Seq<char>,
    service_type: Seq<char>,
) -> (Seq<char>, Seq<char>) {
    let host = short_host(hostname);
    (
        lowered(
            if host.len() == 0 {
                instance_name
            } else {
                host
            },
        ),
        service_type,
    )
}

/// What tells one advertisement from another.
pub fn dedup_key(hostname: &str, instance_name: &str, service_type: &str) -> (r: (String, String))
    ensures
        (r.0@, r.1@) == advertisement_key(hostname@, instance_name@, service_type@),
{
    let host = short_hostname(hostname);
    let base = if host.is_empty() {
        instance_name
    } else {
        host
    };
    (to_ascii_lowercase(base), service_type.to_string())
}

// ---------------------------------------------------------------- one advertisement

/// The first candidate key that is there with a text that is not empty.
pub open spec fn first_text(props: Map<Seq<char>, String>, candidates: Seq<&str>) -> Option<
    Seq<char>,
>
    decreases candidates.len(),
{
    if candidates.len() == 0 {
        None
    } else if props.contains_key(candidates[0]@) && props[candidates[0]@]@.len() > 0 {
        Some(props[candidates[0]@]@)
    } else {
        first_text(props, candidates.drop_first())
    }
}

pub fn first_non_empty<'a>(props: &'a StringMap<String>, candidates: &[&str]) -> (r: Option<
    &'a str,
>)
    ensures
        match r {
            Some(t) => first_text(props@, candidates@) == Some(t@),
            None => first_text(props@, candidates@) is None,
        },
{
    let mut i: usize = 0;
    assert(candidates@.skip(0) =~= candidates@);
    while i < candidates.len()
        invariant
            i <= candidates.len(),
            first_text(props@, candidates@.skip(i as int)) == first_text(props@, candidates@),
        decreases candidates.len() - i,
    {
        assert(candidates@.skip(i as int).drop_first() =~= candidates@.skip(i + 1));
        if let Some(value) = props.get(candidates[i]) {
            if !value.as_str().is_empty() {
                return Some(value.as_str());
            }
        }
        i += 1;
    }
    None
}

pub open spec fn class_keys() -> Seq<&'static str> {
    seq!["DeviceClass", "deviceClass"]
}

pub open spec fn product_keys() -> Seq<&'static str> {
    seq!["ProductType", "model", "rpMd"]
}

pub open spec fn version_keys() -> Seq<&'static str> {
    seq!["OSVersion", "osVersion"]
}

pub open spec fn name_keys() -> Seq<&'static str> {
    seq!["name", "Name"]
}

/// The kind of device that properties tell: by class, else by product.
pub open spec fn advertised_type(props: Map<Seq<char>, String>) -> DeviceType {
    match first_text(props, class_keys()) {
        Some(class) => type_of_class(class),
        None => match first_text(props, product_keys()) {
            Some(model) => type_of_product(model),
            None => DeviceType::Unknown,
        },
    }
}

/// The shown name: the host name with its hyphens as spaces, else the name that
/// the properties give, else the instance label.
pub open spec fn advertised_name(
    instance_name: Seq<char>,
    hostname: Seq<char>,
    props: Map<Seq<char>, String>,
) -> Seq<char> {
    let host = short_host(hostname);
    if host.len() > 0 {
        replaced(host, '-', ' ')
    } else {
        match first_text(props, name_keys()) {
            Some(name) => name,
            None => instance_name,
        }
    }
}

/// The address to use: the first IPv4 address, else the first address.
pub open spec fn preferred_address(addresses: Seq<AdvertisedAddress>) -> Option<Seq<char>> {
    let ipv4 = addresses.filter(|a: AdvertisedAddress| a.ip is V4);
    if ipv4.len() > 0 {
        Some(ipv4.first().text@)
    } else if addresses.len() > 0 {
        Some(addresses.first().text@)
    } else {
        None
    }
}

/// The advertisement that a resolved service makes. An identifier in the
/// properties is not trusted.
pub open spec fn advertisement(
    instance_name: Seq<char>,
    hostname: Seq<char>,
    service_type: Seq<char>,
    port: Option<u16>,
    addresses: Seq<AdvertisedAddress>,
    props: Map<Seq<char>, String>,
) -> DiscoveredDeviceView {
    DiscoveredDeviceView {
        name: advertised_name(instance_name, hostname, props),
        hostname: short_host(hostname),
        udid: None,
        ip_address: preferred_address(addresses),
        port,
        device_type: advertised_type(props),
        connection_type: ConnectionType::WiFi,
        is_paired: contains_text(service_type, "mobdev2"@),
        product_type: first_text(props, product_keys()),
        os_version: first_text(props, version_keys()),
        service_type,
    }
}

fn owned(s: Option<&str>) -> (r: Option<String>)
    ensures
        match s {
            Some(t) => optional_view(r) == Some(t@),
            None => r is None,
        },
{
    match s {
        Some(t) => Some(t.to_string()),
        None => None,
    }
}

fn choose_address(addresses: &[AdvertisedAddress]) -> (r: Option<String>)
    ensures
        optional_view(r) == preferred_address(addresses@),
{
    let ghost is_v4 = |a: AdvertisedAddress| a.ip is V4;
    let mut i: usize = 0;
    assert(addresses@.take(0).filter(is_v4).len() == 0) by {
        reveal(Seq::filter);
    }
    while i < addresses.len()
        invariant
            i <= addresses.len(),
            is_v4 == (|a: AdvertisedAddress| a.ip is V4),
            addresses@.take(i as int).filter(is_v4).len() == 0,
        decreases addresses.len() - i,
    {
        proof {
            lemma_filter_grows(addresses@, i as int, is_v4);
        }
        if addresses[i].ip.is_ipv4() {
            proof {
                let (head, tail) = (addresses@.take(i + 1), addresses@.skip(i + 1));
                assert(addresses@ =~= head + tail);
                Seq::filter_distributes_over_add(head, tail, is_v4);
            }
            return Some(addresses[i].text.clone());
        }
        i += 1;
    }
    assert(addresses@.take(i as int) =~= addresses@);
    if addresses.len() > 0 {
        Some(addresses[0].text.clone())
    } else {
        None
    }
}

pub fn build_device(
    instance_name: &str,
    hostname: &str,
    service_type: &str,
    port: Option<u16>,
    addresses: &[AdvertisedAddress],
    props: &StringMap<String>,
) -> (r: DiscoveredDevice)
    ensures
        r@ == advertisement(instance_name@, hostname@, service_type@, port, addresses@, props@),
{
    let class = first_non_empty(props, &["DeviceClass", "deviceClass"]);
    let model = first_non_empty(props, &["ProductType", "model", "rpMd"]);
    let version = first_non_empty(props, &["OSVersion", "osVersion"]);
    let given_name = first_non_empty(props, &["name", "Name"]);
    let device_type = match class {
        Some(c) => DeviceType::from_device_class(c),
        None => match model {
            Some(m) => DeviceType::from_product_type(m),
            None => DeviceType::Unknown,
        },
    };
    let host = short_hostname(hostname);
    let name = if !host.is_empty() {
        replace_char(host, '-', ' ')
    } else {
        match given_name {
            Some(n) => n.to_string(),
            None => instance_name.to_string(),
        }
    };
    DiscoveredDevice {
        name,
        hostname: host.to_string(),
        udid: None,
        ip_address: choose_address(addresses),
        port,
        device_type,
        connection_type: ConnectionType::WiFi,
        is_paired: contains(service_type, "mobdev2"),
        product_type: owned(model),
        os_version: owned(version),
        service_type: service_type.to_string(),
    }
}

/// The way to discover devices on this platform.
#[derive(Debug, Clone, Copy)]
pub struct PlatformDiscovery;

impl PlatformDiscovery {
    pub fn new() -> (r: PlatformDiscovery)
        ensures
            r == PlatformDiscovery,
    {
        PlatformDiscovery
    }
}

impl Default for PlatformDiscovery {
    fn default() -> (r: PlatformDiscovery)
        ensures
            r == PlatformDiscovery,
    {
        PlatformDiscovery
    }
}

// ---------------------------------------------------------------- laws

/// Advertisements of one host carry one name, whatever their service, instance
/// label and properties.
pub proof fn lemma_name_follows_host(
    hostname: Seq<char>,
    first_instance: Seq<char>,
    first_props: Map<Seq<char>, String>,
    second_instance: Seq<char>,
    second_props: Map<Seq<char>, String>,
)
    requires
        short_host(hostname).len() > 0,
    ensures
        advertised_name(first_instance, hostname, first_props) == advertised_name(
            second_instance,
            hostname,
            second_props,
        ),
{
}

/// Where any address is an IPv4 address, the one to use is the first of them.
pub proof fn lemma_ipv4_is_preferred(addresses: Seq<AdvertisedAddress>, at: int)
    requires
        0 <= at < addresses.len(),
        addresses[at].ip is V4,
        forall|i: int| 0 <= i < at ==> !((#[trigger] addresses[i]).ip is V4),
    ensures
        preferred_address(addresses) == Some(addresses[at].text@),
{
    let is_v4 = |a: AdvertisedAddress| a.ip is V4;
    let (head, tail) = (addresses.take(at), addresses.skip(at));
    assert(addresses =~= head + tail);
    Seq::filter_distributes_over_add(head, tail, is_v4);
    assert forall|i: int| 0 <= i < head.len() implies !is_v4(#[trigger] head[i]) by {
        assert(head[i] == addresses[i]);
    }
    head.lemma_all_neg_filter_empty(is_v4);
    let (first, rest) = (tail.take(1), tail.skip(1));
    assert(tail =~= first + rest);
    Seq::filter_distributes_over_add(first, rest, is_v4);
    assert(first.filter(is_v4) =~= seq![addresses[at]]) by {
        reveal(Seq::filter);
        assert(first.drop_last() =~= Seq::empty());
        assert(first.drop_last().filter(is_v4) =~= Seq::empty());
    }
}

/// No advertisement gives a device an identifier, whatever its properties claim.
pub proof fn lemma_advertised_identifier_not_taken(
    instance_name: Seq<char>,
    hostname: Seq<char>,
    service_type: Seq<char>,
    port: Option<u16>,
    addresses: Seq<AdvertisedAddress>,
    props: Map<Seq<char>, String>,
)
    ensures
        advertisement(instance_name, hostname, service_type, port, addresses, props).udid is None,
{
}

/// An instance label followed by a dot and a service type, with any number of
/// dots at the end, gives the label back.
pub proof fn lemma_instance_label_of_full_name(
    label: Seq<char>,
    service_type: Seq<char>,
    dots: Seq<char>,
)
    requires
        label.len() > 0,
        service_type.len() > 0,
        service_type.last() != '.',
        forall|i: int| 0 <= i < dots.len() ==> dots[i] == '.',
    ensures
        instance_label(label.push('.') + service_type + dots, service_type) == label,
        instance_label(label.push('.') + service_type + dots, service_type + dots) == label,
{
    let full = label.push('.') + service_type;
    lemma_trailing_dots(full, dots);
    lemma_trailing_dots(service_type, dots);
    assert(trimmed_end(service_type, '.') == service_type);
    assert(full.skip(full.len() - service_type.len()) =~= service_type);
    assert(full.take(label.len() as int) =~= label);
    assert(label.push('.') + service_type + dots =~= full + dots);
}

/// The label is given back too where the full name spells the service type with
/// other ASCII capitals.
pub proof fn lemma_instance_label_ignores_case(
    label: Seq<char>,
    service_type: Seq<char>,
    spelled: Seq<char>,
    dots: Seq<char>,
)
    requires
        label.len() > 0,
        service_type.len() > 0,
        service_type.last() != '.',
        lowered(spelled) == lowered(service_type),
        forall|i: int| 0 <= i < dots.len() ==> dots[i] == '.',
    ensures
        instance_label(label.push('.') + spelled + dots, service_type) == label,
        instance_label(label.push('.') + spelled + dots, service_type + dots) == label,
{
    assert(lowered(spelled).len() == lowered(service_type).len());
    assert(lowered(spelled).last() == lower(spelled.last()));
    assert(lowered(service_type).last() == lower(service_type.last()));
    let full = label.push('.') + spelled;
    lemma_trailing_dots(full, dots);
    lemma_trailing_dots(service_type, dots);
    assert(trimmed_end(service_type, '.') == service_type);
    assert(full.skip(full.len() - service_type.len()) =~= spelled);
    assert(full.take(label.len() as int) =~= label);
    assert(label.push('.') + spelled + dots =~= full + dots);
}

/// Dots at the end of a text that ends in no dot are trimmed.
proof fn lemma_trailing_dots(text: Seq<char>, dots: Seq<char>)
    requires
        text.len() > 0,
        text.last() != '.',
        forall|i: int| 0 <= i < dots.len() ==> dots[i] == '.',
    ensures
        trimmed_end(text + dots, '.') == text,
    decreases dots.len(),
{
    if dots.len() == 0 {
        assert(text + dots =~= text);
    } else {
        assert((text + dots).last() == '.');
        assert((text + dots).drop_last() =~= text + dots.drop_last());
        lemma_trailing_dots(text, dots.drop_last());
    }
}

/// Each kind of device has one class, spelled in one way, and every other class is of
/// no known kind.
pub proof fn lemma_kind_by_class(class: Seq<char>)
    ensures
        type_of_class(class) is IPhone <==> class == "iPhone"@,
        type_of_class(class) is IPad <==> class == "iPad"@,
        type_of_class(class) is AppleTV <==> class == "AppleTV"@,
        type_of_class(class) is AppleMac <==> class == "Mac"@,
{
    reveal_strlit("iPhone");
    reveal_strlit("iPad");
    reveal_strlit("AppleTV");
    reveal_strlit("Mac");
    assert("iPhone"@.len() == 6 && "iPad"@.len() == 4 && "AppleTV"@.len() == 7 && "Mac"@.len()
        == 3);
}

/// A product type tells the kind of device by what it begins with, whatever comes
/// after, and no product type tells two kinds.
pub proof fn lemma_kind_by_product(product: Seq<char>)
    ensures
        type_of_product(product) is IPhone <==> "iPhone"@.is_prefix_of(product),
        type_of_product(product) is IPad <==> "iPad"@.is_prefix_of(product),
        type_of_product(product) is AppleTV <==> "AppleTV"@.is_prefix_of(product),
        type_of_product(product) is AppleMac <==> "Mac"@.is_prefix_of(product),
{
    reveal_strlit("iPhone");
    reveal_strlit("iPad");
    reveal_strlit("AppleTV");
    reveal_strlit("Mac");
    let starts = |text: Seq<char>| text.is_prefix_of(product);
    if starts("iPhone"@) {
        assert(product[0] == 'i' && product[2] == 'h') by {
            assert("iPhone"@[0] == product.subrange(0, 6)[0]);
            assert("iPhone"@[2] == product.subrange(0, 6)[2]);
        }
    }
    if starts("iPad"@) {
        assert(product[0] == 'i' && product[2] == 'a') by {
            assert("iPad"@[0] == product.subrange(0, 4)[0]);
            assert("iPad"@[2] == product.subrange(0, 4)[2]);
        }
    }
    if starts("AppleTV"@) {
        assert(product[0] == 'A') by {
            assert("AppleTV"@[0] == product.subrange(0, 7)[0]);
        }
    }
    if starts("Mac"@) {
        assert(product[0] == 'M') by {
            assert("Mac"@[0] == product.subrange(0, 3)[0]);
        }
    }
}

/// A text ends with another up to ASCII case if and only if it is something and then
/// the other one, its letters in any case.
pub proof fn lemma_ends_in_any_case(s: Seq<char>, suffix: Seq<char>)
    ensures
        ends_ignoring_case(s, suffix) <==> exists|head: Seq<char>, tail: Seq<char>|
            s == #[trigger] (head + tail) && lowered(tail) == lowered(suffix),
{
    if ends_ignoring_case(s, suffix) {
        let cut = s.len() - suffix.len();
        assert(s =~= s.take(cut) + s.skip(cut));
    }
    if exists|head: Seq<char>, tail: Seq<char>|
        s == #[trigger] (head + tail) && lowered(tail) == lowered(suffix) {
        let (head, tail) = choose|head: Seq<char>, tail: Seq<char>|
            s == #[trigger] (head + tail) && lowered(tail) == lowered(suffix);
        assert(lowered(tail).len() == tail.len());
        assert(lowered(suffix).len() == suffix.len());
        assert(s.skip(s.len() - suffix.len()) =~= tail);
    }
}

/// A label is always what the full name begins with, and all of it but the dots at
/// its end where the name does not end in a dot and the service type with something
/// before them.
pub proof fn lemma_label_begins_full_name(full_name: Seq<char>, service_type: Seq<char>)
    ensures
        instance_label(full_name, service_type).is_prefix_of(full_name),
        full_name.len() > 0 && full_name.last() != '.' && !ends_ignoring_case(
            full_name,
            trimmed_end(service_type, '.'),
        ) ==> instance_label(full_name, service_type) == full_name,
        full_name.len() > 0 && full_name.last() != '.' && full_name.len() <= trimmed_end(
            service_type,
            '.',
        ).len() + 1 ==> instance_label(full_name, service_type) == full_name,
{
    lemma_trimmed_end_drops_one_run(full_name, '.');
    let label = instance_label(full_name, service_type);
    assert(label =~= full_name.subrange(0, label.len() as int));
}

/// A host name is given back without the local domain, spelled in any case, and
/// without the dots at its end; one outside the local domain loses the dots alone.
pub proof fn lemma_short_host_of_full_name(host: Seq<char>, domain: Seq<char>, dots: Seq<char>)
    requires
        forall|i: int| 0 <= i < dots.len() ==> dots[i] == '.',
    ensures
        lowered(domain) == lowered(".local"@) ==> short_host(host + domain + dots) == host,
        host.len() > 0 && host.last() != '.' && !ends_ignoring_case(host, ".local"@) ==> short_host(
            host + dots,
        ) == host,
{
    reveal_strlit(".local");
    if lowered(domain) == lowered(".local"@) {
        let full = host + domain;
        assert(lowered(domain).len() == domain.len());
        assert(lowered(".local"@).len() == 6);
        assert(lowered(domain)[5] == lower(domain[5]));
        assert(lowered(".local"@)[5] == lower('l'));
        assert(full.last() == domain[5]);
        lemma_trailing_dots(full, dots);
        assert(full.skip(full.len() - 6) =~= domain);
        assert(full.take(full.len() - 6) =~= host);
    }
    if host.len() > 0 && host.last() != '.' && !ends_ignoring_case(host, ".local"@) {
        lemma_trailing_dots(host, dots);
    }
}

/// Two advertisements with host names are the same if and only if they are under one
/// service and their host names agree, but for the case of their letters; without
/// host names the labels tell them apart.
pub proof fn lemma_advertisements_told_apart(
    a_host: Seq<char>,
    a_label: Seq<char>,
    a_service: Seq<char>,
    b_host: Seq<char>,
    b_label: Seq<char>,
    b_service: Seq<char>,
)
    ensures
        ({
            let same = advertisement_key(a_host, a_label, a_service) == advertisement_key(
                b_host,
                b_label,
                b_service,
            );
            &&& short_host(a_host).len() > 0 && short_host(b_host).len() > 0 ==> (same <==> lowered(
                short_host(a_host),
            ) == lowered(short_host(b_host)) && a_service == b_service)
            &&& short_host(a_host).len() == 0 && short_host(b_host).len() == 0 ==> (same
                <==> lowered(a_label) == lowered(b_label) && a_service == b_service)
        }),
{
}

/// Whether some properties hold a text under a key.
pub open spec fn says(props: Map<Seq<char>, String>, key: Seq<char>, text: Seq<char>) -> bool {
    props.contains_key(key) && props[key]@ == text && text.len() > 0
}

/// Of several keys the first counts that holds a text, and nothing is found where
/// none holds one.
pub proof fn lemma_first_text_counts(
    props: Map<Seq<char>, String>,
    candidates: Seq<&str>,
    at: int,
    text: Seq<char>,
)
    requires
        0 <= at <= candidates.len(),
        at < candidates.len() ==> says(props, candidates[at]@, text),
        forall|i: int, t: Seq<char>| 0 <= i < at ==> !(#[trigger] says(props, candidates[i]@, t)),
    ensures
        at < candidates.len() ==> first_text(props, candidates) == Some(text),
        at == candidates.len() ==> first_text(props, candidates) is None,
    decreases candidates.len(),
{
    if at > 0 {
        let key = candidates[0]@;
        assert(!says(props, key, props[key]@));
        let rest = candidates.drop_first();
        assert forall|i: int, t: Seq<char>| 0 <= i < at - 1 implies !(#[trigger] says(
            props,
            rest[i]@,
            t,
        )) by {
            assert(!says(props, candidates[i + 1]@, t));
        }
        lemma_first_text_counts(props, rest, at - 1, text);
    }
}

/// The kind of device is told by its class, under either of two keys, and only
/// without a class by its product, under any of three.
pub proof fn lemma_kind_of_advertisement(props: Map<Seq<char>, String>, text: Seq<char>)
    ensures
        ({
            let silent = |key: Seq<char>| forall|t: Seq<char>| !says(props, key, t);
            let no_class = silent("DeviceClass"@) && silent("deviceClass"@);
            &&& says(props, "DeviceClass"@, text) ==> advertised_type(props) == type_of_class(text)
            &&& silent("DeviceClass"@) && says(props, "deviceClass"@, text) ==> advertised_type(
                props,
            ) == type_of_class(text)
            &&& no_class && says(props, "ProductType"@, text) ==> advertised_type(props)
                == type_of_product(text)
            &&& no_class && silent("ProductType"@) && says(props, "model"@, text)
                ==> advertised_type(props) == type_of_product(text)
            &&& no_class && silent("ProductType"@) && silent("model"@) && says(
                props,
                "rpMd"@,
                text,
            ) ==> advertised_type(props) == type_of_product(text)
            &&& no_class && silent("ProductType"@) && silent("model"@) && silent("rpMd"@)
                ==> advertised_type(props) is Unknown
        }),
{
    lemma_two_keys(props, class_keys());
    lemma_three_keys(props, product_keys());
}

proof fn lemma_two_keys(props: Map<Seq<char>, String>, keys: Seq<&'static str>)
    requires
        keys.len() == 2,
    ensures
        forall|t: Seq<char>| #[trigger] says(props, keys[0]@, t) ==> first_text(props, keys)
            == Some(t),
        (forall|t: Seq<char>| !says(props, keys[0]@, t)) ==> {
            &&& forall|t: Seq<char>| #[trigger] says(props, keys[1]@, t) ==> first_text(props, keys)
                == Some(t)
            &&& (forall|t: Seq<char>| !says(props, keys[1]@, t)) ==> first_text(props, keys) is None
        },
{
    reveal_with_fuel(first_text, 3);
    let rest = keys.drop_first();
    assert(rest[0] == keys[1]);
    assert(rest.drop_first() =~= Seq::empty());
    if forall|t: Seq<char>| !says(props, keys[0]@, t) {
        assert(!says(props, keys[0]@, props[keys[0]@]@));
        assert(first_text(props, keys) == first_text(props, rest));
        if forall|t: Seq<char>| !says(props, keys[1]@, t) {
            assert(!says(props, keys[1]@, props[keys[1]@]@));
        }
    }
}

proof fn lemma_three_keys(props: Map<Seq<char>, String>, keys: Seq<&'static str>)
    requires
        keys.len() == 3,
    ensures
        forall|t: Seq<char>| #[trigger] says(props, keys[0]@, t) ==> first_text(props, keys)
            == Some(t),
        (forall|t: Seq<char>| !says(props, keys[0]@, t)) ==> {
            &&& forall|t: Seq<char>| #[trigger] says(props, keys[1]@, t) ==> first_text(props, keys)
                == Some(t)
            &&& (forall|t: Seq<char>| !says(props, keys[1]@, t)) ==> {
                &&& forall|t: Seq<char>| #[trigger] says(props, keys[2]@, t) ==> first_text(
                    props,
                    keys,
                ) == Some(t)
                &&& (forall|t: Seq<char>| !says(props, keys[2]@, t)) ==> first_text(props, keys) is None
            }
        },
{
    let rest = keys.drop_first();
    assert(rest[0] == keys[1] && rest[1] == keys[2]);
    lemma_two_keys(props, rest);
    if forall|t: Seq<char>| !says(props, keys[0]@, t) {
        assert(!says(props, keys[0]@, props[keys[0]@]@));
        assert(first_text(props, keys) == first_text(props, rest));
    }
}

/// An advertisement keeps the port and the service that it came with and is a
/// wireless one; it counts as paired just where its service is that of paired mobile
/// devices. Product and version are read from their keys, in order.
pub proof fn lemma_advertisement_parts(
    label: Seq<char>,
    hostname: Seq<char>,
    service_type: Seq<char>,
    port: Option<u16>,
    addresses: Seq<AdvertisedAddress>,
    props: Map<Seq<char>, String>,
    text: Seq<char>,
)
    ensures
        ({
            let made = advertisement(label, hostname, service_type, port, addresses, props);
            let silent = |key: Seq<char>| forall|t: Seq<char>| !says(props, key, t);
            &&& made.port == port
            &&& made.service_type == service_type
            &&& made.hostname == short_host(hostname)
            &&& made.connection_type == ConnectionType::WiFi
            &&& made.is_paired <==> contains_text(service_type, "mobdev2"@)
            &&& says(props, "ProductType"@, text) ==> made.product_type == Some(text)
            &&& silent("ProductType"@) && says(props, "model"@, text) ==> made.product_type == Some(
                text,
            )
            &&& silent("ProductType"@) && silent("model"@) && says(props, "rpMd"@, text)
                ==> made.product_type == Some(text)
            &&& silent("ProductType"@) && silent("model"@) && silent("rpMd"@)
                ==> made.product_type is None
            &&& says(props, "OSVersion"@, text) ==> made.os_version == Some(text)
            &&& silent("OSVersion"@) && says(props, "osVersion"@, text) ==> made.os_version == Some(
                text,
            )
            &&& silent("OSVersion"@) && silent("osVersion"@) ==> made.os_version is None
        }),
{
    lemma_two_keys(props, version_keys());
    lemma_three_keys(props, product_keys());
}

/// The shown name is the host name, as long as that and with a space for each hyphen;
/// without a host name it is what the properties call the device, and without that
/// the label.
pub proof fn lemma_shown_name(
    label: Seq<char>,
    hostname: Seq<char>,
    props: Map<Seq<char>, String>,
    text: Seq<char>,
)
    ensures
        ({
            let host = short_host(hostname);
            let name = advertised_name(label, hostname, props);
            let silent = |key: Seq<char>| forall|t: Seq<char>| !says(props, key, t);
            &&& host.len() > 0 ==> name.len() == host.len() && forall|i: int|
                0 <= i < host.len() ==> #[trigger] name[i] == (if host[i] == '-' {
                    ' '
                } else {
                    host[i]
                })
            &&& host.len() == 0 && says(props, "name"@, text) ==> name == text
            &&& host.len() == 0 && silent("name"@) && says(props, "Name"@, text) ==> name == text
            &&& host.len() == 0 && silent("name"@) && silent("Name"@) ==> name == label
        }),
{
    lemma_two_keys(props, name_keys());
}

/// Without an IPv4 address the first address is the one to use, and without any
/// there is none.
pub proof fn lemma_any_address_will_do(addresses: Seq<AdvertisedAddress>)
    requires
        forall|i: int| 0 <= i < addresses.len() ==> !((#[trigger] addresses[i]).ip is V4),
    ensures
        addresses.len() > 0 ==> preferred_address(addresses) == Some(addresses[0].text@),
        addresses.len() == 0 ==> preferred_address(addresses) is None,
{
    let is_v4 = |a: AdvertisedAddress| a.ip is V4;
    assert forall|i: int| 0 <= i < addresses.len() implies !is_v4(#[trigger] addresses[i]) by {}
    addresses.lemma_all_neg_filter_empty(is_v4);
}

/// An advertisement with its texts as characters has each of them from the
/// advertisement itself, and of several there is one for each, in order.
pub proof fn lemma_advertisements_as_characters(devices: Seq<DiscoveredDevice>, i: int)
    requires
        0 <= i < devices.len(),
    ensures
        views(devices).len() == devices.len(),
        ({
            let device = devices[i];
            let seen = views(devices)[i];
            &&& seen.name == device.name@
            &&& seen.hostname == device.hostname@
            &&& seen.udid == optional_view(device.udid)
            &&& seen.ip_address == optional_view(device.ip_address)
            &&& seen.port == device.port
            &&& seen.device_type == device.device_type
            &&& seen.connection_type == device.connection_type
            &&& seen.is_paired == device.is_paired
            &&& seen.product_type == optional_view(device.product_type)
            &&& seen.os_version == optional_view(device.os_version)
            &&& seen.service_type == device.service_type@
        }),
{
}

} // verus!
