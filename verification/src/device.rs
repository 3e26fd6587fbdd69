//! Devices: what is known of one, how it is reached, and where its pairing
//! record is kept.
use std::path::PathBuf;
use vstd::prelude::*;
use crate::error::Error;
use crate::net::IpAddr;
use crate::platform::{is_tvos_metadata, DeveloperPlatform};
use crate::property_list::{dictionary_entries, text_entry, value_dictionary, value_text};
use crate::string_map::StringMap;
use crate::text::{
    copy_optional, decimal, decimal_text, eq_ignore_ascii_case, lemma_decimal_spells_the_number,
    lowered, optional_view, same_text, spelled,
};
use crate::udid::{is_valid_device_udid, lemma_identifier_shapes, valid_udid};

verus! {

/// A path on the host, carried through unread.
#[verifier::external_type_specification]
#[verifier::external_body]
pub struct ExPathBuf(PathBuf);

/// `PathBuf::clone` gives the same path.
pub assume_specification[ <PathBuf as Clone>::clone ](p: &PathBuf) -> (r: PathBuf)
    ensures
        r == *p,
;

pub const CONNECTION_LABEL: &'static str = "plume_info";

pub const INSTALLATION_LABEL: &'static str = "plume_install";

pub const HOUSE_ARREST_LABEL: &'static str = "plume_house_arrest";

/// How a device is reached.
#[derive(Debug, Clone, Copy, PartialEq, Eq, Structural)]
pub enum DeviceTransport {
    Usbmuxd,
    RemotePairing,
    CoreDevice,
    LocalMac,
    Unavailable,
}

/// How usbmuxd reaches a device.
#[derive(Debug, Clone)]
pub enum Connection {
    Usb,
    Network(IpAddr),
    Unknown(String),
}

/// A device that usbmuxd lists.
#[derive(Debug, Clone)]
pub struct UsbmuxdDevice {
    pub connection_type: Connection,
    pub udid: String,
    pub device_id: u32,
}

/// A device, and what is known of it so far.
#[derive(Debug, Clone)]
pub struct Device {
    pub name: String,
    pub udid: String,
    pub product_type: Option<String>,
    pub device_class: Option<String>,
    pub os_version: Option<String>,
    pub serial_number: Option<String>,
    pub device_id: u32,
    pub usbmuxd_device: Option<UsbmuxdDevice>,
    /// True only of a Mac that was added by hand.
    pub is_mac: bool,
    pub pairing_address: Option<(IpAddr, u16)>,
    pub reconnect_address: Option<(IpAddr, u16)>,
    pub pairing_identity: Option<String>,
    pub pairing_cache_dir: Option<PathBuf>,
    pub core_device_authenticated: bool,
}

/// A device with its texts as characters.
pub struct DeviceView {
    pub name: Seq<char>,
    pub udid: Seq<char>,
    pub product_type: Option<Seq<char>>,
    pub device_class: Option<Seq<char>>,
    pub os_version: Option<Seq<char>>,
    pub serial_number: Option<Seq<char>>,
    pub device_id: u32,
    pub usbmuxd_device: Option<UsbmuxdDevice>,
    pub is_mac: bool,
    pub pairing_address: Option<(IpAddr, u16)>,
    pub reconnect_address: Option<(IpAddr, u16)>,
    pub pairing_identity: Option<Seq<char>>,
    pub pairing_cache_dir: Option<PathBuf>,
    pub core_device_authenticated: bool,
}

impl View for Device {
    type V = DeviceView;

    open spec fn view(&self) -> DeviceView {
        DeviceView {
            name: self.name@,
            udid: self.udid@,
            product_type: optional_view(self.product_type),
            device_class: optional_view(self.device_class),
            os_version: optional_view(self.os_version),
            serial_number: optional_view(self.serial_number),
            device_id: self.device_id,
            usbmuxd_device: self.usbmuxd_device,
            is_mac: self.is_mac,
            pairing_address: self.pairing_address,
            reconnect_address: self.reconnect_address,
            pairing_identity: optional_view(self.pairing_identity),
            pairing_cache_dir: self.pairing_cache_dir,
            core_device_authenticated: self.core_device_authenticated,
        }
    }
}

/// Devices with their texts as characters.
pub open spec fn device_views(devices: Seq<Device>) -> Seq<DeviceView> {
    devices.map_values(|d: Device| d@)
}

impl DeviceView {
    /// A device that usbmuxd lists is reached through it. Otherwise an
    /// authenticated device is reached as a core device, one with an address by
    /// remote pairing, and a Mac added by hand locally.
    pub open spec fn transport(self) -> DeviceTransport {
        if self.usbmuxd_device is Some {
            DeviceTransport::Usbmuxd
        } else if self.core_device_authenticated {
            DeviceTransport::CoreDevice
        } else if self.pairing_address is Some || self.reconnect_address is Some {
            DeviceTransport::RemotePairing
        } else if self.is_mac {
            DeviceTransport::LocalMac
        } else {
            DeviceTransport::Unavailable
        }
    }

    pub open spec fn is_network(self) -> bool {
        self.transport() is RemotePairing || self.transport() is CoreDevice
    }

    pub open spec fn platform(self) -> DeveloperPlatform {
        if is_tvos_metadata(
            self.product_type,
            self.device_class,
            self.is_network() || self.pairing_identity is Some,
        ) {
            DeveloperPlatform::Tvos
        } else {
            DeveloperPlatform::Ios
        }
    }

    /// The device with authenticated properties taken over. Only a device with a
    /// pairing identity takes any; an empty name and an identifier that is not
    /// valid are not taken, and a valid identifier authenticates the device.
    pub open spec fn with_info(self, info: TvosDeviceInfoView) -> DeviceView {
        if self.pairing_identity is None {
            self
        } else {
            DeviceView {
                name: if info.name is Some && info.name->0.len() > 0 {
                    info.name->0
                } else {
                    self.name
                },
                udid: if info.has_valid_udid() {
                    info.udid->0
                } else {
                    self.udid
                },
                product_type: newest(self.product_type, info.product_type),
                device_class: newest(self.device_class, info.device_class),
                os_version: newest(self.os_version, info.os_version),
                serial_number: newest(self.serial_number, info.serial_number),
                core_device_authenticated: self.core_device_authenticated || info.has_valid_udid(),
                ..self
            }
        }
    }
}

/// The reported text, or the known one where nothing was reported.
pub open spec fn newest(known: Option<Seq<char>>, reported: Option<Seq<char>>) -> Option<
    Seq<char>,
> {
    if reported is Some {
        reported
    } else {
        known
    }
}

/// Properties that a device reports of itself over an authenticated tunnel.
#[derive(Debug, Clone, PartialEq)]
pub struct TvosDeviceInfo {
    pub name: Option<String>,
    pub udid: Option<String>,
    pub product_type: Option<String>,
    pub device_class: Option<String>,
    pub os_version: Option<String>,
    pub serial_number: Option<String>,
}

/// Reported properties with their texts as characters.
pub struct TvosDeviceInfoView {
    pub name: Option<Seq<char>>,
    pub udid: Option<Seq<char>>,
    pub product_type: Option<Seq<char>>,
    pub device_class: Option<Seq<char>>,
    pub os_version: Option<Seq<char>>,
    pub serial_number: Option<Seq<char>>,
}

impl TvosDeviceInfoView {
    pub open spec fn has_valid_udid(self) -> bool {
        self.udid is Some && valid_udid(self.udid->0)
    }
}

impl View for TvosDeviceInfo {
    type V = TvosDeviceInfoView;

    open spec fn view(&self) -> TvosDeviceInfoView {
        TvosDeviceInfoView {
            name: optional_view(self.name),
            udid: optional_view(self.udid),
            product_type: optional_view(self.product_type),
            device_class: optional_view(self.device_class),
            os_version: optional_view(self.os_version),
            serial_number: optional_view(self.serial_number),
        }
    }
}

impl Default for TvosDeviceInfo {
    fn default() -> (r: TvosDeviceInfo)
        ensures
            r == (TvosDeviceInfo {
                name: None,
                udid: None,
                product_type: None,
                device_class: None,
                os_version: None,
                serial_number: None,
            }),
    {
        TvosDeviceInfo {
            name: None,
            udid: None,
            product_type: None,
            device_class: None,
            os_version: None,
            serial_number: None,
        }
    }
}

/// The first of two optional texts that is there.
pub open spec fn either(first: Option<Seq<char>>, second: Option<Seq<char>>) -> Option<Seq<char>> {
    if first is Some {
        first
    } else {
        second
    }
}

/// What the properties of a device say of it.
pub open spec fn info_from_properties(props: Map<Seq<char>, plist::Value>) -> TvosDeviceInfoView {
    TvosDeviceInfoView {
        name: either(text_entry(props, "DeviceName"@), text_entry(props, "Name"@)),
        udid: text_entry(props, "UniqueDeviceID"@),
        product_type: text_entry(props, "ProductType"@),
        device_class: text_entry(props, "DeviceClass"@),
        os_version: either(
            text_entry(props, "OSVersion"@),
            text_entry(props, "HumanReadableProductVersionString"@),
        ),
        serial_number: text_entry(props, "SerialNumber"@),
    }
}

fn string_property(props: &StringMap<plist::Value>, key: &str) -> (r: Option<String>)
    ensures
        optional_view(r) == text_entry(props@, key@),
{
    match props.get(key) {
        Some(value) => match value.as_string() {
            Some(text) => Some(text.to_string()),
            None => None,
        },
        None => None,
    }
}

fn string_property_or(props: &StringMap<plist::Value>, key: &str, fallback: &str) -> (r: Option<
    String,
>)
    ensures
        optional_view(r) == either(text_entry(props@, key@), text_entry(props@, fallback@)),
{
    match string_property(props, key) {
        Some(text) => Some(text),
        None => string_property(props, fallback),
    }
}

impl TvosDeviceInfo {
    pub fn from_rsd_properties(props: &StringMap<plist::Value>) -> (r: TvosDeviceInfo)
        ensures
            r@ == info_from_properties(props@),
    {
        TvosDeviceInfo {
            name: string_property_or(props, "DeviceName", "Name"),
            udid: string_property(props, "UniqueDeviceID"),
            product_type: string_property(props, "ProductType"),
            device_class: string_property(props, "DeviceClass"),
            os_version: string_property_or(
                props,
                "OSVersion",
                "HumanReadableProductVersionString",
            ),
            serial_number: string_property(props, "SerialNumber"),
        }
    }
}

/// The text of one entry of a value that is a dictionary; empty where there is
/// no such entry or it is no string.
pub open spec fn entry_text(value: plist::Value, key: Seq<char>) -> Seq<char> {
    match value_dictionary(value) {
        Some(d) => match text_entry(dictionary_entries(d), key) {
            Some(t) => t,
            None => Seq::empty(),
        },
        None => Seq::empty(),
    }
}

/// What the lockdown service said under one key; empty where it said nothing.
pub open spec fn reported_text(values: Option<plist::Value>, key: Seq<char>) -> Seq<char> {
    match values {
        Some(v) => entry_text(v, key),
        None => Seq::empty(),
    }
}

/// The text, where it is not empty.
pub open spec fn non_empty(text: Seq<char>) -> Option<Seq<char>> {
    if text.len() > 0 {
        Some(text)
    } else {
        None
    }
}

fn reported(values: &Option<plist::Value>, key: &str) -> (r: String)
    ensures
        r@ == reported_text(*values, key@),
{
    if let Some(value) = values {
        if let Some(dict) = value.as_dictionary() {
            if let Some(entry) = dict.get(key) {
                if let Some(text) = entry.as_string() {
                    return text.to_string();
                }
            }
        }
    }
    String::new()
}

fn reported_non_empty(values: &Option<plist::Value>, key: &str) -> (r: Option<String>)
    ensures
        optional_view(r) == non_empty(reported_text(*values, key@)),
{
    let text = reported(values, key);
    if text.as_str().is_empty() {
        None
    } else {
        Some(text)
    }
}

/// An address at a port, where there is a port.
pub open spec fn at_port(ip: IpAddr, port: Option<u16>) -> Option<(IpAddr, u16)> {
    match port {
        Some(p) => Some((ip, p)),
        None => None,
    }
}

fn address_at(ip: IpAddr, port: Option<u16>) -> (r: Option<(IpAddr, u16)>)
    ensures
        r == at_port(ip, port),
{
    match port {
        Some(p) => Some((ip, p)),
        None => None,
    }
}

fn as_optional_str(s: &Option<String>) -> (r: Option<&str>)
    ensures
        match r {
            Some(t) => optional_view(*s) == Some(t@),
            None => *s is None,
        },
{
    match s {
        Some(t) => Some(t.as_str()),
        None => None,
    }
}

impl Device {
    /// The device that usbmuxd lists, with what its lockdown service said of it
    /// where that could be asked.
    pub fn new(usbmuxd_device: UsbmuxdDevice, values: Option<plist::Value>) -> (r: Device)
        ensures
            r@ == (DeviceView {
                name: reported_text(values, "DeviceName"@),
                udid: usbmuxd_device.udid@,
                product_type: non_empty(reported_text(values, "ProductType"@)),
                device_class: non_empty(reported_text(values, "DeviceClass"@)),
                os_version: non_empty(reported_text(values, "ProductVersion"@)),
                serial_number: non_empty(reported_text(values, "SerialNumber"@)),
                device_id: usbmuxd_device.device_id,
                usbmuxd_device: Some(usbmuxd_device),
                is_mac: false,
                pairing_address: None,
                reconnect_address: None,
                pairing_identity: None,
                pairing_cache_dir: None,
                core_device_authenticated: false,
            }),
    {
        Device {
            name: reported(&values, "DeviceName"),
            udid: usbmuxd_device.udid.clone(),
            product_type: reported_non_empty(&values, "ProductType"),
            device_class: reported_non_empty(&values, "DeviceClass"),
            os_version: reported_non_empty(&values, "ProductVersion"),
            serial_number: reported_non_empty(&values, "SerialNumber"),
            device_id: usbmuxd_device.device_id,
            usbmuxd_device: Some(usbmuxd_device),
            is_mac: false,
            pairing_address: None,
            reconnect_address: None,
            pairing_identity: None,
            pairing_cache_dir: None,
            core_device_authenticated: false,
        }
    }

    /// An Apple TV that was found on the network.
    pub fn new_tvos(
        name: String,
        pairing_identity: String,
        ip: IpAddr,
        pairing_port: Option<u16>,
        reconnect_port: Option<u16>,
        cache_dir: PathBuf,
    ) -> (r: Device)
        ensures
            r@ == (DeviceView {
                name: name@,
                udid: Seq::empty(),
                product_type: None,
                device_class: Some("AppleTV"@),
                os_version: None,
                serial_number: None,
                device_id: 0,
                usbmuxd_device: None,
                is_mac: false,
                pairing_address: at_port(ip, pairing_port),
                reconnect_address: at_port(ip, reconnect_port),
                pairing_identity: Some(pairing_identity@),
                pairing_cache_dir: Some(cache_dir),
                core_device_authenticated: false,
            }),
    {
        Device {
            name,
            udid: String::new(),
            product_type: None,
            device_class: Some("AppleTV".to_string()),
            os_version: None,
            serial_number: None,
            device_id: 0,
            usbmuxd_device: None,
            is_mac: false,
            pairing_address: address_at(ip, pairing_port),
            reconnect_address: address_at(ip, reconnect_port),
            pairing_identity: Some(pairing_identity),
            pairing_cache_dir: Some(cache_dir),
            core_device_authenticated: false,
        }
    }

    pub fn is_tvos(&self) -> (r: bool)
        ensures
            r == (self@.platform() is Tvos),
    {
        self.developer_platform() == DeveloperPlatform::Tvos
    }

    pub fn developer_platform(&self) -> (r: DeveloperPlatform)
        ensures
            r == self@.platform(),
    {
        DeveloperPlatform::from_device_metadata(
            as_optional_str(&self.product_type),
            as_optional_str(&self.device_class),
            self.is_network() || self.pairing_identity.is_some(),
        )
    }

    pub fn is_network(&self) -> (r: bool)
        ensures
            r == self@.is_network(),
    {
        match self.transport() {
            DeviceTransport::RemotePairing | DeviceTransport::CoreDevice => true,
            _ => false,
        }
    }

    pub fn transport(&self) -> (r: DeviceTransport)
        ensures
            r == self@.transport(),
    {
        if self.usbmuxd_device.is_some() {
            DeviceTransport::Usbmuxd
        } else if self.core_device_authenticated {
            DeviceTransport::CoreDevice
        } else if self.pairing_address.is_some() || self.reconnect_address.is_some() {
            DeviceTransport::RemotePairing
        } else if self.is_mac {
            DeviceTransport::LocalMac
        } else {
            DeviceTransport::Unavailable
        }
    }

    /// Takes over what the device reported of itself over an authenticated tunnel.
    pub fn apply_tvos_info(&mut self, info: &TvosDeviceInfo)
        ensures
            final(self)@ == old(self)@.with_info(info@),
    {
        if self.pairing_identity.is_none() {
            return;
        }
        if let Some(name) = &info.name {
            if !name.as_str().is_empty() {
                self.name = name.clone();
            }
        }
        if let Some(udid) = &info.udid {
            if is_valid_device_udid(udid.as_str()) {
                self.udid = udid.clone();
                self.core_device_authenticated = true;
            }
        }
        if info.product_type.is_some() {
            self.product_type = copy_optional(&info.product_type);
        }
        if info.device_class.is_some() {
            self.device_class = copy_optional(&info.device_class);
        }
        if info.os_version.is_some() {
            self.os_version = copy_optional(&info.os_version);
        }
        if info.serial_number.is_some() {
            self.serial_number = copy_optional(&info.serial_number);
        }
    }
}

// ---------------------------------------------------------------- display

impl DeviceView {
    /// What is shown of how the device is connected.
    pub open spec fn connection_text(self) -> Seq<char> {
        if self.pairing_address is Some || self.reconnect_address is Some {
            "WiFi (tvOS)"@
        } else {
            match self.usbmuxd_device {
                Some(usbmuxd) => match usbmuxd.connection_type {
                    Connection::Usb => "USB"@,
                    Connection::Network(_) => "WiFi"@,
                    Connection::Unknown(_) => "Unknown"@,
                },
                None => "LOCAL"@,
            }
        }
    }

    /// What is shown of the identifier: both ends of a valid one, and a note of a
    /// network device that has none.
    pub open spec fn identity_text(self) -> Seq<char> {
        if valid_udid(self.udid) {
            " ["@ + self.udid.take(8) + "\u{2026}"@ + self.udid.skip(self.udid.len() - 4) + "]"@
        } else if self.is_network() {
            " [unpaired]"@
        } else {
            Seq::empty()
        }
    }

    /// What is shown of the device.
    pub open spec fn text(self) -> Seq<char> {
        "["@ + self.connection_text() + "] "@ + self.name + self.identity_text()
    }
}

impl Device {
    fn connection_label(&self) -> (r: &'static str)
        ensures
            r@ == self@.connection_text(),
    {
        if self.pairing_address.is_some() || self.reconnect_address.is_some() {
            return "WiFi (tvOS)";
        }
        match &self.usbmuxd_device {
            Some(usbmuxd) => match &usbmuxd.connection_type {
                Connection::Usb => "USB",
                Connection::Network(_) => "WiFi",
                Connection::Unknown(_) => "Unknown",
            },
            None => "LOCAL",
        }
    }

    fn identity_label(&self) -> (r: String)
        ensures
            r@ == self@.identity_text(),
    {
        if is_valid_device_udid(self.udid.as_str()) {
            let udid = self.udid.as_str();
            let len: usize = udid.unicode_len();
            let mut text = " [".to_string();
            text.append(udid.substring_char(0, 8));
            text.append("\u{2026}");
            text.append(udid.substring_char(len - 4, len));
            text.append("]");
            assert(self.udid@.subrange(0, 8) =~= self.udid@.take(8));
            assert(self.udid@.subrange(len - 4, len as int) =~= self.udid@.skip(len - 4));
            return text;
        }
        if self.is_network() {
            return " [unpaired]".to_string();
        }
        String::new()
    }

    /// What is shown of the device.
    pub fn display_text(&self) -> (r: String)
        ensures
            r@ == self@.text(),
    {
        let mut text = "[".to_string();
        text.append(self.connection_label());
        text.append("] ");
        text.append(self.name.as_str());
        text.append(self.identity_label().as_str());
        text
    }
}

// ---------------------------------------------------------------- looking up

/// Whether an identifier that was asked for means a device: its number in
/// decimal, or its identifier up to ASCII case.
pub open spec fn is_called(device: UsbmuxdDevice, id: Seq<char>) -> bool {
    decimal(device.device_id as nat) == id || lowered(device.udid@) == lowered(id)
}

fn answers_to(device: &UsbmuxdDevice, id: &str) -> (r: bool)
    ensures
        r == is_called(*device, id@),
{
    let number = decimal_text(device.device_id as u64);
    same_text(number.as_str(), id) || eq_ignore_ascii_case(device.udid.as_str(), id)
}

/// The first device that usbmuxd lists and that an identifier means.
pub fn get_device_for_id(devices: Vec<UsbmuxdDevice>, device_id: &str) -> (r: Result<
    UsbmuxdDevice,
    Error,
>)
    ensures
        match r {
            Ok(found) => exists|i: int|
                0 <= i < devices.len() && found == #[trigger] devices@[i] && is_called(
                    devices@[i],
                    device_id@,
                ) && forall|j: int| 0 <= j < i ==> !is_called(#[trigger] devices@[j], device_id@),
            Err(error) => error.says("Device ID "@ + device_id@ + " not found"@) && forall|i: int|
                0 <= i < devices.len() ==> !is_called(#[trigger] devices@[i], device_id@),
        },
{
    for device in it: devices
        invariant
            it.seq() == devices@,
            forall|j: int|
                0 <= j < it.index() ==> !is_called(#[trigger] devices@[j], device_id@),
    {
        if answers_to(&device, device_id) {
            assert(devices@[it.index()] == device);
            return Ok(device);
        }
    }
    let mut message = "Device ID ".to_string();
    message.append(device_id);
    message.append(" not found");
    Err(Error::Other(message))
}

// ---------------------------------------------------------------- laws

/// A valid identifier that a device with a pairing identity reports over its
/// tunnel authenticates the device: it is a core device on the network from then
/// on, under that identifier.
pub proof fn lemma_valid_identifier_authenticates(device: DeviceView, info: TvosDeviceInfoView)
    requires
        device.pairing_identity is Some,
        device.usbmuxd_device is None,
        info.has_valid_udid(),
    ensures
        device.with_info(info).transport() is CoreDevice,
        device.with_info(info).is_network(),
        device.with_info(info).udid == info.udid->0,
{
}

/// Without a valid identifier neither the identifier of a device nor the way to
/// reach it changes, whatever else is reported.
pub proof fn lemma_no_valid_identifier_no_promotion(device: DeviceView, info: TvosDeviceInfoView)
    requires
        !info.has_valid_udid(),
    ensures
        device.with_info(info).udid == device.udid,
        device.with_info(info).core_device_authenticated == device.core_device_authenticated,
        device.with_info(info).transport() == device.transport(),
{
}

/// A device without a pairing identity takes nothing over, and no report takes an
/// authentication back.
pub proof fn lemma_report_needs_pairing_identity(device: DeviceView, info: TvosDeviceInfoView)
    ensures
        device.pairing_identity is None ==> device.with_info(info) == device,
        device.core_device_authenticated ==> device.with_info(info).core_device_authenticated,
{
}

/// Taking a report over twice is taking it over once.
pub proof fn lemma_report_taken_over_once(device: DeviceView, info: TvosDeviceInfoView)
    ensures
        device.with_info(info).with_info(info) == device.with_info(info),
{
}

/// Every device on the network, and every device with a pairing identity, counts
/// as tvOS.
pub proof fn lemma_network_device_is_tvos(device: DeviceView)
    requires
        device.is_network() || device.pairing_identity is Some,
    ensures
        device.platform() is Tvos,
{
}

/// A device with a pairing identity takes over everything that it reports of
/// itself, whatever was known before.
pub proof fn lemma_report_replaces_what_was_known(device: DeviceView, info: TvosDeviceInfoView)
    requires
        device.pairing_identity is Some,
    ensures
        info.os_version is Some ==> device.with_info(info).os_version == info.os_version,
        info.product_type is Some ==> device.with_info(info).product_type == info.product_type,
        info.device_class is Some ==> device.with_info(info).device_class == info.device_class,
        info.serial_number is Some ==> device.with_info(info).serial_number == info.serial_number,
        info.name is Some && info.name->0.len() > 0 ==> device.with_info(info).name
            == info.name->0,
        info.udid is Some && valid_udid(info.udid->0) ==> device.with_info(info).udid
            == info.udid->0,
{
}

/// What a device does not report stays as it was known, an empty name and an
/// identifier that is not valid count as not reported, and how the device is reached
/// and where its records are kept is not touched.
pub proof fn lemma_report_leaves_the_rest(device: DeviceView, info: TvosDeviceInfoView)
    ensures
        info.os_version is None ==> device.with_info(info).os_version == device.os_version,
        info.product_type is None ==> device.with_info(info).product_type == device.product_type,
        info.device_class is None ==> device.with_info(info).device_class == device.device_class,
        info.serial_number is None ==> device.with_info(info).serial_number
            == device.serial_number,
        info.name is None || info.name->0.len() == 0 ==> device.with_info(info).name
            == device.name,
        info.udid is None || !valid_udid(info.udid->0) ==> device.with_info(info).udid
            == device.udid,
        device.with_info(info).device_id == device.device_id,
        device.with_info(info).usbmuxd_device == device.usbmuxd_device,
        device.with_info(info).is_mac == device.is_mac,
        device.with_info(info).pairing_address == device.pairing_address,
        device.with_info(info).reconnect_address == device.reconnect_address,
        device.with_info(info).pairing_identity == device.pairing_identity,
        device.with_info(info).pairing_cache_dir == device.pairing_cache_dir,
{
}

/// Of two reports the later one counts wherever it says anything.
pub proof fn lemma_later_report_counts(
    device: DeviceView,
    first: TvosDeviceInfoView,
    second: TvosDeviceInfoView,
)
    requires
        device.pairing_identity is Some,
    ensures
        ({
            let told = device.with_info(first).with_info(second);
            &&& second.os_version is Some ==> told.os_version == second.os_version
            &&& second.os_version is None && first.os_version is Some ==> told.os_version
                == first.os_version
            &&& second.product_type is Some ==> told.product_type == second.product_type
            &&& second.product_type is None && first.product_type is Some ==> told.product_type
                == first.product_type
            &&& second.device_class is Some ==> told.device_class == second.device_class
            &&& second.device_class is None && first.device_class is Some ==> told.device_class
                == first.device_class
            &&& second.serial_number is Some ==> told.serial_number == second.serial_number
            &&& second.serial_number is None && first.serial_number is Some
                ==> told.serial_number == first.serial_number
        }),
{
}

/// Each way to a device is taken if and only if the device is known in that way and
/// in no way that comes before it: usbmuxd, an authenticated tunnel, an address, and
/// at last the Mac at hand.
pub proof fn lemma_ways_to_a_device(device: DeviceView)
    ensures
        device.transport() is Usbmuxd <==> device.usbmuxd_device is Some,
        device.transport() is CoreDevice <==> device.usbmuxd_device is None
            && device.core_device_authenticated,
        device.transport() is RemotePairing <==> device.usbmuxd_device is None
            && !device.core_device_authenticated && (device.pairing_address is Some
            || device.reconnect_address is Some),
        device.transport() is LocalMac <==> device.usbmuxd_device is None
            && !device.core_device_authenticated && device.pairing_address is None
            && device.reconnect_address is None && device.is_mac,
        device.is_network() <==> device.usbmuxd_device is None && (device.core_device_authenticated
            || device.pairing_address is Some || device.reconnect_address is Some),
{
}

/// A device runs tvOS if it is reached over the network, has a pairing identity, or
/// says so by its product type or its class, and only then.
pub proof fn lemma_tvos_devices(device: DeviceView)
    ensures
        device.is_network() || device.pairing_identity is Some ==> device.platform() is Tvos,
        device.product_type is Some && "AppleTV"@.is_prefix_of(device.product_type->0)
            ==> device.platform() is Tvos,
        device.device_class is Some && lowered(device.device_class->0) == lowered("AppleTV"@)
            ==> device.platform() is Tvos,
        !device.is_network() && device.pairing_identity is None && (device.product_type is Some
            ==> !"AppleTV"@.is_prefix_of(device.product_type->0)) && (device.device_class is Some
            ==> lowered(device.device_class->0) != lowered("AppleTV"@))
            ==> device.platform() is Ios,
{
}

/// The text that some properties hold under a key, where they hold one.
pub open spec fn says_under(
    props: Map<Seq<char>, plist::Value>,
    key: Seq<char>,
    text: Seq<char>,
) -> bool {
    props.contains_key(key) && value_text(props[key]) == Some(text)
}

/// Each thing that is told of a device is the text under its own property, which for
/// the name and the version has a second one that counts where the first holds no
/// text; and nothing else is told.
pub proof fn lemma_told_by_own_property(props: Map<Seq<char>, plist::Value>, text: Seq<char>)
    ensures
        ({
            let told = info_from_properties(props);
            let named = exists|t: Seq<char>| says_under(props, "DeviceName"@, t);
            let versioned = exists|t: Seq<char>| says_under(props, "OSVersion"@, t);
            &&& told.name == Some(text) <==> says_under(props, "DeviceName"@, text) || (!named
                && says_under(props, "Name"@, text))
            &&& told.udid == Some(text) <==> says_under(props, "UniqueDeviceID"@, text)
            &&& told.product_type == Some(text) <==> says_under(props, "ProductType"@, text)
            &&& told.device_class == Some(text) <==> says_under(props, "DeviceClass"@, text)
            &&& told.os_version == Some(text) <==> says_under(props, "OSVersion"@, text) || (
            !versioned && says_under(props, "HumanReadableProductVersionString"@, text))
            &&& told.serial_number == Some(text) <==> says_under(props, "SerialNumber"@, text)
        }),
{
    let name = text_entry(props, "DeviceName"@);
    if name is Some {
        assert(says_under(props, "DeviceName"@, name->0));
    }
    let version = text_entry(props, "OSVersion"@);
    if version is Some {
        assert(says_under(props, "OSVersion"@, version->0));
    }
}

/// A value that is asked for by its key gives the text under that key, and no text
/// where there is no such value, no dictionary, no such key or no text. No text is
/// no answer.
pub proof fn lemma_reported_text(values: Option<plist::Value>, key: Seq<char>)
    ensures
        ({
            let told = reported_text(values, key);
            &&& forall|d: plist::Dictionary, t: Seq<char>|
                values is Some && value_dictionary(values->0) == Some(d) && #[trigger] says_under(
                    dictionary_entries(d),
                    key,
                    t,
                ) ==> told == t
            &&& values is None || value_dictionary(values->0) is None ==> told.len() == 0
            &&& told.len() > 0 ==> values is Some && value_dictionary(values->0) is Some
                && says_under(dictionary_entries(value_dictionary(values->0)->0), key, told)
            &&& non_empty(told) is Some <==> told.len() > 0
            &&& non_empty(told) is Some ==> non_empty(told)->0 == told
        }),
{
}

/// A service is reached at the address of the device and the port of the service,
/// where that has one.
pub proof fn lemma_service_address(ip: IpAddr, port: u16)
    ensures
        at_port(ip, Some(port)) == Some((ip, port)),
        at_port(ip, None) is None,
{
}

/// What is shown of a device is how it is connected, in brackets, then its name, and
/// then, if it has a valid identifier, the first eight and the last four characters
/// of that; a device on the network without one is shown as unpaired.
pub proof fn lemma_shown_text(device: DeviceView)
    ensures
        ({
            let text = device.text();
            let start = device.connection_text().len() as int + 3;
            let end = start + device.name.len();
            &&& text.len() >= end
            &&& text.subrange(1, start - 2) == device.connection_text()
            &&& text[0] == '[' && text[start - 2] == ']' && text[start - 1] == ' '
            &&& text.subrange(start, end) == device.name
            &&& valid_udid(device.udid) ==> text.len() == end + 16 && text.subrange(
                end + 2,
                end + 10,
            ) == device.udid.take(8) && text.subrange(end + 11, end + 15) == device.udid.skip(
                device.udid.len() - 4,
            ) && text[end] == ' ' && text[end + 1] == '[' && text[end + 10] == '\u{2026}'
                && text[end + 15] == ']'
            &&& !valid_udid(device.udid) && device.is_network() ==> text.skip(end)
                == " [unpaired]"@
            &&& !valid_udid(device.udid) && !device.is_network() ==> text.len() == end
        }),
{
    reveal_strlit("[");
    reveal_strlit("] ");
    reveal_strlit("]");
    reveal_strlit(" [");
    reveal_strlit("\u{2026}");
    let text = device.text();
    let start = device.connection_text().len() as int + 3;
    let end = start + device.name.len();
    assert(text.subrange(1, start - 2) =~= device.connection_text());
    assert(text.subrange(start, end) =~= device.name);
    if valid_udid(device.udid) {
        lemma_identifier_shapes(device.udid);
        assert(text.subrange(end + 2, end + 10) =~= device.udid.take(8));
        assert(text.subrange(end + 11, end + 15) =~= device.udid.skip(device.udid.len() - 4));
    } else if device.is_network() {
        assert(text.skip(end) =~= " [unpaired]"@);
    }
}

/// How a device is connected is told apart: one with an address of its own, one that
/// usbmuxd reaches by cable, by network or in a way it does not name, and one at
/// hand.
pub proof fn lemma_shown_connection(device: DeviceView)
    ensures
        ({
            let addressed = device.pairing_address is Some || device.reconnect_address is Some;
            let shown = device.connection_text();
            &&& addressed ==> shown == "WiFi (tvOS)"@
            &&& !addressed && device.usbmuxd_device is None ==> shown == "LOCAL"@
            &&& !addressed && device.usbmuxd_device is Some ==> {
                let by = device.usbmuxd_device->0.connection_type;
                &&& by is Usb ==> shown == "USB"@
                &&& by is Network ==> shown == "WiFi"@
                &&& by is Unknown ==> shown == "Unknown"@
            }
        }),
{
}

/// A device answers to its identifier in any case and to its number in decimal
/// digits, and to nothing else.
pub proof fn lemma_answers_to_number_and_identifier(device: UsbmuxdDevice, id: Seq<char>)
    ensures
        lowered(device.udid@) == lowered(id) ==> is_called(device, id),
        decimal(device.device_id as nat) == id ==> is_called(device, id),
        is_called(device, id) && lowered(device.udid@) != lowered(id) ==> spelled(id)
            == device.device_id,
{
    lemma_decimal_spells_the_number(device.device_id as nat);
}

/// A report authenticates a device if and only if the device has a pairing identity
/// and the report a valid identifier, and nothing takes that back.
pub proof fn lemma_report_authenticates(device: DeviceView, info: TvosDeviceInfoView)
    ensures
        device.with_info(info).core_device_authenticated <==> device.core_device_authenticated || (
        device.pairing_identity is Some && info.udid is Some && valid_udid(info.udid->0)),
{
}

/// A device with its texts as characters has each of them from the device itself, and
/// of several devices there is one for each, in order.
pub proof fn lemma_devices_as_characters(devices: Seq<Device>, i: int)
    requires
        0 <= i < devices.len(),
    ensures
        device_views(devices).len() == devices.len(),
        ({
            let device = devices[i];
            let seen = device_views(devices)[i];
            &&& seen.name == device.name@
            &&& seen.udid == device.udid@
            &&& seen.product_type == optional_view(device.product_type)
            &&& seen.device_class == optional_view(device.device_class)
            &&& seen.os_version == optional_view(device.os_version)
            &&& seen.serial_number == optional_view(device.serial_number)
            &&& seen.device_id == device.device_id
            &&& seen.usbmuxd_device == device.usbmuxd_device
            &&& seen.is_mac == device.is_mac
            &&& seen.pairing_address == device.pairing_address
            &&& seen.reconnect_address == device.reconnect_address
            &&& seen.pairing_identity == optional_view(device.pairing_identity)
            &&& seen.pairing_cache_dir == device.pairing_cache_dir
            &&& seen.core_device_authenticated == device.core_device_authenticated
        }),
{
}

/// A report with its texts as characters has each of them from the report itself.
pub proof fn lemma_report_as_characters(info: TvosDeviceInfo)
    ensures
        info@.name == optional_view(info.name),
        info@.udid == optional_view(info.udid),
        info@.product_type == optional_view(info.product_type),
        info@.device_class == optional_view(info.device_class),
        info@.os_version == optional_view(info.os_version),
        info@.serial_number == optional_view(info.serial_number),
{
}

} // verus!
