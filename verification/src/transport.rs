//! How services of a device are reached.
use std::path::PathBuf;
use vstd::prelude::*;
use crate::device::{Device, DeviceTransport, DeviceView, UsbmuxdDevice};
use crate::error::{other, Error};
use crate::net::IpAddr;
use crate::text::{copy_optional, optional_view};

verus! {

pub const WRAPS_USBMUXD: &'static str = "CoreDevice transport cannot wrap a usbmuxd device";

pub const NO_CACHE_DIRECTORY: &'static str = "Network Apple TV has no pairing cache directory";

pub const NO_TRANSPORT: &'static str = "Device has no installation transport";

pub const INSTALL_NO_CACHE_DIRECTORY: &'static str =
    "Network Apple TV has no pairing_cache_dir configured on this Device; install_app has nowhere to look for its pairing file";

pub const INSTALL_NO_TRANSPORT: &'static str =
    "Device has no USB connection and no network address; cannot install";

pub const NOT_ON_USB: &'static str = "Device is not connected via USB";

/// What it takes to reach a device over the network.
#[derive(Debug, Clone)]
pub struct CoreDeviceTransport {
    pub pairing_address: Option<(IpAddr, u16)>,
    pub reconnect_address: Option<(IpAddr, u16)>,
    pub pairing_identity: Option<String>,
    pub udid: String,
    pub cache_dir: PathBuf,
    pub authenticated: bool,
}

impl CoreDeviceTransport {
    /// Whether this is the transport of a device with its records in a directory.
    pub open spec fn is_of(self, device: DeviceView, cache_dir: PathBuf) -> bool {
        &&& self.pairing_address == device.pairing_address
        &&& self.reconnect_address == device.reconnect_address
        &&& optional_view(self.pairing_identity) == device.pairing_identity
        &&& self.udid@ == device.udid
        &&& self.cache_dir == cache_dir
        &&& self.authenticated == device.core_device_authenticated
    }

    /// How the device is reached: as a core device once it is authenticated, else
    /// by remote pairing where it has an address.
    pub open spec fn reached_by(self) -> DeviceTransport {
        if self.authenticated {
            DeviceTransport::CoreDevice
        } else if self.pairing_address is Some || self.reconnect_address is Some {
            DeviceTransport::RemotePairing
        } else {
            DeviceTransport::Unavailable
        }
    }

    pub fn new(device: &Device, cache_dir: PathBuf) -> (r: Result<CoreDeviceTransport, Error>)
        ensures
            match device@.usbmuxd_device {
                Some(_) => r is Err && r->Err_0.says(WRAPS_USBMUXD@),
                None => r is Ok && r->Ok_0.is_of(device@, cache_dir),
            },
    {
        if device.usbmuxd_device.is_some() {
            return Err(other(WRAPS_USBMUXD));
        }
        Ok(
            CoreDeviceTransport {
                pairing_address: device.pairing_address,
                reconnect_address: device.reconnect_address,
                pairing_identity: copy_optional(&device.pairing_identity),
                udid: device.udid.clone(),
                cache_dir,
                authenticated: device.core_device_authenticated,
            },
        )
    }

    pub fn kind(&self) -> (r: DeviceTransport)
        ensures
            r == self.reached_by(),
    {
        if self.authenticated {
            DeviceTransport::CoreDevice
        } else if self.pairing_address.is_some() || self.reconnect_address.is_some() {
            DeviceTransport::RemotePairing
        } else {
            DeviceTransport::Unavailable
        }
    }
}

/// The way to a service of a device.
pub enum ServiceRoute<'a> {
    /// Through usbmuxd.
    Usbmuxd(&'a UsbmuxdDevice),
    /// Over a tunnel on the network.
    Network(CoreDeviceTransport),
}

impl<'a> ServiceRoute<'a> {
    /// Whether this is the way to the services of a device.
    pub open spec fn leads_to(self, device: DeviceView) -> bool {
        match self {
            ServiceRoute::Usbmuxd(usbmuxd) => device.usbmuxd_device == Some(*usbmuxd),
            ServiceRoute::Network(transport) => device.usbmuxd_device is None && device.is_network()
                && device.pairing_cache_dir is Some && transport.is_of(
                device,
                device.pairing_cache_dir->0,
            ),
        }
    }
}

/// What is said where there is no way to the services of a device: one thing of a
/// network device that does not know where its pairing record is kept, another
/// of a device that is neither listed by usbmuxd nor on the network.
pub open spec fn route_refusal(
    device: DeviceView,
    no_cache_directory: Seq<char>,
    no_transport: Seq<char>,
) -> Option<Seq<char>> {
    if device.usbmuxd_device is Some {
        None
    } else if !device.is_network() {
        Some(no_transport)
    } else if device.pairing_cache_dir is None {
        Some(no_cache_directory)
    } else {
        None
    }
}

impl Device {
    pub fn core_device_transport(&self, cache_dir: PathBuf) -> (r: Result<
        CoreDeviceTransport,
        Error,
    >)
        ensures
            match self@.usbmuxd_device {
                Some(_) => r is Err && r->Err_0.says(WRAPS_USBMUXD@),
                None => r is Ok && r->Ok_0.is_of(self@, cache_dir),
            },
    {
        CoreDeviceTransport::new(self, cache_dir)
    }

    fn route(&self, no_cache_directory: &str, no_transport: &str) -> (r: Result<
        ServiceRoute<'_>,
        Error,
    >)
        ensures
            match route_refusal(self@, no_cache_directory@, no_transport@) {
                Some(message) => r is Err && r->Err_0.says(message),
                None => r is Ok && r->Ok_0.leads_to(self@),
            },
    {
        if let Some(usbmuxd) = &self.usbmuxd_device {
            return Ok(ServiceRoute::Usbmuxd(usbmuxd));
        }
        if !self.is_network() {
            return Err(other(no_transport));
        }
        match &self.pairing_cache_dir {
            None => Err(other(no_cache_directory)),
            Some(cache_dir) => match self.core_device_transport(cache_dir.clone()) {
                Ok(transport) => Ok(ServiceRoute::Network(transport)),
                Err(error) => Err(error),
            },
        }
    }

    /// The way to the services that list apps and keep profiles.
    pub fn service_route(&self) -> (r: Result<ServiceRoute<'_>, Error>)
        ensures
            match route_refusal(self@, NO_CACHE_DIRECTORY@, NO_TRANSPORT@) {
                Some(message) => r is Err && r->Err_0.says(message),
                None => r is Ok && r->Ok_0.leads_to(self@),
            },
    {
        self.route(NO_CACHE_DIRECTORY, NO_TRANSPORT)
    }

    /// The way to the service that installs apps.
    pub fn install_route(&self) -> (r: Result<ServiceRoute<'_>, Error>)
        ensures
            match route_refusal(self@, INSTALL_NO_CACHE_DIRECTORY@, INSTALL_NO_TRANSPORT@) {
                Some(message) => r is Err && r->Err_0.says(message),
                None => r is Ok && r->Ok_0.leads_to(self@),
            },
    {
        self.route(INSTALL_NO_CACHE_DIRECTORY, INSTALL_NO_TRANSPORT)
    }

    /// The device as usbmuxd lists it, for what takes a cable.
    pub fn require_usbmuxd(&self) -> (r: Result<&UsbmuxdDevice, Error>)
        ensures
            match self@.usbmuxd_device {
                Some(usbmuxd) => r is Ok && *r->Ok_0 == usbmuxd,
                None => r is Err && r->Err_0.says(NOT_ON_USB@),
            },
    {
        match &self.usbmuxd_device {
            Some(usbmuxd) => Ok(usbmuxd),
            None => Err(other(NOT_ON_USB)),
        }
    }
}

// ---------------------------------------------------------------- laws

/// There is a network route exactly for network devices that know where their
/// record is kept, and a usbmuxd route exactly for devices reached through
/// usbmuxd.
pub proof fn lemma_route_follows_transport(
    device: DeviceView,
    no_cache_directory: Seq<char>,
    no_transport: Seq<char>,
)
    ensures
        route_refusal(device, no_cache_directory, no_transport) is None <==> (
        device.transport() is Usbmuxd || (device.is_network() && device.pairing_cache_dir is Some)),
        route_refusal(device, no_cache_directory, no_transport) is Some ==> !(
        device.transport() is Usbmuxd),
{
}

/// A transport that was made of a device is of the device's own kind, but that a
/// Mac added by hand cannot be reached by it.
pub proof fn lemma_transport_kind(
    transport: CoreDeviceTransport,
    device: DeviceView,
    cache_dir: PathBuf,
)
    requires
        transport.is_of(device, cache_dir),
        device.usbmuxd_device is None,
        !(device.transport() is LocalMac),
    ensures
        transport.reached_by() == device.transport(),
{
}

/// A device that usbmuxd lists is never refused. Another one is refused for want of a
/// way to it where it is not on the network, and else for want of a directory just
/// where none is known.
pub proof fn lemma_refusal_names_what_is_missing(
    device: DeviceView,
    no_cache_directory: Seq<char>,
    no_transport: Seq<char>,
)
    ensures
        ({
            let refusal = route_refusal(device, no_cache_directory, no_transport);
            let on_network = device.core_device_authenticated || device.pairing_address is Some
                || device.reconnect_address is Some;
            &&& device.usbmuxd_device is Some ==> refusal is None
            &&& device.usbmuxd_device is None && !on_network ==> refusal == Some(no_transport)
            &&& device.usbmuxd_device is None && on_network && device.pairing_cache_dir is None
                ==> refusal == Some(no_cache_directory)
            &&& device.usbmuxd_device is None && on_network && device.pairing_cache_dir is Some
                ==> refusal is None
        }),
{
}

/// The way to a device leads to that device: the entry of usbmuxd is its own, and over
/// the network its addresses, its identity, its identifier and its directory are.
pub proof fn lemma_route_is_its_own(route: ServiceRoute<'_>, device: DeviceView)
    requires
        route.leads_to(device),
    ensures
        route is Usbmuxd <==> device.usbmuxd_device is Some,
        route matches ServiceRoute::Usbmuxd(listed) ==> device.usbmuxd_device == Some(*listed),
        route matches ServiceRoute::Network(transport) ==> {
            &&& transport.pairing_address == device.pairing_address
            &&& transport.reconnect_address == device.reconnect_address
            &&& optional_view(transport.pairing_identity) == device.pairing_identity
            &&& transport.udid@ == device.udid
            &&& device.pairing_cache_dir == Some(transport.cache_dir)
            &&& transport.authenticated == device.core_device_authenticated
        },
{
}

/// A transport is that of a device if and only if it has everything from it.
pub proof fn lemma_transport_is_of_one_device(
    transport: CoreDeviceTransport,
    device: DeviceView,
    cache_dir: PathBuf,
)
    ensures
        transport.is_of(device, cache_dir) <==> transport.pairing_address == device.pairing_address
            && transport.reconnect_address == device.reconnect_address && optional_view(
            transport.pairing_identity,
        ) == device.pairing_identity && transport.udid@ == device.udid && transport.cache_dir
            == cache_dir && transport.authenticated == device.core_device_authenticated,
{
}

/// Over the network an authenticated device is a core device, whatever addresses it
/// has; another one is reached by remote pairing if and only if it has an address.
pub proof fn lemma_ways_over_the_network(transport: CoreDeviceTransport)
    ensures
        transport.reached_by() is CoreDevice <==> transport.authenticated,
        transport.reached_by() is RemotePairing <==> !transport.authenticated && (
        transport.pairing_address is Some || transport.reconnect_address is Some),
        transport.reached_by() is Unavailable <==> !transport.authenticated
            && transport.pairing_address is None && transport.reconnect_address is None,
{
}

/// What is told of a device that has no way to it, by what the way is wanted for.
pub proof fn lemma_refusal_is_told(device: DeviceView)
    requires
        device.usbmuxd_device is None,
    ensures
        ({
            let on_network = device.core_device_authenticated || device.pairing_address is Some
                || device.reconnect_address is Some;
            let service = route_refusal(device, NO_CACHE_DIRECTORY@, NO_TRANSPORT@);
            let install = route_refusal(
                device,
                INSTALL_NO_CACHE_DIRECTORY@,
                INSTALL_NO_TRANSPORT@,
            );
            &&& !on_network ==> service == Some("Device has no installation transport"@) && install
                == Some("Device has no USB connection and no network address; cannot install"@)
            &&& on_network && device.pairing_cache_dir is None ==> service == Some(
                "Network Apple TV has no pairing cache directory"@,
            ) && install == Some(
                "Network Apple TV has no pairing_cache_dir configured on this Device; install_app has nowhere to look for its pairing file"@,
            )
        }),
{
}

} // verus!
