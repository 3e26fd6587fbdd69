//! Finding Apple devices, pairing with them, and reaching their services.

pub use crate::bundle_info::PlistInfoTrait;
pub use crate::dedup::deduplicate_devices;
pub use crate::device::{get_device_for_id, Device, DeviceTransport, TvosDeviceInfo};
pub use crate::device_id::synthetic_device_id;
pub use crate::error::Error;
pub use crate::format::format_bytes;
pub use crate::pairing::{ensure_pairing, PairingBackend, PairingFailure, PairingStage};
pub use crate::udid::is_valid_device_udid;
use vstd::prelude::*;

pub mod apps;
pub mod bundle_info;
pub mod dedup;
pub mod device;
pub mod device_id;
pub mod device_path;
pub mod discovery;
pub mod error;
pub mod flow;
pub mod format;
pub mod host;
pub mod list_dates;
pub mod mac_install;
pub mod net;
pub mod pairing;
pub mod pairing_cache;
pub mod pairing_file;
pub mod platform;
pub mod property_list;
pub mod sequences;
pub mod string_map;
pub mod text;
pub mod transport;
pub mod udid;
