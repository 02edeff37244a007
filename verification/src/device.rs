//! Devices: what is known of them, how they are reached, and how records of them are merged.
use crate::error::PlumeError;
use crate::outside::{debug_quoted, debug_text};
use crate::platform::{platform_of, DeveloperPlatform};
use crate::plist_value::{PlistDictionary, PlistModel, PlistValue};
use crate::provision::{device_udid, is_valid_device_udid};
use crate::text::{
    chars_of, contains_char, decimal, decimal_text, join2, join3, join4, opt_text, same_text,
    string_of,
};
use vstd::prelude::*;

verus! {

/// The label of connections that read device information.
pub const CONNECTION_LABEL: &'static str = "plume_info";

/// The label of connections that install apps.
pub const INSTALLATION_LABEL: &'static str = "plume_install";

/// The label of connections that write into an app's documents.
pub const HOUSE_ARREST_LABEL: &'static str = "plume_house_arrest";

// ---------------------------------------------------------------------------
// Addresses
// ---------------------------------------------------------------------------

/// An IP address: its family, and its canonical text.
#[derive(Debug)]
pub struct IpAddress {
    pub ipv4: bool,
    pub text: String,
}

/// The content of an address.
pub ghost struct IpModel {
    pub ipv4: bool,
    pub text: Seq<char>,
}

impl View for IpAddress {
    type V = IpModel;

    open spec fn view(&self) -> IpModel {
        IpModel { ipv4: self.ipv4, text: self.text@ }
    }
}

impl Clone for IpAddress {
    fn clone(&self) -> (r: IpAddress)
        ensures
            r == *self,
    {
        IpAddress { ipv4: self.ipv4, text: self.text.clone() }
    }
}

impl IpAddress {
    pub fn v4(text: &str) -> (r: IpAddress)
        ensures
            r@ == (IpModel { ipv4: true, text: text@ }),
    {
        IpAddress { ipv4: true, text: text.to_string() }
    }

    pub fn v6(text: &str) -> (r: IpAddress)
        ensures
            r@ == (IpModel { ipv4: false, text: text@ }),
    {
        IpAddress { ipv4: false, text: text.to_string() }
    }

    /// Whether two addresses are the same.
    pub fn same(&self, other: &IpAddress) -> (r: bool)
        ensures
            r == (self@ == other@),
    {
        self.ipv4 == other.ipv4 && same_text(self.text.as_str(), other.text.as_str())
    }
}

/// An address and a port.
#[derive(Debug)]
pub struct Endpoint {
    pub ip: IpAddress,
    pub port: u16,
}

impl Clone for Endpoint {
    fn clone(&self) -> (r: Endpoint)
        ensures
            r == *self,
    {
        Endpoint { ip: self.ip.clone(), port: self.port }
    }
}

/// The text of an address and a port: IPv6 addresses stand in brackets.
pub open spec fn endpoint_text(e: Endpoint) -> Seq<char> {
    if e.ip.ipv4 {
        e.ip.text@ + ":"@ + decimal(e.port as nat)
    } else {
        "["@ + e.ip.text@ + "]:"@ + decimal(e.port as nat)
    }
}

impl Endpoint {
    pub fn to_text(&self) -> (r: String)
        ensures
            r@ == endpoint_text(*self),
    {
        let port: String = decimal_text(self.port as u64);
        if self.ip.ipv4 {
            join3(self.ip.text.as_str(), ":", port.as_str())
        } else {
            join4("[", self.ip.text.as_str(), "]:", port.as_str())
        }
    }
}

/// The first of two optional values that is there.
pub open spec fn either<T>(a: Option<T>, b: Option<T>) -> Option<T> {
    match a {
        Some(_) => a,
        None => b,
    }
}

/// The first of two endpoints that is there.
pub fn either_endpoint(a: &Option<Endpoint>, b: &Option<Endpoint>) -> (r: Option<Endpoint>)
    ensures
        r == either(*a, *b),
{
    match a {
        Some(e) => Some(e.clone()),
        None => b.clone(),
    }
}

// ---------------------------------------------------------------------------
// Devices
// ---------------------------------------------------------------------------

/// How a device on the multiplexing daemon is attached.
#[derive(Debug)]
pub enum Connection {
    Usb,
    Network(IpAddress),
    Unknown(String),
}

impl Clone for Connection {
    fn clone(&self) -> (r: Connection)
        ensures
            r == *self,
    {
        match self {
            Connection::Usb => Connection::Usb,
            Connection::Network(ip) => Connection::Network(ip.clone()),
            Connection::Unknown(s) => Connection::Unknown(s.clone()),
        }
    }
}

/// A device that the multiplexing daemon lists.
#[derive(Debug)]
pub struct UsbmuxdDevice {
    pub connection_type: Connection,
    pub udid: String,
    pub device_id: u32,
}

impl Clone for UsbmuxdDevice {
    fn clone(&self) -> (r: UsbmuxdDevice)
        ensures
            r == *self,
    {
        UsbmuxdDevice {
            connection_type: self.connection_type.clone(),
            udid: self.udid.clone(),
            device_id: self.device_id,
        }
    }
}

#[derive(Debug, Clone, Copy, PartialEq, Eq, Structural)]
pub enum DeviceTransport {
    Usbmuxd,
    RemotePairing,
    CoreDevice,
    LocalMac,
    Unavailable,
}

/// What is known of a device.
#[derive(Debug)]
pub struct Device {
    pub name: String,
    pub udid: String,
    pub product_type: Option<String>,
    pub device_class: Option<String>,
    pub os_version: Option<String>,
    pub serial_number: Option<String>,
    pub device_id: u32,
    pub usbmuxd_device: Option<UsbmuxdDevice>,
    /// Only set where the machine itself was added as a device.
    pub is_mac: bool,
    pub pairing_address: Option<Endpoint>,
    pub reconnect_address: Option<Endpoint>,
    pub pairing_identity: Option<String>,
    pub pairing_cache_dir: Option<String>,
    pub core_device_authenticated: bool,
}

impl Clone for Device {
    fn clone(&self) -> (r: Device)
        ensures
            r == *self,
    {
        Device {
            name: self.name.clone(),
            udid: self.udid.clone(),
            product_type: self.product_type.clone(),
            device_class: self.device_class.clone(),
            os_version: self.os_version.clone(),
            serial_number: self.serial_number.clone(),
            device_id: self.device_id,
            usbmuxd_device: self.usbmuxd_device.clone(),
            is_mac: self.is_mac,
            pairing_address: self.pairing_address.clone(),
            reconnect_address: self.reconnect_address.clone(),
            pairing_identity: self.pairing_identity.clone(),
            pairing_cache_dir: self.pairing_cache_dir.clone(),
            core_device_authenticated: self.core_device_authenticated,
        }
    }
}

/// The start value of the device number.
pub const FNV_OFFSET_BASIS: u32 = 0x811c_9dc5;

/// The multiplier of the device number.
pub const FNV_PRIME: u32 = 0x0100_0193;

/// The 32-bit FNV-1a hash of `bytes`.
pub open spec fn fnv1a(bytes: Seq<u8>) -> u32
    decreases bytes.len(),
{
    if bytes.len() == 0 {
        FNV_OFFSET_BASIS
    } else {
        (((fnv1a(bytes.drop_last()) ^ (bytes.last() as u32)) as int * FNV_PRIME as int)
            % 0x1_0000_0000) as u32
    }
}

/// The number of a device that has none of its own: the hash of its identity with the top bit set,
/// and never the largest number.
pub open spec fn synthetic_id(bytes: Seq<u8>) -> u32 {
    let marked = fnv1a(bytes) | 0x8000_0000;
    if marked == u32::MAX {
        0x8000_0000
    } else {
        marked
    }
}

/// A number for a device that is known by its pairing identity alone.
pub fn synthetic_device_id(pairing_identity: &str) -> (r: u32)
    ensures
        r == synthetic_id(vstd::utf8::encode_utf8(pairing_identity@)),
        r >= 0x8000_0000,
        r != u32::MAX,
{
    let bytes: &[u8] = pairing_identity.as_bytes();
    let mut hash: u32 = FNV_OFFSET_BASIS;
    let mut i: usize = 0;
    while i < bytes.len()
        invariant
            i <= bytes@.len(),
            hash == fnv1a(bytes@.take(i as int)),
        decreases bytes@.len() - i,
    {
        proof {
            assert(bytes@.take(i + 1).drop_last() =~= bytes@.take(i as int));
            assert(bytes@.take(i + 1).last() == bytes@[i as int]);
        }
        hash = hash ^ (bytes[i] as u32);
        hash = hash.wrapping_mul(FNV_PRIME);
        i += 1;
    }
    proof {
        assert(bytes@.take(bytes@.len() as int) =~= bytes@);
        assert((hash | 0x8000_0000) >= 0x8000_0000) by (bit_vector);
    }
    hash = hash | 0x8000_0000;
    if hash == u32::MAX {
        hash = 0x8000_0000;
    }
    hash
}

impl Device {
    /// How the device is reached.
    pub open spec fn reached_by(self) -> DeviceTransport {
        if self.usbmuxd_device is Some {
            DeviceTransport::Usbmuxd
        } else if self.core_device_authenticated {
            DeviceTransport::CoreDevice
        } else if self.pairing_address is Some || self.reconnect_address is Some {
            DeviceTransport::RemotePairing
        } else if self.is_mac {
            DeviceTransport::LocalMac
        } else {
            DeviceTransport::Unavailable
        }
    }

    /// The device is reached over the network.
    pub open spec fn networked(self) -> bool {
        self.reached_by() == DeviceTransport::RemotePairing || self.reached_by()
            == DeviceTransport::CoreDevice
    }

    /// The platform that the device runs.
    pub open spec fn platform(self) -> DeveloperPlatform {
        platform_of(
            opt_text(self.product_type),
            opt_text(self.device_class),
            self.networked() || self.pairing_identity is Some,
        )
    }

    pub fn transport(&self) -> (r: DeviceTransport)
        ensures
            r == self.reached_by(),
    {
        if self.usbmuxd_device.is_some() {
            DeviceTransport::Usbmuxd
        } else if self.core_device_authenticated {
            DeviceTransport::CoreDevice
        } else if self.pairing_address.is_some() || self.reconnect_address.is_some() {
            DeviceTransport::RemotePairing
        } else if self.is_mac {
            DeviceTransport::LocalMac
        } else {
            DeviceTransport::Unavailable
        }
    }

    pub fn is_network(&self) -> (r: bool)
        ensures
            r == self.networked(),
    {
        match self.transport() {
            DeviceTransport::RemotePairing | DeviceTransport::CoreDevice => true,
            _ => false,
        }
    }

    pub fn developer_platform(&self) -> (r: DeveloperPlatform)
        ensures
            r == self.platform(),
    {
        let product_type: Option<&str> = match &self.product_type {
            Some(s) => Some(s.as_str()),
            None => None,
        };
        let device_class: Option<&str> = match &self.device_class {
            Some(s) => Some(s.as_str()),
            None => None,
        };
        DeveloperPlatform::from_device_metadata(
            product_type,
            device_class,
            self.is_network() || self.pairing_identity.is_some(),
        )
    }

    pub fn is_tvos(&self) -> (r: bool)
        ensures
            r == (self.platform() == DeveloperPlatform::Tvos),
    {
        self.developer_platform() == DeveloperPlatform::Tvos
    }

    /// A device on the multiplexing daemon, with what its lockdown service tells of it, if that
    /// could be read.
    pub fn from_lockdown_values(
        usbmuxd_device: UsbmuxdDevice,
        values: Option<&PlistValue>,
    ) -> (r: Device)
        ensures
            r.name@ == lockdown_text(values, "DeviceName"@),
            r.udid == usbmuxd_device.udid,
            opt_text(r.product_type) == non_empty(lockdown_text(values, "ProductType"@)),
            opt_text(r.device_class) == non_empty(lockdown_text(values, "DeviceClass"@)),
            opt_text(r.os_version) == non_empty(lockdown_text(values, "ProductVersion"@)),
            opt_text(r.serial_number) == non_empty(lockdown_text(values, "SerialNumber"@)),
            r.device_id == usbmuxd_device.device_id,
            r.usbmuxd_device == Some(usbmuxd_device),
            !r.is_mac,
            r.pairing_address is None,
            r.reconnect_address is None,
            r.pairing_identity is None,
            r.pairing_cache_dir is None,
            !r.core_device_authenticated,
    {
        Device {
            name: dict_string(values, "DeviceName"),
            udid: usbmuxd_device.udid.clone(),
            product_type: filter_empty(dict_string(values, "ProductType")),
            device_class: filter_empty(dict_string(values, "DeviceClass")),
            os_version: filter_empty(dict_string(values, "ProductVersion")),
            serial_number: filter_empty(dict_string(values, "SerialNumber")),
            device_id: usbmuxd_device.device_id,
            usbmuxd_device: Some(usbmuxd_device),
            is_mac: false,
            pairing_address: None,
            reconnect_address: None,
            pairing_identity: None,
            pairing_cache_dir: None,
            core_device_authenticated: false,
        }
    }

    /// An Apple TV on the network, at one address with a port for pairing and one for reconnecting.
    pub fn new_tvos(
        name: String,
        pairing_identity: String,
        ip: IpAddress,
        pairing_port: Option<u16>,
        reconnect_port: Option<u16>,
        cache_dir: String,
    ) -> (r: Device)
        ensures
            new_apple_tv(
                r,
                name,
                pairing_identity,
                match pairing_port {
                    Some(port) => Some(Endpoint { ip, port }),
                    None => None,
                },
                match reconnect_port {
                    Some(port) => Some(Endpoint { ip, port }),
                    None => None,
                },
                cache_dir,
            ),
    {
        let pairing_address: Option<Endpoint> = match pairing_port {
            Some(port) => Some(Endpoint { ip: ip.clone(), port }),
            None => None,
        };
        let reconnect_address: Option<Endpoint> = match reconnect_port {
            Some(port) => Some(Endpoint { ip: ip.clone(), port }),
            None => None,
        };
        Device::new_tvos_with_addresses(
            name,
            pairing_identity,
            pairing_address,
            reconnect_address,
            cache_dir,
        )
    }

    /// An Apple TV on the network.
    pub fn new_tvos_with_addresses(
        name: String,
        pairing_identity: String,
        pairing_address: Option<Endpoint>,
        reconnect_address: Option<Endpoint>,
        cache_dir: String,
    ) -> (r: Device)
        ensures
            new_apple_tv(
                r,
                name,
                pairing_identity,
                pairing_address,
                reconnect_address,
                cache_dir,
            ),
    {
        Device {
            name,
            udid: String::new(),
            product_type: None,
            device_class: Some("AppleTV".to_string()),
            os_version: None,
            serial_number: None,
            device_id: 0,
            usbmuxd_device: None,
            is_mac: false,
            pairing_address,
            reconnect_address,
            pairing_identity: Some(pairing_identity),
            pairing_cache_dir: Some(cache_dir),
            core_device_authenticated: false,
        }
    }

    /// Takes over what a tunnel tells of the device. Only a device with a pairing identity does so,
    /// and only a valid device identifier marks it as authenticated.
    pub fn apply_tvos_info(&mut self, info: &TvosDeviceInfo)
        ensures
            old(self).pairing_identity is None ==> *final(self) == *old(self),
            old(self).pairing_identity is Some ==> info_applied(*old(self), *info, *final(self)),
    {
        if self.pairing_identity.is_none() {
            return;
        }
        if let Some(name) = &info.name {
            if !is_blank(name.as_str()) {
                self.name = name.clone();
            }
        }
        if let Some(udid) = &info.udid {
            if is_valid_device_udid(udid.as_str()) {
                self.udid = udid.clone();
                self.core_device_authenticated = true;
            }
        }
        if info.product_type.is_some() {
            self.product_type = info.product_type.clone();
        }
        if info.device_class.is_some() {
            self.device_class = info.device_class.clone();
        }
        if info.os_version.is_some() {
            self.os_version = info.os_version.clone();
        }
        if info.serial_number.is_some() {
            self.serial_number = info.serial_number.clone();
        }
    }

    /// The path of the device's pairing record.
    pub fn pairing_cache_path(&self, cache_dir: &str) -> (r: Result<String, PlumeError>)
        ensures
            cache_path_result(
                r,
                cache_key(opt_text(self.pairing_identity), self.udid@),
                cache_dir@,
            ),
    {
        let identity: Option<&str> = match &self.pairing_identity {
            Some(s) => Some(s.as_str()),
            None => None,
        };
        pairing_cache_path_for(identity, self.udid.as_str(), cache_dir)
    }

    pub fn core_device_transport(&self, cache_dir: String) -> (r: Result<
        CoreDeviceTransport,
        PlumeError,
    >)
        ensures
            transport_result(r, *self, cache_dir),
    {
        CoreDeviceTransport::new(self, cache_dir)
    }

    /// The device in a list: how it is attached, its name, its platform and a short form of its
    /// identifier.
    pub fn to_text(&self) -> (r: String)
        ensures
            r@ == device_text(*self),
    {
        let conn: &str = if self.pairing_address.is_some() || self.reconnect_address.is_some() {
            "WiFi"
        } else {
            match &self.usbmuxd_device {
                Some(device) => match &device.connection_type {
                    Connection::Usb => "USB",
                    Connection::Network(_) => "WiFi",
                    Connection::Unknown(_) => "Unknown",
                },
                None => "LOCAL",
            }
        };
        let identity: String = if is_valid_device_udid(self.udid.as_str()) {
            let chars: Vec<char> = chars_of(self.udid.as_str());
            let n: usize = chars.len();
            let head: String = string_of(&chars, 0, 8);
            let tail: String = string_of(&chars, n - 4, n);
            proof {
                assert(head@ =~= self.udid@.take(8));
                assert(tail@ =~= self.udid@.skip(n - 4));
            }
            join2(join4(" [", head.as_str(), "…", tail.as_str()).as_str(), "]")
        } else if self.is_network() {
            " [unpaired]".to_string()
        } else {
            "".to_string()
        };
        let platform: &str = if self.is_tvos() {
            " (tvOS)"
        } else {
            ""
        };
        join2(
            join4("[", conn, "] ", self.name.as_str()).as_str(),
            join2(platform, identity.as_str()).as_str(),
        )
    }
}

/// How a device is attached, as it is shown.
pub open spec fn attachment_text(device: Device) -> Seq<char> {
    if device.pairing_address is Some || device.reconnect_address is Some {
        "WiFi"@
    } else {
        match device.usbmuxd_device {
            Some(d) => match d.connection_type {
                Connection::Usb => "USB"@,
                Connection::Network(_) => "WiFi"@,
                Connection::Unknown(_) => "Unknown"@,
            },
            None => "LOCAL"@,
        }
    }
}

/// The short form of a device's identifier.
pub open spec fn identity_text(device: Device) -> Seq<char> {
    let udid = device.udid@;
    if device_udid(udid) {
        " ["@ + udid.take(8) + "…"@ + udid.skip(udid.len() - 4) + "]"@
    } else if device.networked() {
        " [unpaired]"@
    } else {
        ""@
    }
}

/// The device in a list.
pub open spec fn device_text(device: Device) -> Seq<char> {
    let platform = if device.platform() == DeveloperPlatform::Tvos {
        " (tvOS)"@
    } else {
        ""@
    };
    "["@ + attachment_text(device) + "] "@ + device.name@ + (platform + identity_text(device))
}

/// The text under `key` in a dictionary of lockdown values; empty where there is none.
pub open spec fn lockdown_text(values: Option<&PlistValue>, key: Seq<char>) -> Seq<char> {
    match values {
        Some(v) => match v@.field(key) {
            Some(PlistModel::Text(s)) => s,
            _ => seq![],
        },
        None => seq![],
    }
}

/// A text that is not empty.
pub open spec fn non_empty(s: Seq<char>) -> Option<Seq<char>> {
    if s.len() == 0 {
        None
    } else {
        Some(s)
    }
}

/// Whether a text is empty.
pub fn is_blank(s: &str) -> (r: bool)
    ensures
        r == (s@.len() == 0),
{
    chars_of(s).len() == 0
}

fn filter_empty(s: String) -> (r: Option<String>)
    ensures
        opt_text(r) == non_empty(s@),
{
    if is_blank(s.as_str()) {
        None
    } else {
        Some(s)
    }
}

fn dict_string(values: Option<&PlistValue>, key: &str) -> (r: String)
    ensures
        r@ == lockdown_text(values, key@),
{
    let found: Option<&PlistValue> = match values {
        Some(v) => v.field(key),
        None => None,
    };
    match found {
        Some(PlistValue::Text(s)) => s.clone(),
        _ => {
            let r: String = String::new();
            proof {
                assert(r@ =~= seq![]);
            }
            r
        },
    }
}

/// `r` is a fresh Apple TV with the given name, identity and addresses.
pub open spec fn new_apple_tv(
    r: Device,
    name: String,
    identity: String,
    pairing_address: Option<Endpoint>,
    reconnect_address: Option<Endpoint>,
    cache_dir: String,
) -> bool {
    &&& r.name == name
    &&& r.udid@ == Seq::<char>::empty()
    &&& r.product_type is None
    &&& opt_text(r.device_class) == Some("AppleTV"@)
    &&& r.os_version is None
    &&& r.serial_number is None
    &&& r.device_id == 0
    &&& r.usbmuxd_device is None
    &&& !r.is_mac
    &&& r.pairing_address == pairing_address
    &&& r.reconnect_address == reconnect_address
    &&& r.pairing_identity == Some(identity)
    &&& r.pairing_cache_dir == Some(cache_dir)
    &&& !r.core_device_authenticated
}

// ---------------------------------------------------------------------------
// Device information
// ---------------------------------------------------------------------------

/// What a tunnel tells of an Apple TV.
#[derive(Debug, Clone, PartialEq)]
pub struct TvosDeviceInfo {
    pub name: Option<String>,
    pub udid: Option<String>,
    pub product_type: Option<String>,
    pub device_class: Option<String>,
    pub os_version: Option<String>,
    pub serial_number: Option<String>,
}

impl Default for TvosDeviceInfo {
    fn default() -> (r: TvosDeviceInfo)
        ensures
            r == (TvosDeviceInfo {
                name: None,
                udid: None,
                product_type: None,
                device_class: None,
                os_version: None,
                serial_number: None,
            }),
    {
        TvosDeviceInfo {
            name: None,
            udid: None,
            product_type: None,
            device_class: None,
            os_version: None,
            serial_number: None,
        }
    }
}

/// The text among the properties under `key`.
pub open spec fn property(props: Seq<(Seq<char>, PlistModel)>, key: Seq<char>) -> Option<Seq<char>> {
    crate::plist_value::text_entry(props, key)
}

fn property_text(props: &PlistDictionary, key: &str) -> (r: Option<String>)
    ensures
        opt_text(r) == property(props@, key@),
{
    match props.get(key) {
        Some(v) => match v.as_text() {
            Some(s) => Some(s.clone()),
            None => None,
        },
        None => None,
    }
}

impl TvosDeviceInfo {
    /// Reads the information out of the properties of a tunnel.
    pub fn from_rsd_properties(props: &PlistDictionary) -> (r: TvosDeviceInfo)
        ensures
            opt_text(r.name) == either(property(props@, "DeviceName"@), property(props@, "Name"@)),
            opt_text(r.udid) == property(props@, "UniqueDeviceID"@),
            opt_text(r.product_type) == property(props@, "ProductType"@),
            opt_text(r.device_class) == property(props@, "DeviceClass"@),
            opt_text(r.os_version) == either(
                property(props@, "OSVersion"@),
                property(props@, "HumanReadableProductVersionString"@),
            ),
            opt_text(r.serial_number) == property(props@, "SerialNumber"@),
    {
        let name: Option<String> = match property_text(props, "DeviceName") {
            Some(s) => Some(s),
            None => property_text(props, "Name"),
        };
        let os_version: Option<String> = match property_text(props, "OSVersion") {
            Some(s) => Some(s),
            None => property_text(props, "HumanReadableProductVersionString"),
        };
        TvosDeviceInfo {
            name,
            udid: property_text(props, "UniqueDeviceID"),
            product_type: property_text(props, "ProductType"),
            device_class: property_text(props, "DeviceClass"),
            os_version,
            serial_number: property_text(props, "SerialNumber"),
        }
    }
}

/// `after` is `before` with the information taken over.
pub open spec fn info_applied(before: Device, info: TvosDeviceInfo, after: Device) -> bool {
    let authenticates = info.udid matches Some(u) && device_udid(u@);
    &&& after.name == if info.name matches Some(n) && n@.len() > 0 {
        info.name->0
    } else {
        before.name
    }
    &&& after.udid == if authenticates {
        info.udid->0
    } else {
        before.udid
    }
    &&& after.product_type == either(info.product_type, before.product_type)
    &&& after.device_class == either(info.device_class, before.device_class)
    &&& after.os_version == either(info.os_version, before.os_version)
    &&& after.serial_number == either(info.serial_number, before.serial_number)
    &&& after.core_device_authenticated == (before.core_device_authenticated || authenticates)
    &&& after.device_id == before.device_id
    &&& after.usbmuxd_device == before.usbmuxd_device
    &&& after.is_mac == before.is_mac
    &&& after.pairing_address == before.pairing_address
    &&& after.reconnect_address == before.reconnect_address
    &&& after.pairing_identity == before.pairing_identity
    &&& after.pairing_cache_dir == before.pairing_cache_dir
}

/// A device becomes authenticated only together with a valid identifier of its own.
pub proof fn law_authentication_needs_identifier(before: Device, info: TvosDeviceInfo, after: Device)
    requires
        info_applied(before, info, after),
        !before.core_device_authenticated,
        after.core_device_authenticated,
    ensures
        device_udid(after.udid@),
{
}

// ---------------------------------------------------------------------------
// Pairing records
// ---------------------------------------------------------------------------

/// The key under which a device's pairing record is kept.
pub open spec fn cache_key(identity: Option<Seq<char>>, udid: Seq<char>) -> Seq<char> {
    match identity {
        Some(i) => i,
        None => udid,
    }
}

/// A key that can be part of a file name: it holds no separator and is not made of dots alone.
pub open spec fn safe_key(key: Seq<char>) -> bool {
    &&& !key.contains('/')
    &&& !key.contains('\\')
    &&& !key.contains(':')
    &&& exists|i: int| 0 <= i < key.len() && #[trigger] key[i] != '.'
}

/// The path of the pairing record under `key`.
pub open spec fn record_path(key: Seq<char>, dir: Seq<char>) -> Seq<char> {
    crate::paths::path_join(dir, "plume_"@ + key + ".plist"@)
}

/// The outcome of locating the pairing record under `key`.
pub open spec fn cache_path_result(
    r: Result<String, PlumeError>,
    key: Seq<char>,
    dir: Seq<char>,
) -> bool {
    match r {
        Ok(path) => key.len() > 0 && safe_key(key) && path@ == record_path(key, dir),
        Err(PlumeError::Other(message)) => if key.len() == 0 {
            message@
                == "Device has neither a pairing identity nor a UDID; cannot locate its pairing file cache"@
        } else {
            !safe_key(key) && message@ == "Pairing identity "@ + debug_quoted(key)
                + " is not a valid cache key"@
        },
        Err(_) => false,
    }
}

fn all_dots(chars: &Vec<char>) -> (r: bool)
    ensures
        r == !(exists|i: int| 0 <= i < chars@.len() && #[trigger] chars@[i] != '.'),
{
    let mut i: usize = 0;
    while i < chars.len()
        invariant
            i <= chars@.len(),
            forall|j: int| 0 <= j < i ==> chars@[j] == '.',
        decreases chars@.len() - i,
    {
        if chars[i] != '.' {
            return false;
        }
        i += 1;
    }
    true
}

/// The path of the pairing record of a device with the given identity and identifier.
pub fn pairing_cache_path_for(
    pairing_identity: Option<&str>,
    udid: &str,
    cache_dir: &str,
) -> (r: Result<String, PlumeError>)
    ensures
        cache_path_result(
            r,
            cache_key(crate::platform::opt_str(pairing_identity), udid@),
            cache_dir@,
        ),
{
    let key: &str = match pairing_identity {
        Some(i) => i,
        None => udid,
    };
    if is_blank(key) {
        return Err(
            PlumeError::Other(
                "Device has neither a pairing identity nor a UDID; cannot locate its pairing file cache".to_string(),
            ),
        );
    }
    if contains_char(key, '/') || contains_char(key, '\\') || contains_char(key, ':') || all_dots(
        &chars_of(key),
    ) {
        return Err(
            PlumeError::Other(
                join3(
                    "Pairing identity ",
                    debug_text(key).as_str(),
                    " is not a valid cache key",
                ),
            ),
        );
    }
    Ok(
        crate::paths::join_path(
            cache_dir,
            join3("plume_", key, ".plist").as_str(),
        ),
    )
}

/// The record of a device lies directly in the directory of records.
pub proof fn law_record_stays_in_directory(key: Seq<char>, dir: Seq<char>)
    requires
        safe_key(key),
    ensures
        crate::paths::file_name_of(record_path(key, dir)) == Some("plume_"@ + key + ".plist"@),
{
    let name = "plume_"@ + key + ".plist"@;
    reveal_strlit("plume_");
    reveal_strlit(".plist");
    assert(!name.contains('/')) by {
        if name.contains('/') {
            let i = choose|i: int| 0 <= i < name.len() && name[i] == '/';
            if 6 <= i < 6 + key.len() {
                assert(key[i - 6] == '/');
                assert(key.contains('/'));
            }
        }
    }
    assert(name[0] == 'p');
    assert(seq!['.'][0] == '.');
    assert(seq!['.', '.'][0] == '.');
    crate::paths::law_joined_file_name(dir, name);
}

/// Different keys have different records.
pub proof fn law_records_are_distinct(a: Seq<char>, b: Seq<char>, dir: Seq<char>)
    requires
        safe_key(a),
        safe_key(b),
        record_path(a, dir) == record_path(b, dir),
    ensures
        a == b,
{
    law_record_stays_in_directory(a, dir);
    law_record_stays_in_directory(b, dir);
    let na = "plume_"@ + a + ".plist"@;
    let nb = "plume_"@ + b + ".plist"@;
    assert(na == nb);
    assert(na.len() == nb.len());
    reveal_strlit("plume_");
    reveal_strlit(".plist");
    assert(na.subrange(6, na.len() - 6) =~= a);
    assert(nb.subrange(6, nb.len() - 6) =~= b);
}

// ---------------------------------------------------------------------------
// Tunnels
// ---------------------------------------------------------------------------

/// What opening a tunnel to a device needs.
#[derive(Debug, Clone)]
pub struct CoreDeviceTransport {
    pub pairing_address: Option<Endpoint>,
    pub reconnect_address: Option<Endpoint>,
    pub pairing_identity: Option<String>,
    pub udid: String,
    pub cache_dir: String,
    pub authenticated: bool,
}

/// The outcome of preparing a tunnel to `device`.
pub open spec fn transport_result(
    r: Result<CoreDeviceTransport, PlumeError>,
    device: Device,
    cache_dir: String,
) -> bool {
    match r {
        Ok(t) => device.usbmuxd_device is None && t == (CoreDeviceTransport {
            pairing_address: device.pairing_address,
            reconnect_address: device.reconnect_address,
            pairing_identity: device.pairing_identity,
            udid: device.udid,
            cache_dir,
            authenticated: device.core_device_authenticated,
        }),
        Err(PlumeError::Other(message)) => device.usbmuxd_device is Some && message@
            == "CoreDevice transport cannot wrap a usbmuxd device"@,
        Err(_) => false,
    }
}

impl CoreDeviceTransport {
    /// The kind of the tunnel.
    pub open spec fn tunnel_kind(self) -> DeviceTransport {
        if self.authenticated {
            DeviceTransport::CoreDevice
        } else if self.pairing_address is Some || self.reconnect_address is Some {
            DeviceTransport::RemotePairing
        } else {
            DeviceTransport::Unavailable
        }
    }

    pub fn new(device: &Device, cache_dir: String) -> (r: Result<CoreDeviceTransport, PlumeError>)
        ensures
            transport_result(r, *device, cache_dir),
    {
        if device.usbmuxd_device.is_some() {
            return Err(
                PlumeError::Other(
                    "CoreDevice transport cannot wrap a usbmuxd device".to_string(),
                ),
            );
        }
        Ok(
            CoreDeviceTransport {
                pairing_address: device.pairing_address.clone(),
                reconnect_address: device.reconnect_address.clone(),
                pairing_identity: device.pairing_identity.clone(),
                udid: device.udid.clone(),
                cache_dir,
                authenticated: device.core_device_authenticated,
            },
        )
    }

    pub fn kind(&self) -> (r: DeviceTransport)
        ensures
            r == self.tunnel_kind(),
    {
        if self.authenticated {
            DeviceTransport::CoreDevice
        } else if self.pairing_address.is_some() || self.reconnect_address.is_some() {
            DeviceTransport::RemotePairing
        } else {
            DeviceTransport::Unavailable
        }
    }
}

/// A tunnel is of the kind by which its device is reached, where that is the network, and a tunnel
/// to such a device can always be prepared.
pub proof fn law_tunnel_kind(
    device: Device,
    cache_dir: String,
    r: Result<CoreDeviceTransport, PlumeError>,
)
    requires
        device.networked(),
        transport_result(r, device, cache_dir),
    ensures
        r matches Ok(t) && t.tunnel_kind() == device.reached_by(),
{
}

/// How a device is reached: by the multiplexing daemon wherever it is there, else by a tunnel where it
/// is authenticated, else by its pairing where an address is known, else locally where it is the
/// machine itself, and not at all otherwise.
pub proof fn law_how_a_device_is_reached(d: Device)
    ensures
        d.reached_by() == DeviceTransport::Usbmuxd <==> d.usbmuxd_device is Some,
        d.reached_by() == DeviceTransport::CoreDevice <==> d.usbmuxd_device is None
            && d.core_device_authenticated,
        d.reached_by() == DeviceTransport::RemotePairing <==> d.usbmuxd_device is None
            && !d.core_device_authenticated && (d.pairing_address is Some
            || d.reconnect_address is Some),
        d.networked() <==> d.usbmuxd_device is None && (d.core_device_authenticated
            || d.pairing_address is Some || d.reconnect_address is Some),
        d.reached_by() == DeviceTransport::LocalMac ==> d.is_mac,
        d.reached_by() == DeviceTransport::Unavailable ==> !d.is_mac && d.usbmuxd_device is None
            && !d.networked(),
{
}

/// A device that is paired over the network, or is an Apple TV by its product or class, is one for
/// television apps; any other is not.
pub proof fn law_platform_of_a_device(d: Device)
    ensures
        d.pairing_identity is Some ==> d.platform() == DeveloperPlatform::Tvos,
        d.device_class matches Some(c) && crate::text::same_ignoring_case(c@, "AppleTV"@) ==> d.platform()
            == DeveloperPlatform::Tvos,
        d.platform() == DeveloperPlatform::Ios ==> d.pairing_identity is None && !d.networked() && (
        d.product_type matches Some(p) ==> !crate::text::is_prefix("AppleTV"@, p@)),
        d.pairing_identity is None && !d.networked() && d.product_type is None
            && d.device_class is None ==> d.platform() == DeveloperPlatform::Ios,
{
}

/// What is shown of a device holds its name.
pub proof fn law_shown_device_is_named(d: Device)
    ensures
        crate::text::has_text(device_text(d), d.name@),
{
    let platform = if d.platform() == DeveloperPlatform::Tvos {
        " (tvOS)"@
    } else {
        ""@
    };
    crate::text::law_joined_text_is_there(
        "["@ + attachment_text(d) + "] "@,
        d.name@,
        platform + identity_text(d),
    );
}

/// What a tunnel tells replaces what was known only where it tells it: an identifier only by a valid
/// one, a name only by one that is not empty. How the device is reached stays.
pub proof fn law_told_information_completes(before: Device, info: TvosDeviceInfo, after: Device)
    requires
        info_applied(before, info, after),
    ensures
        device_udid(before.udid@) ==> device_udid(after.udid@),
        after.udid != before.udid ==> device_udid(after.udid@) && info.udid == Some(after.udid),
        after.name != before.name ==> info.name == Some(after.name) && after.name@.len() > 0,
        before.product_type is Some ==> after.product_type is Some,
        info.product_type is Some ==> after.product_type == info.product_type,
        info.os_version is Some ==> after.os_version == info.os_version,
        info.serial_number is Some ==> after.serial_number == info.serial_number,
        before.core_device_authenticated ==> after.core_device_authenticated,
        after.pairing_address == before.pairing_address && after.reconnect_address
            == before.reconnect_address && after.pairing_identity == before.pairing_identity,
{
}

/// A number that is made up for a device has its uppermost bit set, which those of the multiplexing
/// daemon have not, and is never the largest of all.
pub proof fn law_made_up_numbers_are_marked(bytes: Seq<u8>)
    ensures
        synthetic_id(bytes) >= 0x8000_0000,
        synthetic_id(bytes) != u32::MAX,
{
    let f = fnv1a(bytes);
    assert((f | 0x8000_0000u32) >= 0x8000_0000u32) by (bit_vector);
}

/// An address is written with its port behind a colon, and one of the newer kind in brackets.
pub proof fn law_endpoint_is_written_with_its_port(e: Endpoint)
    ensures
        crate::text::has_text(endpoint_text(e), e.ip.text@),
        crate::text::has_text(endpoint_text(e), decimal(e.port as nat)),
        !e.ip.ipv4 ==> endpoint_text(e)[0] == '[',
{
    let port = decimal(e.port as nat);
    reveal_strlit("[");
    if e.ip.ipv4 {
        crate::text::law_joined_text_is_there(seq![], e.ip.text@, ":"@ + port);
        assert(endpoint_text(e) =~= seq![] + e.ip.text@ + (":"@ + port));
        crate::text::law_joined_text_is_there(e.ip.text@ + ":"@, port, seq![]);
    } else {
        crate::text::law_joined_text_is_there("["@, e.ip.text@, "]:"@ + port);
        assert(endpoint_text(e) =~= "["@ + e.ip.text@ + ("]:"@ + port));
        crate::text::law_joined_text_is_there("["@ + e.ip.text@ + "]:"@, port, seq![]);
    }
}

/// The record of a device lies in the directory under a name of its own: two keys never share a file,
/// and the identity of the pairing comes before the device's identifier.
pub proof fn law_records_of_devices_stay_apart(
    a: Seq<char>,
    b: Seq<char>,
    dir: Seq<char>,
    p: String,
    q: String,
)
    requires
        cache_path_result(Ok(p), a, dir),
        cache_path_result(Ok(q), b, dir),
    ensures
        p@ == q@ ==> a == b,
        crate::paths::file_name_of(p@) == Some("plume_"@ + a + ".plist"@),
        a.len() > 0 && !a.contains('/') && a != seq!['.', '.'],
        cache_key(Some(a), b) == a,
        cache_key(None, b) == b,
{
    reveal_strlit("plume_");
    reveal_strlit(".plist");
    let i = choose|i: int| 0 <= i < a.len() && #[trigger] a[i] != '.';
    assert(a[i] != '.');
    lemma_record_name(a, dir);
    lemma_record_name(b, dir);
    if p@ == q@ {
        let x = "plume_"@ + a + ".plist"@;
        let y = "plume_"@ + b + ".plist"@;
        assert(x == y);
        assert(a =~= x.subrange(6, x.len() - 6));
        assert(b =~= y.subrange(6, y.len() - 6));
    }
}

proof fn lemma_record_name(key: Seq<char>, dir: Seq<char>)
    requires
        safe_key(key),
    ensures
        crate::paths::file_name_of(record_path(key, dir)) == Some("plume_"@ + key + ".plist"@),
{
    reveal_strlit("plume_");
    reveal_strlit(".plist");
    let name = "plume_"@ + key + ".plist"@;
    assert("plume_"@.len() == 6 && ".plist"@.len() == 6);
    assert forall|i: int| 0 <= i < name.len() implies name[i] != '/' by {
        if 6 <= i < 6 + key.len() {
            assert(name[i] == key[i - 6]);
        }
    }
    crate::paths::law_joined_file_name(dir, name);
}

/// A device that gives addresses is shown as wireless; else it is shown as it is attached.
pub proof fn law_attachment_is_shown(d: Device)
    ensures
        d.pairing_address is Some || d.reconnect_address is Some ==> device_text(d).take(6)
            == "[WiFi]"@,
        d.pairing_address is None && d.reconnect_address is None && d.usbmuxd_device is None
            ==> device_text(d).take(7) == "[LOCAL]"@,
        d.pairing_address is None && d.reconnect_address is None && (
        d.usbmuxd_device matches Some(u) && u.connection_type == Connection::Usb) ==> device_text(
            d,
        ).take(5) == "[USB]"@,
        d.pairing_address is None && d.reconnect_address is None && (
        d.usbmuxd_device matches Some(u) && u.connection_type is Network) ==> device_text(d).take(6)
            == "[WiFi]"@,
{
    reveal_strlit("[WiFi]");
    reveal_strlit("[LOCAL]");
    reveal_strlit("[USB]");
    reveal_strlit("WiFi");
    reveal_strlit("LOCAL");
    reveal_strlit("USB");
    reveal_strlit("[");
    reveal_strlit("] ");
    let t = device_text(d);
    let a = attachment_text(d);
    assert(t.take(a.len() as int + 2) =~= "["@ + a + seq![']']);
    if a == "WiFi"@ {
        assert(t.take(6) =~= "[WiFi]"@);
    }
    if a == "LOCAL"@ {
        assert(t.take(7) =~= "[LOCAL]"@);
    }
    if a == "USB"@ {
        assert(t.take(5) =~= "[USB]"@);
    }
}

/// An identifier of a device is shown by its first eight and its last four characters.
pub proof fn law_identifier_is_shown_in_part(d: Device)
    requires
        device_udid(d.udid@),
    ensures
        crate::text::has_text(device_text(d), d.udid@.take(8)),
        crate::text::has_text(device_text(d), d.udid@.skip(d.udid@.len() - 4)),
{
    let u = d.udid@;
    let platform = if d.platform() == DeveloperPlatform::Tvos {
        " (tvOS)"@
    } else {
        ""@
    };
    let front = "["@ + attachment_text(d) + "] "@ + d.name@ + platform + " ["@;
    let tail = "…"@ + u.skip(u.len() - 4) + "]"@;
    crate::text::law_joined_text_is_there(front, u.take(8), tail);
    assert(device_text(d) =~= front + u.take(8) + tail);
    crate::text::law_joined_text_is_there(
        front + u.take(8) + "…"@,
        u.skip(u.len() - 4),
        "]"@,
    );
    assert(device_text(d) =~= front + u.take(8) + "…"@ + u.skip(u.len() - 4) + "]"@);
}

/// What a device is asked for is the text that stands under the key, and nothing where there is none.
pub proof fn law_lockdown_values_are_texts(
    d: Seq<(Seq<char>, PlistModel)>,
    key: Seq<char>,
    value: PlistValue,
    text: Seq<char>,
)
    requires
        value@ == PlistModel::Dict(d),
    ensures
        crate::plist_value::lookup(d, key) == Some(PlistModel::Text(text)) ==> lockdown_text(
            Some(&value),
            key,
        ) == text && property(d, key) == Some(text),
        crate::plist_value::lookup(d, key) is None ==> lockdown_text(Some(&value), key).len() == 0
            && property(d, key) is None,
        lockdown_text(None, key).len() == 0,
        non_empty(text) is Some <==> text.len() > 0,
        non_empty(text) matches Some(t) ==> t == text,
{
}

} // verus!
